//! JPEG files as a start marker followed by segments: finding the segment
//! that carries an XMP packet, and writing a packet into a file.

use vstd::prelude::*;
use vstd::utf8::encode_utf8;
use vstd::utf8::valid_utf8;
use crate::bytes::append_byte_range;
use crate::bytes::copy_range;
use crate::bytes::has_bytes_at;
use crate::bytes::lemma_be_u16_round_trip;
use crate::bytes::push_be_u16;
use crate::bytes::read_be_u16;
use crate::bytes::spec_be_u16;
use crate::bytes::spec_has_bytes_at;
use crate::bytes::spec_u16_be_bytes;
use crate::error::AppError;
use crate::error::InvalidInput;
use crate::format::is_jpeg;
use crate::format::spec_is_jpeg;
use crate::text::string_from_utf8;

verus! {

/// The identifier `http://ns.adobe.com/xap/1.0/` and a zero byte, with which
/// the segment that carries an XMP packet starts.
pub open spec fn spec_xmp_identifier() -> Seq<u8> {
    seq![
        0x68u8, 0x74u8, 0x74u8, 0x70u8, 0x3Au8, 0x2Fu8, 0x2Fu8, 0x6Eu8, 0x73u8, 0x2Eu8, 0x61u8,
        0x64u8, 0x6Fu8, 0x62u8, 0x65u8, 0x2Eu8, 0x63u8, 0x6Fu8, 0x6Du8, 0x2Fu8, 0x78u8, 0x61u8,
        0x70u8, 0x2Fu8, 0x31u8, 0x2Eu8, 0x30u8, 0x2Fu8, 0x00u8,
    ]
}

fn xmp_identifier() -> (id: Vec<u8>)
    ensures
        id@ == spec_xmp_identifier(),
{
    vec![
        0x68u8, 0x74u8, 0x74u8, 0x70u8, 0x3Au8, 0x2Fu8, 0x2Fu8, 0x6Eu8, 0x73u8, 0x2Eu8, 0x61u8,
        0x64u8, 0x6Fu8, 0x62u8, 0x65u8, 0x2Eu8, 0x63u8, 0x6Fu8, 0x6Du8, 0x2Fu8, 0x78u8, 0x61u8,
        0x70u8, 0x2Fu8, 0x31u8, 0x2Eu8, 0x30u8, 0x2Fu8, 0x00u8,
    ]
}

/// Whether the segment at `pos` carries an XMP packet: its marker is APP1,
/// all of it is there, and its content is the identifier followed by at least
/// one byte.
pub open spec fn spec_is_xmp_segment(data: Seq<u8>, pos: int) -> bool {
    &&& data[pos + 1] == 0xE1
    &&& pos + 2 + spec_be_u16(data, pos + 2) <= data.len()
    &&& spec_be_u16(data, pos + 2) > 31
    &&& spec_has_bytes_at(data, pos + 4, spec_xmp_identifier())
}

/// The walk over the segments of a JPEG file from `pos` on, up to the first
/// segment that carries an XMP packet. At each step at least five bytes must
/// be left and the byte at `pos` must be 0xFF; a segment that is not the one
/// looked for is skipped by its length.
pub open spec fn spec_locate_xmp_segment(data: Seq<u8>, pos: int) -> Option<int>
    decreases data.len() - pos,
{
    if pos < 0 || pos + 4 >= data.len() {
        None
    } else if data[pos] != 0xFF {
        None
    } else if spec_is_xmp_segment(data, pos) {
        Some(pos)
    } else if pos + 2 + spec_be_u16(data, pos + 2) > data.len() {
        None
    } else {
        spec_locate_xmp_segment(data, pos + 2 + spec_be_u16(data, pos + 2))
    }
}

/// Where the XMP segment of a JPEG file starts.
pub open spec fn spec_jpeg_xmp_segment(data: Seq<u8>) -> Option<int> {
    if data.len() < 4 || !spec_is_jpeg(data) {
        None
    } else {
        spec_locate_xmp_segment(data, 2)
    }
}

/// The bytes of the XMP packet of a JPEG file: what follows the identifier
/// in its XMP segment.
pub open spec fn spec_jpeg_xmp_bytes(data: Seq<u8>) -> Option<Seq<u8>> {
    match spec_jpeg_xmp_segment(data) {
        Some(pos) => Some(data.subrange(pos + 33, pos + 2 + spec_be_u16(data, pos + 2))),
        None => None,
    }
}

fn locate_xmp_segment(data: &[u8]) -> (at: Option<usize>)
    ensures
        at is Some == spec_jpeg_xmp_segment(data@) is Some,
        at is Some ==> at->0 as int == spec_jpeg_xmp_segment(data@)->0,
        at is Some ==> at->0 + 2 + spec_be_u16(data@, at->0 + 2) <= data.len() && spec_be_u16(
            data@,
            at->0 + 2,
        ) > 31,
{
    if data.len() < 4 || !is_jpeg(data) {
        return None;
    }
    let len: usize = data.len();
    let id = xmp_identifier();
    let mut pos: usize = 2;
    while len - pos > 4
        invariant
            2 <= pos <= len,
            len == data.len(),
            id@ == spec_xmp_identifier(),
            spec_jpeg_xmp_segment(data@) == spec_locate_xmp_segment(data@, pos as int),
        decreases len - pos,
    {
        if data[pos] != 0xFF {
            return None;
        }
        let length: usize = read_be_u16(data, pos + 2) as usize;
        if data[pos + 1] == 0xE1 && length <= len - pos - 2 && length > 31 && has_bytes_at(
            data,
            pos + 4,
            &id,
        ) {
            return Some(pos);
        }
        if length > len - pos - 2 {
            return None;
        }
        pos += 2 + length;
    }
    None
}

/// Reads the XMP packet of a JPEG file: the content of the first APP1 segment
/// that starts with the identifier of XMP, where that content is valid UTF-8.
pub fn extract_xmp_from_jpeg(file_data: &[u8]) -> (xmp: Option<String>)
    ensures
        xmp is Some == (spec_jpeg_xmp_bytes(file_data@) is Some && valid_utf8(
            spec_jpeg_xmp_bytes(file_data@)->0,
        )),
        xmp is Some ==> encode_utf8(xmp->0@) == spec_jpeg_xmp_bytes(file_data@)->0,
{
    match locate_xmp_segment(file_data) {
        Some(pos) => {
            let length: usize = read_be_u16(file_data, pos + 2) as usize;
            string_from_utf8(copy_range(file_data, pos + 33, pos + 2 + length))
        },
        None => None,
    }
}

/// The APP1 segment that carries `packet`: marker, length, identifier and
/// packet.
pub open spec fn spec_xmp_segment(packet: Seq<u8>) -> Seq<u8> {
    seq![0xFFu8, 0xE1u8] + spec_u16_be_bytes((packet.len() + 31) as u16) + spec_xmp_identifier()
        + packet
}

/// The bytes of a JPEG file after its start marker, without the XMP segment
/// that the file has, if any.
pub open spec fn spec_other_bytes(data: Seq<u8>) -> Seq<u8> {
    match spec_jpeg_xmp_segment(data) {
        Some(pos) => data.subrange(2, pos) + data.subrange(
            pos + 2 + spec_be_u16(data, pos + 2),
            data.len() as int,
        ),
        None => data.subrange(2, data.len() as int),
    }
}

/// The file that results from writing `packet` into the JPEG file `data`: the
/// start marker, right after it the segment for the packet, then all other
/// bytes of the file in their order. The XMP segment that the file had, if
/// any, is left out.
pub open spec fn spec_embed_xmp_in_jpeg(data: Seq<u8>, packet: Seq<u8>) -> Result<
    Seq<u8>,
    AppError,
> {
    if !spec_is_jpeg(data) {
        Err(AppError::MalformedHeader)
    } else if packet.len() + 31 > 0xFFFF {
        Err(AppError::InvalidInput(InvalidInput::PacketTooLarge))
    } else {
        Ok(data.subrange(0, 2) + spec_xmp_segment(packet) + spec_other_bytes(data))
    }
}

/// Writes an XMP packet into a JPEG file: the new segment goes right after
/// the start marker, and the XMP segment that the file had is taken out.
pub fn embed_xmp_in_jpeg_vec(file_data: &[u8], xmp_data: &str) -> (r: Result<Vec<u8>, AppError>)
    ensures
        r is Ok == spec_embed_xmp_in_jpeg(file_data@, encode_utf8(xmp_data@)) is Ok,
        r is Ok ==> r->Ok_0@ == spec_embed_xmp_in_jpeg(file_data@, encode_utf8(xmp_data@))->Ok_0,
        r is Err ==> r->Err_0 == spec_embed_xmp_in_jpeg(
            file_data@,
            encode_utf8(xmp_data@),
        )->Err_0,
{
    if !is_jpeg(file_data) {
        return Err(AppError::MalformedHeader);
    }
    let packet = xmp_data.as_bytes();
    if packet.len() > 0xFFFF - 31 {
        return Err(AppError::InvalidInput(InvalidInput::PacketTooLarge));
    }
    let (old_from, old_to): (usize, usize) = match locate_xmp_segment(file_data) {
        Some(pos) => (pos, pos + 2 + read_be_u16(file_data, pos + 2) as usize),
        None => (2, 2),
    };
    proof {
        if spec_jpeg_xmp_segment(file_data@) is Some {
            lemma_locate_bounds(file_data@, 2);
        }
    }
    let id = xmp_identifier();
    let mut out: Vec<u8> = Vec::new();
    append_byte_range(&mut out, file_data, 0, 2);
    out.push(0xFF);
    out.push(0xE1);
    push_be_u16(&mut out, (packet.len() + 31) as u16);
    append_byte_range(&mut out, id.as_slice(), 0, id.len());
    append_byte_range(&mut out, packet, 0, packet.len());
    append_byte_range(&mut out, file_data, 2, old_from);
    append_byte_range(&mut out, file_data, old_to, file_data.len());
    proof {
        assert(id@.subrange(0, id.len() as int) =~= id@);
        assert(packet@.subrange(0, packet.len() as int) =~= packet@);
        let rest = file_data@.subrange(2, old_from as int) + file_data@.subrange(
            old_to as int,
            file_data.len() as int,
        );
        assert(rest =~= spec_other_bytes(file_data@));
        assert(out@ =~= file_data@.subrange(0, 2) + spec_xmp_segment(packet@) + rest);
    }
    Ok(out)
}

/// A walk that finds a segment starts at or before it, and the segment is an
/// XMP segment that lies within the file.
proof fn lemma_locate_bounds(data: Seq<u8>, pos: int)
    requires
        0 <= pos,
        spec_locate_xmp_segment(data, pos) is Some,
    ensures
        pos <= spec_locate_xmp_segment(data, pos)->0,
        spec_locate_xmp_segment(data, pos)->0 + 4 < data.len(),
        data[spec_locate_xmp_segment(data, pos)->0] == 0xFF,
        spec_is_xmp_segment(data, spec_locate_xmp_segment(data, pos)->0),
    decreases data.len() - pos,
{
    if !spec_is_xmp_segment(data, pos) {
        lemma_locate_bounds(data, pos + 2 + spec_be_u16(data, pos + 2));
    }
}

/// The segment built for a non-empty packet, standing at `at` in a file, is
/// an XMP segment, and its content after the identifier is the packet.
proof fn lemma_segment_is_found(data: Seq<u8>, at: int, packet: Seq<u8>)
    requires
        0 <= at,
        0 < packet.len(),
        packet.len() + 31 <= 0xFFFF,
        at + spec_xmp_segment(packet).len() <= data.len(),
        data.subrange(at, at + spec_xmp_segment(packet).len()) == spec_xmp_segment(packet),
    ensures
        at + 4 < data.len(),
        data[at] == 0xFF,
        spec_is_xmp_segment(data, at),
        spec_be_u16(data, at + 2) == packet.len() + 31,
        data.subrange(at + 33, at + 2 + spec_be_u16(data, at + 2)) == packet,
{
    let segment = spec_xmp_segment(packet);
    let total = segment.len() as int;
    assert(total == 33 + packet.len());
    assert forall|j: int| 0 <= j < total implies data[at + j] == segment[j] by {
        assert(data.subrange(at, at + total)[j] == data[at + j]);
    }
    assert(segment[0] == 0xFF);
    assert(segment[1] == 0xE1);
    let length_bytes = spec_u16_be_bytes((packet.len() + 31) as u16);
    let length_field = data.subrange(at + 2, at + 4);
    assert(length_field =~= length_bytes) by {
        assert forall|j: int| 0 <= j < 2 implies #[trigger] length_field[j] == length_bytes[j] by {
            assert(segment[2 + j] == length_bytes[j]);
        }
    }
    lemma_be_u16_round_trip(data, at + 2, (packet.len() + 31) as u16);
    assert(data.subrange(at + 4, at + 33) =~= spec_xmp_identifier()) by {
        assert forall|j: int| 0 <= j < 29 implies data.subrange(at + 4, at + 33)[j]
            == spec_xmp_identifier()[j] by {
            assert(segment[4 + j] == spec_xmp_identifier()[j]);
        }
    }
    assert(data.subrange(at + 33, at + 33 + packet.len()) =~= packet) by {
        assert forall|j: int| 0 <= j < packet.len() implies data.subrange(
            at + 33,
            at + 33 + packet.len(),
        )[j] == packet[j] by {
            assert(segment[33 + j] == packet[j]);
        }
    }
}

/// The file that `spec_embed_xmp_in_jpeg` wrote for a non-empty packet, in
/// its parts: the start marker of the file, right after it the segment that
/// was written, which is the XMP segment that a reader finds, and then the
/// other bytes of the file, which are also the other bytes of the result.
pub proof fn lemma_embedded_segment_is_first(data: Seq<u8>, packet: Seq<u8>)
    requires
        spec_embed_xmp_in_jpeg(data, packet) is Ok,
        0 < packet.len(),
    ensures
        spec_is_jpeg(spec_embed_xmp_in_jpeg(data, packet)->Ok_0),
        spec_jpeg_xmp_segment(spec_embed_xmp_in_jpeg(data, packet)->Ok_0) == Some(2int),
        spec_has_bytes_at(
            spec_embed_xmp_in_jpeg(data, packet)->Ok_0,
            2,
            spec_xmp_segment(packet),
        ),
        spec_jpeg_xmp_bytes(spec_embed_xmp_in_jpeg(data, packet)->Ok_0) == Some(packet),
        spec_other_bytes(spec_embed_xmp_in_jpeg(data, packet)->Ok_0) == spec_other_bytes(data),
{
    let out = spec_embed_xmp_in_jpeg(data, packet)->Ok_0;
    let segment = spec_xmp_segment(packet);
    let rest = spec_other_bytes(data);
    let after = 2 + segment.len() as int;
    assert(out.subrange(0, 2) =~= data.subrange(0, 2));
    assert(out.subrange(2, after) =~= segment);
    lemma_segment_is_found(out, 2, packet);
    assert(spec_locate_xmp_segment(out, 2) == Some(2int));
    assert(2 + 2 + spec_be_u16(out, 4) == after);
    assert(out.subrange(2, 2) + out.subrange(after, out.len() as int) =~= rest);
}

/// A non-empty packet that was written into a JPEG file is the packet that
/// is read from the file.
pub proof fn lemma_embedded_packet_is_read(data: Seq<u8>, packet: Seq<u8>)
    requires
        spec_embed_xmp_in_jpeg(data, packet) is Ok,
        0 < packet.len(),
    ensures
        spec_jpeg_xmp_bytes(spec_embed_xmp_in_jpeg(data, packet)->Ok_0) == Some(packet),
{
    lemma_embedded_segment_is_first(data, packet);
}

/// Writing one non-empty packet and then another gives the file that writing
/// the second alone gives: the segment of the first write is taken out by the
/// second. With the same packet twice, the second write changes nothing.
pub proof fn lemma_embed_twice(data: Seq<u8>, first: Seq<u8>, second: Seq<u8>)
    requires
        spec_embed_xmp_in_jpeg(data, first) is Ok,
        0 < first.len(),
        second.len() + 31 <= 0xFFFF,
    ensures
        spec_embed_xmp_in_jpeg(spec_embed_xmp_in_jpeg(data, first)->Ok_0, second)
            == spec_embed_xmp_in_jpeg(data, second),
{
    let once = spec_embed_xmp_in_jpeg(data, first)->Ok_0;
    lemma_embedded_segment_is_first(data, first);
    assert(once.subrange(0, 2) =~= data.subrange(0, 2));
}

} // verus!
