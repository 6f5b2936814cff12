//! Writing an XMP packet into a PNG file: the chunk that carries a packet is
//! replaced where the file has one, else a new chunk goes in before `IEND`.
//! Every other chunk stays as it is, and the laws below say so.

use vstd::prelude::*;
use vstd::utf8::encode_utf8;
use vstd::utf8::valid_utf8;
use crate::bytes::lemma_be_u32_bytes_of_read;
use crate::bytes::lemma_be_u32_round_trip;
use crate::bytes::spec_be_u32;
use crate::bytes::spec_u32_be_bytes;
use crate::error::AppError;
use crate::error::InvalidInput;
use crate::format::spec_is_png;
use crate::format::spec_png_signature;
use crate::png::calculate_crc;
use crate::png::create_itxt_xmp_chunk;
use crate::png::has_type;
use crate::png::is_xmp_itxt_chunk;
use crate::png::lemma_first_where;
use crate::png::lemma_itxt_round_trip;
use crate::png::parse_png_chunks;
use crate::png::rebuild_png_from_chunks;
use crate::png::spec_carries_xmp;
use crate::png::spec_chunk_at;
use crate::png::spec_chunk_bytes;
use crate::png::spec_chunk_crc;
use crate::png::spec_chunk_views;
use crate::png::spec_chunks_bytes;
use crate::png::spec_first_where;
use crate::png::spec_first_xmp_carrier;
use crate::png::spec_iend_tag;
use crate::png::spec_is_xmp_itxt;
use crate::png::spec_itxt_tag;
use crate::png::spec_itxt_xmp_data;
use crate::png::spec_png_chunks;
use crate::png::spec_png_file;
use crate::png::spec_png_xmp_bytes;
use crate::png::spec_walk;
use crate::png::ChunkWalk;
use crate::png::PngChunk;
use crate::png::PngChunkView;

verus! {

/// Whether a chunk is an international text chunk with the keyword of XMP.
pub open spec fn spec_is_xmp_chunk(chunk: PngChunkView) -> bool {
    chunk.chunk_type == spec_itxt_tag() && spec_is_xmp_itxt(chunk.data)
}

/// Whether a chunk is the one that ends a file.
pub open spec fn spec_is_iend(chunk: PngChunkView) -> bool {
    chunk.chunk_type == spec_iend_tag()
}

/// The index of the first XMP chunk at or after `from`, or the number of
/// chunks.
pub open spec fn spec_first_xmp_chunk_from(chunks: Seq<PngChunkView>, from: int) -> int {
    spec_first_where(chunks, |c: PngChunkView| spec_is_xmp_chunk(c), from)
}

/// The index of the first XMP chunk, or the number of chunks.
pub open spec fn spec_first_xmp_chunk(chunks: Seq<PngChunkView>) -> int {
    spec_first_xmp_chunk_from(chunks, 0)
}

/// The index of the first chunk `IEND` at or after `from`, or the number of
/// chunks.
pub open spec fn spec_first_iend_from(chunks: Seq<PngChunkView>, from: int) -> int {
    spec_first_where(chunks, |c: PngChunkView| spec_is_iend(c), from)
}

/// The index of the first chunk `IEND`, or the number of chunks.
pub open spec fn spec_first_iend(chunks: Seq<PngChunkView>) -> int {
    spec_first_iend_from(chunks, 0)
}

/// The chunk that carries `packet`, with the checksum of its type and data.
pub open spec fn spec_xmp_chunk(packet: Seq<u8>) -> PngChunkView {
    let data = spec_itxt_xmp_data(packet);
    PngChunkView {
        length: data.len() as u32,
        chunk_type: spec_itxt_tag(),
        data,
        crc: spec_chunk_crc(spec_itxt_tag(), data),
    }
}

/// The chunks of a file once `packet` is written into it: the chunk for the
/// packet stands in place of the first XMP chunk, or, where there is none,
/// before the first `IEND`. `None` where the list has neither.
pub open spec fn spec_embed_chunks(chunks: Seq<PngChunkView>, packet: Seq<u8>) -> Option<
    Seq<PngChunkView>,
> {
    let at = spec_first_xmp_chunk(chunks);
    let end = spec_first_iend(chunks);
    if at < chunks.len() {
        Some(chunks.update(at, spec_xmp_chunk(packet)))
    } else if end < chunks.len() {
        Some(chunks.insert(end, spec_xmp_chunk(packet)))
    } else {
        None
    }
}

/// The file that results from writing `packet` into the PNG file `data`.
pub open spec fn spec_embed_xmp_in_png(data: Seq<u8>, packet: Seq<u8>) -> Result<
    Seq<u8>,
    AppError,
> {
    if !spec_is_png(data) || !spec_png_chunks(data).complete {
        Err(AppError::MalformedHeader)
    } else if spec_itxt_xmp_data(packet).len() > u32::MAX {
        Err(AppError::InvalidInput(InvalidInput::PacketTooLarge))
    } else {
        match spec_embed_chunks(spec_png_chunks(data).chunks, packet) {
            Some(chunks) => Ok(spec_png_file(chunks)),
            None => Err(AppError::SegmentNotFound),
        }
    }
}

fn itxt_tag() -> (tag: Vec<u8>)
    ensures
        tag@ == spec_itxt_tag(),
{
    vec![0x69u8, 0x54u8, 0x58u8, 0x74u8]
}

fn first_xmp_chunk(chunks: &Vec<PngChunk>) -> (at: usize)
    ensures
        at as int == spec_first_xmp_chunk(spec_chunk_views(chunks@)),
        at <= chunks.len(),
{
    let ghost views = spec_chunk_views(chunks@);
    let tag = itxt_tag();
    let mut i: usize = 0;
    while i < chunks.len()
        invariant
            i <= chunks.len(),
            views == spec_chunk_views(chunks@),
            tag@ == spec_itxt_tag(),
            spec_first_xmp_chunk(views) == spec_first_xmp_chunk_from(views, i as int),
        decreases chunks.len() - i,
    {
        let chunk = &chunks[i];
        assert(views[i as int] == chunk@);
        if has_type(chunk, &tag) && is_xmp_itxt_chunk(chunk.data.as_slice()) {
            return i;
        }
        i += 1;
    }
    i
}

fn first_iend(chunks: &Vec<PngChunk>) -> (at: usize)
    ensures
        at as int == spec_first_iend(spec_chunk_views(chunks@)),
        at <= chunks.len(),
{
    let ghost views = spec_chunk_views(chunks@);
    let tag: Vec<u8> = vec![0x49u8, 0x45u8, 0x4Eu8, 0x44u8];
    let mut i: usize = 0;
    while i < chunks.len()
        invariant
            i <= chunks.len(),
            views == spec_chunk_views(chunks@),
            tag@ == spec_iend_tag(),
            spec_first_iend(views) == spec_first_iend_from(views, i as int),
        decreases chunks.len() - i,
    {
        let chunk = &chunks[i];
        assert(views[i as int] == chunk@);
        if has_type(chunk, &tag) {
            return i;
        }
        i += 1;
    }
    i
}

/// Writes an XMP packet into a PNG file. The chunk that carries the packet
/// takes the place of the first XMP chunk of the file, or stands before
/// `IEND` where the file has none. All other chunks are written back as they
/// were read, checksums included.
pub fn embed_xmp_in_png_chunks(file_data: &[u8], xmp_data: &str) -> (r: Result<Vec<u8>, AppError>)
    ensures
        r is Ok == spec_embed_xmp_in_png(file_data@, encode_utf8(xmp_data@)) is Ok,
        r is Ok ==> r->Ok_0@ == spec_embed_xmp_in_png(file_data@, encode_utf8(xmp_data@))->Ok_0,
        r is Err ==> r->Err_0 == spec_embed_xmp_in_png(
            file_data@,
            encode_utf8(xmp_data@),
        )->Err_0,
{
    let mut chunks = match parse_png_chunks(file_data) {
        Ok(chunks) => chunks,
        Err(e) => {
            return Err(e);
        },
    };
    let ghost views = spec_chunk_views(chunks@);
    let data = create_itxt_xmp_chunk(xmp_data);
    if data.len() > 0xFFFF_FFFF {
        return Err(AppError::InvalidInput(InvalidInput::PacketTooLarge));
    }
    let chunk_type: [u8; 4] = [0x69u8, 0x54u8, 0x58u8, 0x74u8];
    assert(chunk_type@ =~= spec_itxt_tag());
    let crc = calculate_crc(&chunk_type, data.as_slice());
    let chunk = PngChunk { length: data.len() as u32, chunk_type, data, crc };
    assert(chunk@ == spec_xmp_chunk(encode_utf8(xmp_data@)));
    let at = first_xmp_chunk(&chunks);
    if at < chunks.len() {
        chunks.set(at, chunk);
        assert(spec_chunk_views(chunks@) =~= views.update(at as int, chunk@));
    } else {
        let end = first_iend(&chunks);
        if end >= chunks.len() {
            return Err(AppError::SegmentNotFound);
        }
        chunks.insert(end, chunk);
        assert(spec_chunk_views(chunks@) =~= views.insert(end as int, chunk@));
    }
    Ok(rebuild_png_from_chunks(&chunks))
}

/// A list of chunks as a walk finds it: each type has four bytes, each length
/// is that of the data, and no chunk but the last is `IEND`.
pub open spec fn spec_well_formed(chunks: Seq<PngChunkView>) -> bool {
    &&& forall|i: int|
        0 <= i < chunks.len() ==> (#[trigger] chunks[i]).chunk_type.len() == 4 && chunks[i].length
            == chunks[i].data.len()
    &&& forall|i: int| 0 <= i < chunks.len() - 1 ==> !spec_is_iend(#[trigger] chunks[i])
}

proof fn lemma_chunks_bytes_front(first: PngChunkView, rest: Seq<PngChunkView>)
    ensures
        spec_chunks_bytes(seq![first] + rest) == spec_chunk_bytes(first) + spec_chunks_bytes(rest),
    decreases rest.len(),
{
    let all = seq![first] + rest;
    if rest.len() == 0 {
        assert(all.len() == 1);
        assert(all[all.len() - 1] == first);
        assert(all.subrange(0, all.len() - 1) =~= Seq::<PngChunkView>::empty());
        assert(spec_chunks_bytes(all.subrange(0, all.len() - 1)) =~= Seq::<u8>::empty());
        assert(spec_chunks_bytes(rest) =~= Seq::<u8>::empty());
        assert(spec_chunks_bytes(all) =~= spec_chunk_bytes(first) + spec_chunks_bytes(rest));
    } else {
        let shorter = rest.subrange(0, rest.len() - 1);
        lemma_chunks_bytes_front(first, shorter);
        assert(all.subrange(0, all.len() - 1) =~= seq![first] + shorter);
        assert(all[all.len() - 1] == rest[rest.len() - 1]);
        assert(spec_chunks_bytes(all) =~= spec_chunk_bytes(first) + spec_chunks_bytes(rest));
    }
}

proof fn lemma_walk_of_bytes(data: Seq<u8>, pos: int, chunks: Seq<PngChunkView>)
    requires
        0 <= pos <= data.len(),
        spec_well_formed(chunks),
        data.subrange(pos, data.len() as int) == spec_chunks_bytes(chunks),
    ensures
        spec_walk(data, pos) == (ChunkWalk { chunks, complete: true }),
    decreases chunks.len(),
{
    let tail = data.subrange(pos, data.len() as int);
    if chunks.len() == 0 {
        assert(tail.len() == 0);
        assert(chunks =~= Seq::<PngChunkView>::empty());
    } else {
        let first = chunks[0];
        let rest = chunks.subrange(1, chunks.len() as int);
        assert(chunks =~= seq![first] + rest);
        lemma_chunks_bytes_front(first, rest);
        let head = spec_chunk_bytes(first);
        let length = first.data.len() as int;
        assert(first.chunk_type.len() == 4);
        assert(first.length == length);
        assert(head.len() == 12 + length);
        assert(tail.len() == head.len() + spec_chunks_bytes(rest).len());
        assert forall|j: int| 0 <= j < head.len() implies data[pos + j] == head[j] by {
            assert(tail[j] == data[pos + j]);
            assert(tail[j] == head[j]);
        }
        assert(data.subrange(pos, pos + 4) =~= spec_u32_be_bytes(first.length)) by {
            assert forall|j: int| 0 <= j < 4 implies data.subrange(pos, pos + 4)[j]
                == spec_u32_be_bytes(first.length)[j] by {
                assert(head[j] == spec_u32_be_bytes(first.length)[j]);
            }
        }
        lemma_be_u32_round_trip(data, pos, first.length);
        assert(data.subrange(pos + 4, pos + 8) =~= first.chunk_type) by {
            assert forall|j: int| 0 <= j < 4 implies data.subrange(pos + 4, pos + 8)[j]
                == first.chunk_type[j] by {
                assert(head[4 + j] == first.chunk_type[j]);
            }
        }
        assert(data.subrange(pos + 8, pos + 8 + length) =~= first.data) by {
            assert forall|j: int| 0 <= j < length implies data.subrange(pos + 8, pos + 8 + length)[j]
                == first.data[j] by {
                assert(head[8 + j] == first.data[j]);
            }
        }
        assert(data.subrange(pos + 8 + length, pos + 12 + length) =~= spec_u32_be_bytes(first.crc))
            by {
            assert forall|j: int| 0 <= j < 4 implies data.subrange(
                pos + 8 + length,
                pos + 12 + length,
            )[j] == spec_u32_be_bytes(first.crc)[j] by {
                assert(head[8 + length + j] == spec_u32_be_bytes(first.crc)[j]);
            }
        }
        lemma_be_u32_round_trip(data, pos + 8 + length, first.crc);
        assert(spec_chunk_at(data, pos) == first);
        let next = pos + 12 + length;
        assert(data.subrange(next, data.len() as int) =~= spec_chunks_bytes(rest)) by {
            assert forall|j: int| 0 <= j < spec_chunks_bytes(rest).len() implies data.subrange(
                next,
                data.len() as int,
            )[j] == spec_chunks_bytes(rest)[j] by {
                assert(tail[head.len() + j] == spec_chunks_bytes(rest)[j]);
            }
        }
        if spec_is_iend(first) {
            if chunks.len() > 1 {
                assert(!spec_is_iend(chunks[0]));
            }
            assert(chunks =~= seq![first]);
        } else {
            assert(spec_well_formed(rest)) by {
                assert forall|i: int| 0 <= i < rest.len() implies (#[trigger] rest[i]).chunk_type.len()
                    == 4 && rest[i].length == rest[i].data.len() by {
                    assert(rest[i] == chunks[i + 1]);
                }
                assert forall|i: int| 0 <= i < rest.len() - 1 implies !spec_is_iend(
                    #[trigger] rest[i],
                ) by {
                    assert(rest[i] == chunks[i + 1]);
                }
            }
            lemma_walk_of_bytes(data, next, rest);
        }
    }
}

/// Where the walk over the chunks of `data` from `pos` on ends: after the
/// chunk `IEND`, or after the last chunk that is wholly there.
pub open spec fn spec_walk_end(data: Seq<u8>, pos: int) -> int
    decreases data.len() - pos,
{
    if pos < 0 || pos + 4 > data.len() || pos + 12 + spec_be_u32(data, pos) > data.len() {
        pos
    } else if spec_chunk_at(data, pos).chunk_type == spec_iend_tag() {
        pos + 12 + spec_be_u32(data, pos)
    } else {
        spec_walk_end(data, pos + 12 + spec_be_u32(data, pos))
    }
}

proof fn lemma_chunk_bytes_of_chunk_at(data: Seq<u8>, pos: int)
    requires
        0 <= pos,
        pos + 12 + spec_be_u32(data, pos) <= data.len(),
    ensures
        spec_chunk_bytes(spec_chunk_at(data, pos)) == data.subrange(
            pos,
            pos + 12 + spec_be_u32(data, pos),
        ),
{
    let length = spec_be_u32(data, pos) as int;
    let chunk = spec_chunk_at(data, pos);
    let crc_at = pos + 8 + length;
    lemma_be_u32_bytes_of_read(data, pos);
    lemma_be_u32_bytes_of_read(data, crc_at);
    assert(spec_chunk_bytes(chunk) =~= data.subrange(pos, pos + 12 + length));
}

/// The bytes of the chunks that a walk finds are the bytes that it walked
/// over, one for one.
pub proof fn lemma_walk_bytes(data: Seq<u8>, pos: int)
    requires
        0 <= pos <= data.len(),
    ensures
        pos <= spec_walk_end(data, pos) <= data.len(),
        spec_chunks_bytes(spec_walk(data, pos).chunks) == data.subrange(
            pos,
            spec_walk_end(data, pos),
        ),
    decreases data.len() - pos,
{
    if pos + 4 > data.len() || pos + 12 + spec_be_u32(data, pos) > data.len() {
        assert(spec_chunks_bytes(spec_walk(data, pos).chunks) =~= data.subrange(pos, pos));
    } else {
        let chunk = spec_chunk_at(data, pos);
        let next = pos + 12 + spec_be_u32(data, pos);
        lemma_chunk_bytes_of_chunk_at(data, pos);
        if chunk.chunk_type == spec_iend_tag() {
            lemma_chunks_bytes_front(chunk, Seq::empty());
            assert(seq![chunk] + Seq::<PngChunkView>::empty() =~= seq![chunk]);
            assert(spec_chunks_bytes(Seq::<PngChunkView>::empty()) =~= Seq::<u8>::empty());
            assert(spec_chunks_bytes(seq![chunk]) =~= data.subrange(pos, next));
        } else {
            lemma_walk_bytes(data, next);
            let rest = spec_walk(data, next).chunks;
            lemma_chunks_bytes_front(chunk, rest);
            assert(data.subrange(pos, next) + data.subrange(next, spec_walk_end(data, next))
                =~= data.subrange(pos, spec_walk_end(data, next)));
        }
    }
}

/// Writing back the chunks that were read from a PNG file gives the file
/// again, byte for byte, up to the end of its last chunk.
pub proof fn lemma_rebuild_gives_back_the_file(data: Seq<u8>)
    requires
        spec_is_png(data),
    ensures
        spec_png_file(spec_png_chunks(data).chunks) == data.subrange(0, spec_walk_end(data, 8)),
{
    lemma_walk_bytes(data, 8);
    assert(data.subrange(0, 8) =~= spec_png_signature());
    assert(data.subrange(0, 8) + data.subrange(8, spec_walk_end(data, 8)) =~= data.subrange(
        0,
        spec_walk_end(data, 8),
    ));
}

/// The chunks that a walk finds are well formed.
pub proof fn lemma_walk_well_formed(data: Seq<u8>, pos: int)
    requires
        0 <= pos,
    ensures
        spec_well_formed(spec_walk(data, pos).chunks),
    decreases data.len() - pos,
{
    if pos + 4 > data.len() {
    } else if pos + 12 + spec_be_u32(data, pos) > data.len() {
    } else {
        let chunk = spec_chunk_at(data, pos);
        assert(spec_be_u32(data, pos) <= 0xFFFF_FFFF);
        assert(chunk.length == chunk.data.len());
        if chunk.chunk_type == spec_iend_tag() {
        } else {
            let next = pos + 12 + spec_be_u32(data, pos);
            lemma_walk_well_formed(data, next);
            let rest = spec_walk(data, next).chunks;
            let all = seq![chunk] + rest;
            assert forall|i: int| 0 <= i < all.len() implies (#[trigger] all[i]).chunk_type.len()
                == 4 && all[i].length == all[i].data.len() by {
                if i > 0 {
                    assert(all[i] == rest[i - 1]);
                }
            }
            assert forall|i: int| 0 <= i < all.len() - 1 implies !spec_is_iend(#[trigger] all[i]) by {
                if i > 0 {
                    assert(all[i] == rest[i - 1]);
                }
            }
        }
    }
}

proof fn lemma_first_where_is(
    chunks: Seq<PngChunkView>,
    wanted: spec_fn(PngChunkView) -> bool,
    from: int,
    at: int,
)
    requires
        0 <= from <= at <= chunks.len(),
        forall|i: int| from <= i < at ==> !wanted(chunks[i]),
        at < chunks.len() ==> wanted(chunks[at]),
    ensures
        spec_first_where(chunks, wanted, from) == at,
    decreases at - from,
{
    if from < at {
        lemma_first_where_is(chunks, wanted, from + 1, at);
    }
}

proof fn lemma_embed_well_formed(chunks: Seq<PngChunkView>, packet: Seq<u8>)
    requires
        spec_well_formed(chunks),
        spec_itxt_xmp_data(packet).len() <= u32::MAX,
        spec_embed_chunks(chunks, packet) is Some,
    ensures
        spec_well_formed(spec_embed_chunks(chunks, packet)->0),
{
    let fresh = spec_xmp_chunk(packet);
    let out = spec_embed_chunks(chunks, packet)->0;
    assert(spec_itxt_tag()[0] != spec_iend_tag()[0]);
    assert(!spec_is_iend(fresh));
    let at = spec_first_xmp_chunk(chunks);
    let end = spec_first_iend(chunks);
    lemma_first_where(chunks, |c: PngChunkView| spec_is_xmp_chunk(c), 0);
    lemma_first_where(chunks, |c: PngChunkView| spec_is_iend(c), 0);
    if at < chunks.len() {
        assert forall|i: int| 0 <= i < out.len() - 1 implies !spec_is_iend(#[trigger] out[i]) by {
            if i != at {
                assert(out[i] == chunks[i]);
            }
        }
    } else {
        assert forall|i: int| 0 <= i < out.len() implies (#[trigger] out[i]).chunk_type.len() == 4
            && out[i].length == out[i].data.len() by {
            if i < end {
                assert(out[i] == chunks[i]);
            } else if i > end {
                assert(out[i] == chunks[i - 1]);
            }
        }
        assert forall|i: int| 0 <= i < out.len() - 1 implies !spec_is_iend(#[trigger] out[i]) by {
            if i < end {
                assert(out[i] == chunks[i]);
            } else if i > end {
                assert(out[i] == chunks[i - 1]);
            }
        }
    }
}

/// Reading the file that `spec_embed_xmp_in_png` wrote gives the chunks of
/// the input with the chunk of the packet replaced or added, and nothing
/// else changed: every other chunk is there with its type, data and checksum,
/// in its place.
pub proof fn lemma_embed_then_read(data: Seq<u8>, packet: Seq<u8>)
    requires
        spec_embed_xmp_in_png(data, packet) is Ok,
    ensures
        spec_is_png(spec_embed_xmp_in_png(data, packet)->Ok_0),
        spec_png_chunks(spec_embed_xmp_in_png(data, packet)->Ok_0).complete,
        Some(spec_png_chunks(spec_embed_xmp_in_png(data, packet)->Ok_0).chunks)
            == spec_embed_chunks(spec_png_chunks(data).chunks, packet),
{
    let chunks = spec_png_chunks(data).chunks;
    let out_chunks = spec_embed_chunks(chunks, packet)->0;
    let out = spec_png_file(out_chunks);
    lemma_walk_well_formed(data, 8);
    lemma_embed_well_formed(chunks, packet);
    assert(out.subrange(0, 8) =~= spec_png_signature());
    assert(out.subrange(8, out.len() as int) =~= spec_chunks_bytes(out_chunks));
    lemma_walk_of_bytes(out, 8, out_chunks);
}

/// Writing one packet and then another gives the file that writing the
/// second alone gives: the chunk of the first write is replaced in place.
/// With the same packet twice, the second write changes nothing.
pub proof fn lemma_embed_twice(data: Seq<u8>, first: Seq<u8>, second: Seq<u8>)
    requires
        spec_embed_xmp_in_png(data, first) is Ok,
        spec_itxt_xmp_data(second).len() <= u32::MAX,
    ensures
        spec_embed_xmp_in_png(spec_embed_xmp_in_png(data, first)->Ok_0, second)
            == spec_embed_xmp_in_png(data, second),
{
    let chunks = spec_png_chunks(data).chunks;
    let once = spec_embed_chunks(chunks, first)->0;
    lemma_embed_then_read(data, first);
    let at = spec_first_xmp_chunk(chunks);
    let end = spec_first_iend(chunks);
    let test = |c: PngChunkView| spec_is_xmp_chunk(c);
    lemma_first_where(chunks, test, 0);
    lemma_first_where(chunks, |c: PngChunkView| spec_is_iend(c), 0);
    lemma_xmp_chunk_is_xmp(first);
    if at < chunks.len() {
        assert forall|i: int| 0 <= i < at implies !test(once[i]) by {
            assert(once[i] == chunks[i]);
        }
        lemma_first_where_is(once, test, 0, at);
        assert(once.update(at, spec_xmp_chunk(second)) =~= chunks.update(
            at,
            spec_xmp_chunk(second),
        ));
    } else {
        assert forall|i: int| 0 <= i < end implies !test(once[i]) by {
            assert(once[i] == chunks[i]);
        }
        lemma_first_where_is(once, test, 0, end);
        assert(once.update(end, spec_xmp_chunk(second)) =~= chunks.insert(
            end,
            spec_xmp_chunk(second),
        ));
    }
}

/// The chunk built for a packet is an XMP chunk.
pub proof fn lemma_xmp_chunk_is_xmp(packet: Seq<u8>)
    ensures
        spec_is_xmp_chunk(spec_xmp_chunk(packet)),
{
    let data = spec_itxt_xmp_data(packet);
    assert(data.subrange(0, 17) =~= crate::png::spec_xmp_keyword());
    assert(data[17] == 0);
}

/// A packet of valid UTF-8 that was written into a PNG file is the packet
/// that is read from the file.
pub proof fn lemma_embedded_packet_is_read(data: Seq<u8>, packet: Seq<u8>)
    requires
        spec_embed_xmp_in_png(data, packet) is Ok,
        valid_utf8(packet),
    ensures
        spec_png_xmp_bytes(spec_embed_xmp_in_png(data, packet)->Ok_0) == Some(packet),
{
    let chunks = spec_png_chunks(data).chunks;
    let once = spec_embed_chunks(chunks, packet)->0;
    lemma_embed_then_read(data, packet);
    let at = spec_first_xmp_chunk(chunks);
    let end = spec_first_iend(chunks);
    let carrier = |c: PngChunkView| spec_carries_xmp(c);
    lemma_first_where(chunks, |c: PngChunkView| spec_is_xmp_chunk(c), 0);
    lemma_first_where(chunks, |c: PngChunkView| spec_is_iend(c), 0);
    lemma_itxt_round_trip(packet);
    let place = if at < chunks.len() {
        at
    } else {
        end
    };
    assert(once[place] == spec_xmp_chunk(packet));
    assert(carrier(once[place]));
    assert forall|i: int| 0 <= i < place implies !carrier(once[i]) by {
        assert(once[i] == chunks[i]);
        assert(!spec_is_xmp_chunk(chunks[i]));
    }
    lemma_first_where_is(once, carrier, 0, place);
    assert(spec_first_xmp_carrier(once) == place);
}

/// Writing a packet changes no search for a chunk of another kind: where
/// `wanted` holds neither of XMP chunks nor of `IEND`, the first chunk of
/// which it holds is the same before and after.
pub proof fn lemma_embed_keeps_first_where(
    chunks: Seq<PngChunkView>,
    packet: Seq<u8>,
    wanted: spec_fn(PngChunkView) -> bool,
)
    requires
        spec_embed_chunks(chunks, packet) is Some,
        forall|c: PngChunkView| spec_is_xmp_chunk(c) ==> !#[trigger] wanted(c),
    ensures
        ({
            let out = spec_embed_chunks(chunks, packet)->0;
            let before = spec_first_where(chunks, wanted, 0);
            let after = spec_first_where(out, wanted, 0);
            &&& (before < chunks.len()) == (after < out.len())
            &&& before < chunks.len() ==> out[after] == chunks[before]
        }),
{
    let out = spec_embed_chunks(chunks, packet)->0;
    let at = spec_first_xmp_chunk(chunks);
    let end = spec_first_iend(chunks);
    let before = spec_first_where(chunks, wanted, 0);
    lemma_first_where(chunks, |c: PngChunkView| spec_is_xmp_chunk(c), 0);
    lemma_first_where(chunks, |c: PngChunkView| spec_is_iend(c), 0);
    lemma_first_where(chunks, wanted, 0);
    lemma_xmp_chunk_is_xmp(packet);
    assert(!wanted(spec_xmp_chunk(packet)));
    if at < chunks.len() {
        assert(!wanted(chunks[at]));
        assert forall|i: int| 0 <= i < before implies !wanted(out[i]) by {
            if i != at {
                assert(out[i] == chunks[i]);
            }
        }
        if before < chunks.len() {
            assert(out[before] == chunks[before]);
        }
        lemma_first_where_is(out, wanted, 0, before);
    } else {
        let after = if before < end {
            before
        } else {
            before + 1
        };
        assert forall|i: int| 0 <= i < after implies !wanted(out[i]) by {
            if i < end {
                assert(out[i] == chunks[i]);
            } else if i > end {
                assert(out[i] == chunks[i - 1]);
            }
        }
        if before < chunks.len() {
            assert(out[after] == chunks[before]);
        }
        lemma_first_where_is(out, wanted, 0, after);
    }
}

} // verus!
