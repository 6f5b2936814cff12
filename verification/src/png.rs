//! PNG files as an ordered list of chunks: reading the list, writing it back,
//! and the text chunk that carries an XMP packet.

use vstd::prelude::*;
use vstd::utf8::encode_utf8;
use vstd::utf8::valid_utf8;
use crate::bytes::append_byte_range;
use crate::bytes::copy_range;
use crate::bytes::has_bytes_at;
use crate::bytes::push_be_u32;
use crate::bytes::read_be_u32;
use crate::bytes::spec_be_u32;
use crate::bytes::spec_has_bytes_at;
use crate::bytes::spec_u32_be_bytes;
use crate::error::AppError;
use crate::format::is_png;
use crate::format::png_signature;
use crate::format::spec_is_png;
use crate::format::spec_png_signature;
use crate::text::string_from_utf8;

verus! {

/// One chunk of a PNG file.
#[derive(Clone, Debug, PartialEq, Eq)]
pub struct PngChunk {
    /// The number of bytes in `data`.
    pub length: u32,
    pub chunk_type: [u8; 4],
    pub data: Vec<u8>,
    /// The checksum over type and data, as the file states it.
    pub crc: u32,
}

/// What a chunk holds, as plain values.
pub struct PngChunkView {
    pub length: u32,
    pub chunk_type: Seq<u8>,
    pub data: Seq<u8>,
    pub crc: u32,
}

impl View for PngChunk {
    type V = PngChunkView;

    open spec fn view(&self) -> PngChunkView {
        PngChunkView {
            length: self.length,
            chunk_type: self.chunk_type@,
            data: self.data@,
            crc: self.crc,
        }
    }
}

/// What each chunk of a list holds.
pub open spec fn spec_chunk_views(chunks: Seq<PngChunk>) -> Seq<PngChunkView> {
    Seq::new(chunks.len(), |i: int| chunks[i]@)
}

/// `IEND`
pub open spec fn spec_iend_tag() -> Seq<u8> {
    seq![0x49u8, 0x45u8, 0x4Eu8, 0x44u8]
}

/// `iTXt`
pub open spec fn spec_itxt_tag() -> Seq<u8> {
    seq![0x69u8, 0x54u8, 0x58u8, 0x74u8]
}

/// `tEXt`
pub open spec fn spec_text_tag() -> Seq<u8> {
    seq![0x74u8, 0x45u8, 0x58u8, 0x74u8]
}

/// The keyword `XML:com.adobe.xmp` under which a text chunk carries an XMP
/// packet.
pub open spec fn spec_xmp_keyword() -> Seq<u8> {
    seq![
        0x58u8, 0x4Du8, 0x4Cu8, 0x3Au8, 0x63u8, 0x6Fu8, 0x6Du8, 0x2Eu8, 0x61u8, 0x64u8, 0x6Fu8,
        0x62u8, 0x65u8, 0x2Eu8, 0x78u8, 0x6Du8, 0x70u8,
    ]
}

fn xmp_keyword() -> (keyword: Vec<u8>)
    ensures
        keyword@ == spec_xmp_keyword(),
{
    vec![
        0x58u8, 0x4Du8, 0x4Cu8, 0x3Au8, 0x63u8, 0x6Fu8, 0x6Du8, 0x2Eu8, 0x61u8, 0x64u8, 0x6Fu8,
        0x62u8, 0x65u8, 0x2Eu8, 0x78u8, 0x6Du8, 0x70u8,
    ]
}

/// The chunk whose four length bytes stand at `pos`, all of it being there.
pub open spec fn spec_chunk_at(data: Seq<u8>, pos: int) -> PngChunkView {
    let length = spec_be_u32(data, pos);
    PngChunkView {
        length: length as u32,
        chunk_type: data.subrange(pos + 4, pos + 8),
        data: data.subrange(pos + 8, pos + 8 + length),
        crc: spec_be_u32(data, pos + 8 + length) as u32,
    }
}

/// The chunks found by walking a file, and whether the walk came to a proper
/// end.
pub struct ChunkWalk {
    pub chunks: Seq<PngChunkView>,
    /// False where the data ends inside a chunk.
    pub complete: bool,
}

/// The walk over the chunks of `data` from `pos` on. It ends with the chunk
/// `IEND`, or where fewer than four bytes are left, or, incomplete, where a
/// chunk announces more bytes than are left.
pub open spec fn spec_walk(data: Seq<u8>, pos: int) -> ChunkWalk
    decreases data.len() - pos,
{
    if pos < 0 || pos + 4 > data.len() {
        ChunkWalk { chunks: Seq::empty(), complete: true }
    } else if pos + 12 + spec_be_u32(data, pos) > data.len() {
        ChunkWalk { chunks: Seq::empty(), complete: false }
    } else {
        let chunk = spec_chunk_at(data, pos);
        if chunk.chunk_type == spec_iend_tag() {
            ChunkWalk { chunks: seq![chunk], complete: true }
        } else {
            let rest = spec_walk(data, pos + 12 + spec_be_u32(data, pos));
            ChunkWalk { chunks: seq![chunk] + rest.chunks, complete: rest.complete }
        }
    }
}

/// The chunks of a PNG file: those that follow its signature, up to `IEND`.
pub open spec fn spec_png_chunks(data: Seq<u8>) -> ChunkWalk {
    spec_walk(data, 8)
}

/// Whether a chunk has the given type.
pub fn has_type(chunk: &PngChunk, tag: &Vec<u8>) -> (b: bool)
    ensures
        b == (chunk.chunk_type@ == tag@),
{
    if tag.len() != 4 {
        return false;
    }
    let b = chunk.chunk_type[0] == tag[0] && chunk.chunk_type[1] == tag[1] && chunk.chunk_type[2]
        == tag[2] && chunk.chunk_type[3] == tag[3];
    assert(b ==> chunk.chunk_type@ =~= tag@);
    b
}

/// Walks the chunks of `data` from index 8 on, whatever the first eight bytes
/// are. Returns the chunks that are wholly there and whether the walk came to
/// a proper end.
pub fn read_chunks(data: &[u8]) -> (r: (Vec<PngChunk>, bool))
    ensures
        spec_chunk_views(r.0@) == spec_png_chunks(data@).chunks,
        r.1 == spec_png_chunks(data@).complete,
{
    let mut chunks: Vec<PngChunk> = Vec::new();
    let len: usize = data.len();
    if len < 8 {
        assert(spec_chunk_views(chunks@) =~= spec_png_chunks(data@).chunks);
        return (chunks, true);
    }
    let mut pos: usize = 8;
    assert(spec_chunk_views(chunks@) + spec_walk(data@, 8).chunks =~= spec_walk(data@, 8).chunks);
    loop
        invariant
            8 <= pos <= len,
            len == data.len(),
            spec_png_chunks(data@).chunks == spec_chunk_views(chunks@) + spec_walk(
                data@,
                pos as int,
            ).chunks,
            spec_png_chunks(data@).complete == spec_walk(data@, pos as int).complete,
        decreases len - pos,
    {
        if len - pos < 4 {
            assert(spec_chunk_views(chunks@) + Seq::<PngChunkView>::empty() =~= spec_chunk_views(
                chunks@,
            ));
            return (chunks, true);
        }
        let length: u32 = read_be_u32(data, pos);
        if len - pos < 12 || length as usize > len - pos - 12 {
            assert(spec_chunk_views(chunks@) + Seq::<PngChunkView>::empty() =~= spec_chunk_views(
                chunks@,
            ));
            return (chunks, false);
        }
        let body: usize = pos + 8;
        let end: usize = body + length as usize;
        let chunk = PngChunk {
            length,
            chunk_type: [data[pos + 4], data[pos + 5], data[pos + 6], data[pos + 7]],
            data: copy_range(data, body, end),
            crc: read_be_u32(data, end),
        };
        proof {
            assert(chunk.chunk_type@ =~= data@.subrange(pos + 4, pos + 8));
            assert(chunk@ == spec_chunk_at(data@, pos as int));
            let ghost_views = spec_chunk_views(chunks@);
            let pushed = spec_chunk_views(chunks@.push(chunk));
            assert(pushed =~= ghost_views.push(chunk@));
            let walk = spec_walk(data@, pos as int);
            if chunk@.chunk_type == spec_iend_tag() {
                assert(ghost_views + walk.chunks =~= pushed);
            } else {
                let rest = spec_walk(data@, end + 4);
                assert(ghost_views + walk.chunks =~= pushed + rest.chunks);
            }
        }
        let done = has_type(&chunk, &vec![0x49u8, 0x45u8, 0x4Eu8, 0x44u8]);
        chunks.push(chunk);
        if done {
            return (chunks, true);
        }
        pos = end + 4;
    }
}

/// Reads the chunks of a PNG file, from its signature to `IEND`. A file that
/// lacks the signature, or ends inside a chunk, has a malformed header.
pub fn parse_png_chunks(data: &[u8]) -> (r: Result<Vec<PngChunk>, AppError>)
    ensures
        r is Ok == (spec_is_png(data@) && spec_png_chunks(data@).complete),
        r is Ok ==> spec_chunk_views(r->Ok_0@) == spec_png_chunks(data@).chunks,
        r is Err ==> r->Err_0 == AppError::MalformedHeader,
{
    if !is_png(data) {
        return Err(AppError::MalformedHeader);
    }
    let (chunks, complete) = read_chunks(data);
    if complete {
        Ok(chunks)
    } else {
        Err(AppError::MalformedHeader)
    }
}

/// The bytes of one chunk in a file: length, type, data and checksum.
pub open spec fn spec_chunk_bytes(chunk: PngChunkView) -> Seq<u8> {
    spec_u32_be_bytes(chunk.length) + chunk.chunk_type + chunk.data + spec_u32_be_bytes(chunk.crc)
}

/// The bytes of a list of chunks, one after the other.
pub open spec fn spec_chunks_bytes(chunks: Seq<PngChunkView>) -> Seq<u8>
    decreases chunks.len(),
{
    if chunks.len() == 0 {
        Seq::empty()
    } else {
        spec_chunks_bytes(chunks.subrange(0, chunks.len() - 1)) + spec_chunk_bytes(
            chunks[chunks.len() - 1],
        )
    }
}

/// The file made of the signature and the given chunks.
pub open spec fn spec_png_file(chunks: Seq<PngChunkView>) -> Seq<u8> {
    spec_png_signature() + spec_chunks_bytes(chunks)
}

/// Writes a PNG file: the signature, then each chunk as it is, in order.
pub fn rebuild_png_from_chunks(chunks: &Vec<PngChunk>) -> (out: Vec<u8>)
    ensures
        out@ == spec_png_file(spec_chunk_views(chunks@)),
{
    let mut out: Vec<u8> = png_signature();
    let ghost views = spec_chunk_views(chunks@);
    let mut i: usize = 0;
    assert(out@ =~= spec_png_signature() + spec_chunks_bytes(views.subrange(0, 0)));
    while i < chunks.len()
        invariant
            i <= chunks.len(),
            views == spec_chunk_views(chunks@),
            out@ == spec_png_signature() + spec_chunks_bytes(views.subrange(0, i as int)),
        decreases chunks.len() - i,
    {
        let chunk = &chunks[i];
        let ghost before = out@;
        push_be_u32(&mut out, chunk.length);
        out.push(chunk.chunk_type[0]);
        out.push(chunk.chunk_type[1]);
        out.push(chunk.chunk_type[2]);
        out.push(chunk.chunk_type[3]);
        append_byte_range(&mut out, chunk.data.as_slice(), 0, chunk.data.len());
        push_be_u32(&mut out, chunk.crc);
        proof {
            let longer = views.subrange(0, i + 1);
            assert(longer.subrange(0, longer.len() - 1) =~= views.subrange(0, i as int));
            assert(longer[longer.len() - 1] == chunk@);
            assert(chunk.data@.subrange(0, chunk.data.len() as int) =~= chunk.data@);
            assert(out@ =~= before + spec_chunk_bytes(chunk@));
            assert(out@ =~= spec_png_signature() + spec_chunks_bytes(longer));
        }
        i += 1;
    }
    assert(views.subrange(0, chunks.len() as int) =~= views);
    out
}

/// The CRC-32 checksum of a sequence of bytes, in the form that PNG, zlib and
/// Ethernet use.
pub uninterp spec fn spec_crc32(bytes: Seq<u8>) -> u32;

/// `crc32fast::hash` computes the CRC-32 checksum of the bytes it is given.
#[verifier::external_body]
fn crc32(bytes: &[u8]) -> (crc: u32)
    ensures
        crc == spec_crc32(bytes@),
{
    crc32fast::hash(bytes)
}

/// The checksum that a chunk of the given type and data states.
pub open spec fn spec_chunk_crc(chunk_type: Seq<u8>, data: Seq<u8>) -> u32 {
    spec_crc32(chunk_type + data)
}

/// Computes the checksum of a chunk over its type and its data.
pub fn calculate_crc(chunk_type: &[u8; 4], data: &[u8]) -> (crc: u32)
    ensures
        crc == spec_chunk_crc(chunk_type@, data@),
{
    let mut buffer: Vec<u8> = Vec::new();
    buffer.push(chunk_type[0]);
    buffer.push(chunk_type[1]);
    buffer.push(chunk_type[2]);
    buffer.push(chunk_type[3]);
    append_byte_range(&mut buffer, data, 0, data.len());
    assert(data@.subrange(0, data.len() as int) =~= data@);
    assert(buffer@ =~= chunk_type@ + data@);
    crc32(buffer.as_slice())
}

/// Whether the data of a text chunk starts with the keyword of XMP and the
/// zero byte that ends a keyword.
pub open spec fn spec_is_xmp_itxt(data: Seq<u8>) -> bool {
    spec_has_bytes_at(data, 0, spec_xmp_keyword()) && data.len() > 17 && data[17] == 0
}

/// Whether the data of an international text chunk is an XMP packet.
pub fn is_xmp_itxt_chunk(chunk_data: &[u8]) -> (b: bool)
    ensures
        b == spec_is_xmp_itxt(chunk_data@),
{
    has_bytes_at(chunk_data, 0, &xmp_keyword()) && chunk_data.len() > 17 && chunk_data[17] == 0
}

/// The first index at or after `from` that holds a zero byte, or the length.
pub open spec fn spec_zero_from(data: Seq<u8>, from: int) -> int
    decreases data.len() - from,
{
    if from < 0 || from >= data.len() {
        data.len() as int
    } else if data[from] == 0 {
        from
    } else {
        spec_zero_from(data, from + 1)
    }
}

fn zero_from(data: &[u8], from: usize) -> (at: usize)
    requires
        from <= data.len(),
    ensures
        at as int == spec_zero_from(data@, from as int),
        from <= at <= data.len(),
{
    let mut i: usize = from;
    while i < data.len() && data[i] != 0
        invariant
            from <= i <= data.len(),
            spec_zero_from(data@, from as int) == spec_zero_from(data@, i as int),
        decreases data.len() - i,
    {
        i += 1;
    }
    i
}

/// Where the packet starts in the data of an XMP text chunk: after the
/// keyword and its zero byte, the two compression bytes, and the language
/// tag with its zero byte. `None` where one of these is missing.
pub open spec fn spec_itxt_xmp_start(data: Seq<u8>) -> Option<int> {
    if !spec_is_xmp_itxt(data) || data.len() < 20 || spec_zero_from(data, 20) >= data.len() {
        None
    } else {
        Some(spec_zero_from(data, 20) + 1)
    }
}

/// The bytes of the packet in the data of an XMP text chunk.
pub open spec fn spec_itxt_xmp_bytes(data: Seq<u8>) -> Option<Seq<u8>> {
    match spec_itxt_xmp_start(data) {
        Some(start) => Some(data.subrange(start, data.len() as int)),
        None => None,
    }
}

/// The bytes themselves, where they are valid UTF-8.
pub open spec fn spec_utf8_text(bytes: Option<Seq<u8>>) -> Option<Seq<u8>> {
    match bytes {
        Some(b) => if valid_utf8(b) {
            Some(b)
        } else {
            None
        },
        None => None,
    }
}

/// Reads the packet from the data of an international text chunk: the chunk
/// has the keyword of XMP, and the packet is valid UTF-8.
pub fn parse_itxt_xmp_chunk(chunk_data: &[u8]) -> (xmp: Option<String>)
    ensures
        xmp is Some == spec_utf8_text(spec_itxt_xmp_bytes(chunk_data@)) is Some,
        xmp is Some ==> encode_utf8(xmp->0@) == spec_itxt_xmp_bytes(chunk_data@)->0,
{
    if !is_xmp_itxt_chunk(chunk_data) || chunk_data.len() < 20 {
        return None;
    }
    let end = zero_from(chunk_data, 20);
    if end >= chunk_data.len() {
        return None;
    }
    string_from_utf8(copy_range(chunk_data, end + 1, chunk_data.len()))
}

/// The data of the text chunk that carries `packet`: the keyword, four zero
/// bytes (end of keyword, no compression, compression method, empty language
/// tag), then the packet.
pub open spec fn spec_itxt_xmp_data(packet: Seq<u8>) -> Seq<u8> {
    spec_xmp_keyword() + seq![0u8, 0u8, 0u8, 0u8] + packet
}

/// Builds the data of the international text chunk that carries an XMP
/// packet, uncompressed and without language tag.
pub fn create_itxt_xmp_chunk(xmp_data: &str) -> (chunk_data: Vec<u8>)
    ensures
        chunk_data@ == spec_itxt_xmp_data(encode_utf8(xmp_data@)),
{
    let mut chunk_data = xmp_keyword();
    chunk_data.push(0);
    chunk_data.push(0);
    chunk_data.push(0);
    chunk_data.push(0);
    let bytes = xmp_data.as_bytes();
    append_byte_range(&mut chunk_data, bytes, 0, bytes.len());
    assert(bytes@.subrange(0, bytes.len() as int) =~= bytes@);
    assert(chunk_data@ =~= spec_itxt_xmp_data(encode_utf8(xmp_data@)));
    chunk_data
}

/// The data of the chunk built for a packet holds that packet.
pub proof fn lemma_itxt_round_trip(packet: Seq<u8>)
    ensures
        spec_itxt_xmp_bytes(spec_itxt_xmp_data(packet)) == Some(packet),
{
    let data = spec_itxt_xmp_data(packet);
    let keyword = spec_xmp_keyword();
    assert(data.subrange(0, 17) =~= keyword);
    assert(data[17] == 0);
    assert(data[20] == 0);
    assert(spec_zero_from(data, 20) == 20);
    assert(data.subrange(21, data.len() as int) =~= packet);
}

/// Whether a chunk is an international text chunk that carries a readable
/// XMP packet.
pub open spec fn spec_carries_xmp(chunk: PngChunkView) -> bool {
    chunk.chunk_type == spec_itxt_tag() && spec_utf8_text(spec_itxt_xmp_bytes(chunk.data)) is Some
}

/// The index of the first chunk at or after `from` of which `wanted` holds, or
/// the number of chunks.
pub open spec fn spec_first_where(
    chunks: Seq<PngChunkView>,
    wanted: spec_fn(PngChunkView) -> bool,
    from: int,
) -> int
    decreases chunks.len() - from,
{
    if from < 0 || from >= chunks.len() {
        chunks.len() as int
    } else if wanted(chunks[from]) {
        from
    } else {
        spec_first_where(chunks, wanted, from + 1)
    }
}

/// What `spec_first_where` returns lies between `from` and the number of
/// chunks, `wanted` holds of the chunk there, and of none from `from` up to it.
pub proof fn lemma_first_where(
    chunks: Seq<PngChunkView>,
    wanted: spec_fn(PngChunkView) -> bool,
    from: int,
)
    requires
        0 <= from <= chunks.len(),
    ensures
        from <= spec_first_where(chunks, wanted, from) <= chunks.len(),
        spec_first_where(chunks, wanted, from) < chunks.len() ==> wanted(
            chunks[spec_first_where(chunks, wanted, from)],
        ),
        forall|i: int| from <= i < spec_first_where(chunks, wanted, from) ==> !wanted(chunks[i]),
    decreases chunks.len() - from,
{
    if from < chunks.len() && !wanted(chunks[from]) {
        lemma_first_where(chunks, wanted, from + 1);
    }
}

/// The index of the first chunk that carries a readable XMP packet, or the
/// number of chunks.
pub open spec fn spec_first_xmp_carrier(chunks: Seq<PngChunkView>) -> int {
    spec_first_where(chunks, |c: PngChunkView| spec_carries_xmp(c), 0)
}

/// The bytes of the XMP packet of a PNG file: those of the first chunk that
/// carries a readable one.
pub open spec fn spec_png_xmp_bytes(data: Seq<u8>) -> Option<Seq<u8>> {
    let chunks = spec_png_chunks(data).chunks;
    let at = spec_first_xmp_carrier(chunks);
    if spec_is_png(data) && at < chunks.len() {
        spec_itxt_xmp_bytes(chunks[at].data)
    } else {
        None
    }
}

/// Reads the XMP packet of a PNG file: the packet of the first international
/// text chunk that has the keyword of XMP and holds valid UTF-8. Chunks after
/// a point where the file is cut short are not seen.
pub fn extract_xmp_from_png(file_data: &[u8]) -> (xmp: Option<String>)
    ensures
        xmp is Some == spec_png_xmp_bytes(file_data@) is Some,
        xmp is Some ==> encode_utf8(xmp->0@) == spec_png_xmp_bytes(file_data@)->0,
        xmp is Some ==> valid_utf8(spec_png_xmp_bytes(file_data@)->0),
{
    if !is_png(file_data) {
        return None;
    }
    let (chunks, _complete) = read_chunks(file_data);
    let ghost views = spec_chunk_views(chunks@);
    let mut i: usize = 0;
    while i < chunks.len()
        invariant
            i <= chunks.len(),
            views == spec_chunk_views(chunks@),
            views == spec_png_chunks(file_data@).chunks,
            spec_is_png(file_data@),
            spec_first_xmp_carrier(views) == spec_first_where(
                views,
                |c: PngChunkView| spec_carries_xmp(c),
                i as int,
            ),
        decreases chunks.len() - i,
    {
        let chunk = &chunks[i];
        assert(views[i as int] == chunk@);
        if has_type(chunk, &vec![0x69u8, 0x54u8, 0x58u8, 0x74u8]) {
            let found = parse_itxt_xmp_chunk(chunk.data.as_slice());
            if found.is_some() {
                return found;
            }
        }
        i += 1;
    }
    None
}

} // verus!
