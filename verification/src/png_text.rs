//! What a PNG file states beside its pixels: the header values of `IHDR` and
//! the generation parameters of the text chunk `parameters`.

use vstd::prelude::*;
use crate::bytes::has_bytes_at;
use crate::bytes::read_be_u32;
use crate::bytes::spec_be_u32;
use crate::bytes::spec_has_bytes_at;
use crate::error::AppError;
use crate::format::is_png;
use crate::format::spec_ihdr_tag;
use crate::format::spec_is_png;
use crate::png::has_type;
use crate::png::read_chunks;
use crate::png::spec_chunk_views;
use crate::png::spec_first_where;
use crate::png::spec_png_chunks;
use crate::png::spec_text_tag;
use crate::png::PngChunk;
use crate::png::PngChunkView;
use crate::png_xmp::lemma_embed_keeps_first_where;
use crate::png_xmp::lemma_embed_then_read;
use crate::png_xmp::spec_embed_xmp_in_png;
use crate::png_xmp::spec_is_xmp_chunk;
use crate::sd_parameters::spec_parse;
use crate::sd_parameters::SdParameters;
use crate::sd_parameters::SdParametersView;
use crate::text::string_of;

verus! {

/// The keyword `parameters` under which a text chunk carries generation
/// parameters.
pub open spec fn spec_parameters_keyword() -> Seq<u8> {
    seq![0x70u8, 0x61u8, 0x72u8, 0x61u8, 0x6Du8, 0x65u8, 0x74u8, 0x65u8, 0x72u8, 0x73u8]
}

/// The characters that bytes stand for in Latin-1: each byte is the
/// character of the same number.
pub open spec fn spec_latin1(bytes: Seq<u8>) -> Seq<char> {
    Seq::new(bytes.len(), |i: int| bytes[i] as char)
}

/// Whether a chunk is a text chunk with the keyword `parameters`.
pub open spec fn spec_is_parameters_chunk(chunk: PngChunkView) -> bool {
    chunk.chunk_type == spec_text_tag() && spec_has_bytes_at(
        chunk.data,
        0,
        spec_parameters_keyword(),
    ) && chunk.data.len() > 10 && chunk.data[10] == 0
}

/// The text of a chunk with the keyword `parameters`: what follows the zero
/// byte after the keyword.
pub open spec fn spec_parameters_text(chunk: PngChunkView) -> Seq<char> {
    spec_latin1(chunk.data.subrange(11, chunk.data.len() as int))
}

/// Whether a chunk carries generation parameters that can be parsed.
pub open spec fn spec_carries_parameters(chunk: PngChunkView) -> bool {
    spec_is_parameters_chunk(chunk) && spec_parse(spec_parameters_text(chunk)) is Ok
}

/// The index of the first chunk that carries generation parameters that can
/// be parsed, or the number of chunks.
pub open spec fn spec_first_parameters_from(chunks: Seq<PngChunkView>, from: int) -> int {
    spec_first_where(chunks, |c: PngChunkView| spec_carries_parameters(c), from)
}

/// The generation parameters of a list of chunks: those of the first text
/// chunk with the keyword `parameters` whose text can be parsed.
pub open spec fn spec_chunks_parameters(chunks: Seq<PngChunkView>) -> Option<SdParametersView> {
    let at = spec_first_parameters_from(chunks, 0);
    if at < chunks.len() {
        Some(spec_parse(spec_parameters_text(chunks[at]))->Ok_0)
    } else {
        None
    }
}

/// The generation parameters of a PNG file. A file without the signature of
/// PNG has a malformed header.
pub open spec fn spec_extract_sd_parameters(data: Seq<u8>) -> Result<
    Option<SdParametersView>,
    AppError,
> {
    if !spec_is_png(data) {
        Err(AppError::MalformedHeader)
    } else {
        Ok(spec_chunks_parameters(spec_png_chunks(data).chunks))
    }
}

fn latin1_text(data: &Vec<u8>, from: usize) -> (text: String)
    requires
        from <= data.len(),
    ensures
        text@ == spec_latin1(data@.subrange(from as int, data.len() as int)),
{
    let mut chars: Vec<char> = Vec::new();
    let mut i: usize = from;
    while i < data.len()
        invariant
            from <= i <= data.len(),
            chars@ == spec_latin1(data@.subrange(from as int, i as int)),
        decreases data.len() - i,
    {
        chars.push(data[i] as char);
        assert(chars@ =~= spec_latin1(data@.subrange(from as int, i + 1)));
        i += 1;
    }
    string_of(&chars)
}

fn is_parameters_chunk(chunk: &PngChunk) -> (b: bool)
    ensures
        b == spec_is_parameters_chunk(chunk@),
{
    has_type(chunk, &vec![0x74u8, 0x45u8, 0x58u8, 0x74u8]) && has_bytes_at(
        chunk.data.as_slice(),
        0,
        &vec![0x70u8, 0x61u8, 0x72u8, 0x61u8, 0x6Du8, 0x65u8, 0x74u8, 0x65u8, 0x72u8, 0x73u8],
    ) && chunk.data.len() > 10 && chunk.data[10] == 0
}

fn chunks_parameters(chunks: &Vec<PngChunk>) -> (r: Option<SdParameters>)
    ensures
        r is Some == spec_chunks_parameters(spec_chunk_views(chunks@)) is Some,
        r is Some ==> r->0@ == spec_chunks_parameters(spec_chunk_views(chunks@))->0,
{
    let ghost views = spec_chunk_views(chunks@);
    let mut i: usize = 0;
    while i < chunks.len()
        invariant
            i <= chunks.len(),
            views == spec_chunk_views(chunks@),
            spec_first_parameters_from(views, 0) == spec_first_parameters_from(views, i as int),
        decreases chunks.len() - i,
    {
        let chunk = &chunks[i];
        assert(views[i as int] == chunk@);
        if is_parameters_chunk(chunk) {
            let text = latin1_text(&chunk.data, 11);
            match SdParameters::parse(text.as_str()) {
                Ok(parameters) => {
                    return Some(parameters);
                },
                Err(_) => {},
            }
        }
        i += 1;
    }
    None
}

/// Reads the generation parameters of a PNG file: those of the first text
/// chunk with the keyword `parameters` whose text can be parsed. A text that
/// cannot be parsed is passed over, and a file without such a chunk has none.
pub fn extract_sd_parameters(data: &[u8]) -> (r: Result<Option<SdParameters>, AppError>)
    ensures
        r is Ok == spec_extract_sd_parameters(data@) is Ok,
        r is Err ==> r->Err_0 == spec_extract_sd_parameters(data@)->Err_0,
        r is Ok ==> (r->Ok_0 is Some) == (spec_extract_sd_parameters(data@)->Ok_0 is Some),
        r is Ok && r->Ok_0 is Some ==> r->Ok_0->0@ == spec_extract_sd_parameters(data@)->Ok_0->0,
{
    if !is_png(data) {
        return Err(AppError::MalformedHeader);
    }
    let (chunks, _complete) = read_chunks(data);
    Ok(chunks_parameters(&chunks))
}

/// Reads the generation parameters of a PNG file, and none from a file that
/// is no PNG file.
pub fn read_png_sd_parameters_from_bytes(data: &[u8]) -> (r: Option<SdParameters>)
    ensures
        r is Some == (spec_extract_sd_parameters(data@) is Ok && spec_extract_sd_parameters(
            data@,
        )->Ok_0 is Some),
        r is Some ==> r->0@ == spec_extract_sd_parameters(data@)->Ok_0->0,
{
    match extract_sd_parameters(data) {
        Ok(parameters) => parameters,
        Err(_) => None,
    }
}

/// Writing an XMP packet into a PNG file leaves its generation parameters as
/// they were: the text chunk that carries them is read back unchanged.
pub proof fn lemma_embed_keeps_parameters(data: Seq<u8>, packet: Seq<u8>)
    requires
        spec_embed_xmp_in_png(data, packet) is Ok,
    ensures
        spec_extract_sd_parameters(spec_embed_xmp_in_png(data, packet)->Ok_0)
            == spec_extract_sd_parameters(data),
{
    let chunks = spec_png_chunks(data).chunks;
    let wanted = |c: PngChunkView| spec_carries_parameters(c);
    lemma_embed_then_read(data, packet);
    assert forall|c: PngChunkView| spec_is_xmp_chunk(c) implies !#[trigger] wanted(c) by {
        assert(crate::png::spec_itxt_tag()[0] != spec_text_tag()[0]);
    }
    lemma_embed_keeps_first_where(chunks, packet, wanted);
}

/// The first values of the header of a PNG file.
#[derive(Clone, Debug, PartialEq, Eq)]
pub struct PngInfo {
    pub width: u32,
    pub height: u32,
    pub bit_depth: u8,
    /// The name of the colour type.
    pub color_type: String,
}

/// What a `PngInfo` holds, as plain values.
pub struct PngInfoView {
    pub width: u32,
    pub height: u32,
    pub bit_depth: u8,
    pub color_type: Seq<char>,
}

impl View for PngInfo {
    type V = PngInfoView;

    open spec fn view(&self) -> PngInfoView {
        PngInfoView {
            width: self.width,
            height: self.height,
            bit_depth: self.bit_depth,
            color_type: self.color_type@,
        }
    }
}

/// The name of a colour type, for the five numbers that PNG defines.
pub open spec fn spec_color_type_name(color_type: u8) -> Option<Seq<char>> {
    if color_type == 0 {
        Some("Grayscale"@)
    } else if color_type == 2 {
        Some("Rgb"@)
    } else if color_type == 3 {
        Some("Indexed"@)
    } else if color_type == 4 {
        Some("GrayscaleAlpha"@)
    } else if color_type == 6 {
        Some("Rgba"@)
    } else {
        None
    }
}

/// Whether a bit depth is one that PNG defines.
pub open spec fn spec_is_bit_depth(bit_depth: u8) -> bool {
    bit_depth == 1 || bit_depth == 2 || bit_depth == 4 || bit_depth == 8 || bit_depth == 16
}

/// The header values of a PNG file: the file starts with the signature, its
/// first chunk is `IHDR`, and bit depth and colour type are among those that
/// PNG defines.
pub open spec fn spec_png_info(data: Seq<u8>) -> Result<PngInfoView, AppError> {
    if data.len() < 26 || !spec_is_png(data) || !spec_has_bytes_at(data, 12, spec_ihdr_tag())
        || !spec_is_bit_depth(data[24]) || spec_color_type_name(data[25]) is None {
        Err(AppError::MalformedHeader)
    } else {
        Ok(
            PngInfoView {
                width: spec_be_u32(data, 16) as u32,
                height: spec_be_u32(data, 20) as u32,
                bit_depth: data[24],
                color_type: spec_color_type_name(data[25])->0,
            },
        )
    }
}

fn color_type_name(color_type: u8) -> (name: Option<String>)
    ensures
        crate::exif::spec_text_of(name) == spec_color_type_name(color_type),
{
    if color_type == 0 {
        Some("Grayscale".to_string())
    } else if color_type == 2 {
        Some("Rgb".to_string())
    } else if color_type == 3 {
        Some("Indexed".to_string())
    } else if color_type == 4 {
        Some("GrayscaleAlpha".to_string())
    } else if color_type == 6 {
        Some("Rgba".to_string())
    } else {
        None
    }
}

/// Reads the header values of a PNG file.
pub fn read_png_info(data: &[u8]) -> (r: Result<PngInfo, AppError>)
    ensures
        r is Ok == spec_png_info(data@) is Ok,
        r is Ok ==> r->Ok_0@ == spec_png_info(data@)->Ok_0,
        r is Err ==> r->Err_0 == AppError::MalformedHeader,
{
    if data.len() < 26 || !is_png(data) {
        return Err(AppError::MalformedHeader);
    }
    if !has_bytes_at(data, 12, &vec![0x49u8, 0x48u8, 0x44u8, 0x52u8]) {
        return Err(AppError::MalformedHeader);
    }
    let bit_depth = data[24];
    if !(bit_depth == 1 || bit_depth == 2 || bit_depth == 4 || bit_depth == 8 || bit_depth == 16) {
        return Err(AppError::MalformedHeader);
    }
    match color_type_name(data[25]) {
        Some(color_type) => Ok(
            PngInfo {
                width: read_be_u32(data, 16),
                height: read_be_u32(data, 20),
                bit_depth,
                color_type,
            },
        ),
        None => Err(AppError::MalformedHeader),
    }
}

/// Reader of PNG files.
pub struct PngProcessor;

impl PngProcessor {
    /// Reads the generation parameters of a PNG file.
    pub fn extract_sd_parameters(data: &[u8]) -> (r: Result<Option<SdParameters>, AppError>)
        ensures
            r is Ok == spec_extract_sd_parameters(data@) is Ok,
            r is Err ==> r->Err_0 == spec_extract_sd_parameters(data@)->Err_0,
            r is Ok ==> (r->Ok_0 is Some) == (spec_extract_sd_parameters(data@)->Ok_0 is Some),
            r is Ok && r->Ok_0 is Some ==> r->Ok_0->0@ == spec_extract_sd_parameters(
                data@,
            )->Ok_0->0,
    {
        extract_sd_parameters(data)
    }

    /// Reads the header values and the generation parameters of a PNG file
    /// in one pass.
    pub fn extract_comprehensive_info(data: &[u8]) -> (r: Result<
        (PngInfo, Option<SdParameters>),
        AppError,
    >)
        ensures
            r is Ok == spec_png_info(data@) is Ok,
            r is Err ==> r->Err_0 == AppError::MalformedHeader,
            match r {
                Ok(found) => found.0@ == spec_png_info(data@)->Ok_0 && (found.1 is Some) == (
                spec_extract_sd_parameters(data@)->Ok_0 is Some) && (found.1 is Some ==> found.1->0@
                    == spec_extract_sd_parameters(data@)->Ok_0->0),
                Err(_) => true,
            },
    {
        let info = match read_png_info(data) {
            Ok(info) => info,
            Err(e) => {
                return Err(e);
            },
        };
        let parameters = read_png_sd_parameters_from_bytes(data);
        Ok((info, parameters))
    }
}

} // verus!
