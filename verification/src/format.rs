//! The three image formats, how a file is recognised as one of them, and how
//! width and height are read from its header without decoding any pixel.

use vstd::prelude::*;
use crate::bytes::has_bytes_at;
use crate::bytes::read_be_u16;
use crate::bytes::read_be_u32;
use crate::bytes::read_le_u16;
use crate::bytes::read_le_u24;
use crate::bytes::read_le_u32;
use crate::bytes::spec_be_u16;
use crate::bytes::spec_be_u32;
use crate::bytes::spec_has_bytes_at;
use crate::bytes::spec_le_u16;
use crate::bytes::spec_le_u24;
use crate::bytes::spec_le_u32;
use crate::error::AppError;
use crate::text::ascii_lowercase_range;
use crate::text::chars_equal;
use crate::text::chars_of;
use crate::text::spec_ascii_lowercase;

verus! {

/// A format that this library reads.
#[derive(Clone, Copy, Debug, PartialEq, Eq, Structural)]
pub enum ImageFormat {
    Png,
    Jpeg,
    WebP,
}

/// Width and height of an image, in pixels.
#[derive(Clone, Copy, Debug, PartialEq, Eq, Structural)]
pub struct Dimensions {
    pub width: u32,
    pub height: u32,
}

/// The eight bytes that every PNG file starts with.
pub open spec fn spec_png_signature() -> Seq<u8> {
    seq![0x89u8, 0x50u8, 0x4Eu8, 0x47u8, 0x0Du8, 0x0Au8, 0x1Au8, 0x0Au8]
}

/// The two bytes that every JPEG file starts with.
pub open spec fn spec_jpeg_soi() -> Seq<u8> {
    seq![0xFFu8, 0xD8u8]
}

/// `RIFF`
pub open spec fn spec_riff_tag() -> Seq<u8> {
    seq![0x52u8, 0x49u8, 0x46u8, 0x46u8]
}

/// `WEBP`
pub open spec fn spec_webp_tag() -> Seq<u8> {
    seq![0x57u8, 0x45u8, 0x42u8, 0x50u8]
}

/// `IHDR`
pub open spec fn spec_ihdr_tag() -> Seq<u8> {
    seq![0x49u8, 0x48u8, 0x44u8, 0x52u8]
}

/// `VP8 `
pub open spec fn spec_vp8_tag() -> Seq<u8> {
    seq![0x56u8, 0x50u8, 0x38u8, 0x20u8]
}

/// `VP8L`
pub open spec fn spec_vp8l_tag() -> Seq<u8> {
    seq![0x56u8, 0x50u8, 0x38u8, 0x4Cu8]
}

/// `VP8X`
pub open spec fn spec_vp8x_tag() -> Seq<u8> {
    seq![0x56u8, 0x50u8, 0x38u8, 0x58u8]
}

pub fn png_signature() -> (sig: Vec<u8>)
    ensures
        sig@ == spec_png_signature(),
{
    vec![0x89u8, 0x50u8, 0x4Eu8, 0x47u8, 0x0Du8, 0x0Au8, 0x1Au8, 0x0Au8]
}

/// Whether `data` starts as a PNG file does.
pub open spec fn spec_is_png(data: Seq<u8>) -> bool {
    spec_has_bytes_at(data, 0, spec_png_signature())
}

/// Whether `data` starts as a JPEG file does.
pub open spec fn spec_is_jpeg(data: Seq<u8>) -> bool {
    spec_has_bytes_at(data, 0, spec_jpeg_soi())
}

/// Whether `data` starts as a WebP file does.
pub open spec fn spec_is_webp(data: Seq<u8>) -> bool {
    spec_has_bytes_at(data, 0, spec_riff_tag()) && spec_has_bytes_at(data, 8, spec_webp_tag())
}

/// The format that the first bytes of `data` announce.
pub open spec fn spec_sniff_format(data: Seq<u8>) -> Option<ImageFormat> {
    if spec_is_png(data) {
        Some(ImageFormat::Png)
    } else if spec_is_jpeg(data) {
        Some(ImageFormat::Jpeg)
    } else if spec_is_webp(data) {
        Some(ImageFormat::WebP)
    } else {
        None
    }
}

pub fn is_png(data: &[u8]) -> (b: bool)
    ensures
        b == spec_is_png(data@),
{
    has_bytes_at(data, 0, &png_signature())
}

pub fn is_jpeg(data: &[u8]) -> (b: bool)
    ensures
        b == spec_is_jpeg(data@),
{
    has_bytes_at(data, 0, &vec![0xFFu8, 0xD8u8])
}

pub fn is_webp(data: &[u8]) -> (b: bool)
    ensures
        b == spec_is_webp(data@),
{
    has_bytes_at(data, 0, &vec![0x52u8, 0x49u8, 0x46u8, 0x46u8]) && has_bytes_at(
        data,
        8,
        &vec![0x57u8, 0x45u8, 0x42u8, 0x50u8],
    )
}

/// Recognises the format of a file by its first bytes.
pub fn sniff_format(data: &[u8]) -> (format: Option<ImageFormat>)
    ensures
        format == spec_sniff_format(data@),
{
    if is_png(data) {
        Some(ImageFormat::Png)
    } else if is_jpeg(data) {
        Some(ImageFormat::Jpeg)
    } else if is_webp(data) {
        Some(ImageFormat::WebP)
    } else {
        None
    }
}

/// The index of the last `c` in `s`, or -1.
pub open spec fn spec_last_index_of(s: Seq<char>, c: char) -> int
    decreases s.len(),
{
    if s.len() == 0 {
        -1
    } else if s[s.len() - 1] == c {
        s.len() - 1
    } else {
        spec_last_index_of(s.subrange(0, s.len() - 1), c)
    }
}

/// What follows the last dot of `path`, or all of `path` where it has no dot.
pub open spec fn spec_extension(path: Seq<char>) -> Seq<char> {
    path.subrange(spec_last_index_of(path, '.') + 1, path.len() as int)
}

/// The format that a file extension names, letters of either case.
pub open spec fn spec_format_of_extension(extension: Seq<char>) -> Option<ImageFormat> {
    let lower = spec_ascii_lowercase(extension);
    if lower == "png"@ {
        Some(ImageFormat::Png)
    } else if lower == "jpg"@ || lower == "jpeg"@ {
        Some(ImageFormat::Jpeg)
    } else if lower == "webp"@ {
        Some(ImageFormat::WebP)
    } else {
        None
    }
}

/// The MIME type of a format.
pub open spec fn spec_mime_type(format: Option<ImageFormat>) -> Seq<char> {
    match format {
        Some(ImageFormat::Png) => "image/png"@,
        Some(ImageFormat::Jpeg) => "image/jpeg"@,
        Some(ImageFormat::WebP) => "image/webp"@,
        None => "application/octet-stream"@,
    }
}

/// Where the extension of `path` starts.
fn extension_start(path: &Vec<char>) -> (start: usize)
    ensures
        start as int == spec_last_index_of(path@, '.') + 1,
        start <= path.len(),
{
    let mut i: usize = path.len();
    assert(path@.subrange(0, i as int) =~= path@);
    while i > 0 && path[i - 1] != '.'
        invariant
            i <= path.len(),
            spec_last_index_of(path@, '.') == spec_last_index_of(path@.subrange(0, i as int), '.'),
        decreases i,
    {
        assert(path@.subrange(0, i as int).subrange(0, i - 1) =~= path@.subrange(0, i - 1));
        i -= 1;
    }
    i
}

fn format_of_chars(chars: &Vec<char>, from: usize) -> (format: Option<ImageFormat>)
    requires
        from <= chars.len(),
    ensures
        format == spec_format_of_extension(chars@.subrange(from as int, chars.len() as int)),
{
    let lower = ascii_lowercase_range(chars, from, chars.len());
    if chars_equal(&lower, &chars_of("png")) {
        Some(ImageFormat::Png)
    } else if chars_equal(&lower, &chars_of("jpg")) || chars_equal(&lower, &chars_of("jpeg")) {
        Some(ImageFormat::Jpeg)
    } else if chars_equal(&lower, &chars_of("webp")) {
        Some(ImageFormat::WebP)
    } else {
        None
    }
}

/// The format that a file extension names, letters of either case:
/// `png`, `jpg` or `jpeg`, `webp`.
pub fn format_of_extension(extension: &str) -> (format: Option<ImageFormat>)
    ensures
        format == spec_format_of_extension(extension@),
{
    let chars = chars_of(extension);
    assert(chars@.subrange(0, chars.len() as int) =~= chars@);
    format_of_chars(&chars, 0)
}

/// The format that the extension of `path` names.
pub fn format_of_path(path: &str) -> (format: Option<ImageFormat>)
    ensures
        format == spec_format_of_extension(spec_extension(path@)),
{
    let chars = chars_of(path);
    let start = extension_start(&chars);
    format_of_chars(&chars, start)
}

/// The format under which the tags of a file with this extension are read:
/// the format that the extension names, and JPEG for any other extension.
pub fn determine_file_extension(extension: &str) -> (format: ImageFormat)
    ensures
        format == match spec_format_of_extension(extension@) {
            Some(f) => f,
            None => ImageFormat::Jpeg,
        },
{
    match format_of_extension(extension) {
        Some(f) => f,
        None => ImageFormat::Jpeg,
    }
}

/// The MIME type of a format, and `application/octet-stream` for none.
pub fn mime_type_of(format: Option<ImageFormat>) -> (mime: String)
    ensures
        mime@ == spec_mime_type(format),
{
    match format {
        Some(ImageFormat::Png) => "image/png".to_string(),
        Some(ImageFormat::Jpeg) => "image/jpeg".to_string(),
        Some(ImageFormat::WebP) => "image/webp".to_string(),
        None => "application/octet-stream".to_string(),
    }
}

/// The MIME type that the extension of `path` stands for: what follows the
/// last dot, letters of either case.
pub fn detect_mime_type_from_path(path: &str) -> (mime: String)
    ensures
        mime@ == spec_mime_type(spec_format_of_extension(spec_extension(path@))),
{
    mime_type_of(format_of_path(path))
}

/// Width and height as the header of a PNG file states them: the file starts
/// with the signature, its first chunk is `IHDR`, and the two numbers are the
/// first eight bytes of that chunk's data.
pub open spec fn spec_png_dimensions(data: Seq<u8>) -> Result<Dimensions, AppError> {
    if data.len() < 24 || !spec_is_png(data) || !spec_has_bytes_at(data, 12, spec_ihdr_tag()) {
        Err(AppError::MalformedHeader)
    } else {
        Ok(
            Dimensions {
                width: spec_be_u32(data, 16) as u32,
                height: spec_be_u32(data, 20) as u32,
            },
        )
    }
}

pub fn parse_png_dimensions(data: &[u8]) -> (r: Result<Dimensions, AppError>)
    ensures
        r == spec_png_dimensions(data@),
{
    if data.len() < 24 || !is_png(data) {
        return Err(AppError::MalformedHeader);
    }
    if !has_bytes_at(data, 12, &vec![0x49u8, 0x48u8, 0x44u8, 0x52u8]) {
        return Err(AppError::MalformedHeader);
    }
    Ok(Dimensions { width: read_be_u32(data, 16), height: read_be_u32(data, 20) })
}

/// Whether a marker byte announces a frame header of the kinds read here.
pub open spec fn spec_is_sof_marker(marker: u8) -> bool {
    marker == 0xC0 || marker == 0xC1 || marker == 0xC2
}

/// The walk over the segments of a JPEG file from `pos` on. At each step at
/// least five bytes must be left. The byte at `pos` must be 0xFF. A frame
/// header with at least ten bytes left gives height and width; any other
/// segment is skipped by its length, which must not lead past the end.
pub open spec fn spec_jpeg_scan(data: Seq<u8>, pos: int) -> Result<Dimensions, AppError>
    decreases data.len() - pos,
{
    if pos < 0 || pos + 4 >= data.len() {
        Err(AppError::SegmentNotFound)
    } else if data[pos] != 0xFF {
        Err(AppError::MalformedHeader)
    } else if spec_is_sof_marker(data[pos + 1]) && pos + 9 < data.len() {
        Ok(
            Dimensions {
                width: spec_be_u16(data, pos + 7) as u32,
                height: spec_be_u16(data, pos + 5) as u32,
            },
        )
    } else if pos + 2 + spec_be_u16(data, pos + 2) > data.len() {
        Err(AppError::SegmentNotFound)
    } else {
        spec_jpeg_scan(data, pos + 2 + spec_be_u16(data, pos + 2))
    }
}

/// Width and height as the first frame header of a JPEG file states them.
pub open spec fn spec_jpeg_dimensions(data: Seq<u8>) -> Result<Dimensions, AppError> {
    if data.len() < 4 || !spec_is_jpeg(data) {
        Err(AppError::MalformedHeader)
    } else {
        spec_jpeg_scan(data, 2)
    }
}

pub fn parse_jpeg_dimensions(data: &[u8]) -> (r: Result<Dimensions, AppError>)
    ensures
        r == spec_jpeg_dimensions(data@),
{
    if data.len() < 4 || !is_jpeg(data) {
        return Err(AppError::MalformedHeader);
    }
    let len: usize = data.len();
    let mut pos: usize = 2;
    while len - pos > 4
        invariant
            2 <= pos <= len,
            len == data.len(),
            spec_jpeg_dimensions(data@) == spec_jpeg_scan(data@, pos as int),
        decreases len - pos,
    {
        if data[pos] != 0xFF {
            return Err(AppError::MalformedHeader);
        }
        let marker = data[pos + 1];
        if (marker == 0xC0 || marker == 0xC1 || marker == 0xC2) && len - pos > 9 {
            let height = read_be_u16(data, pos + 5);
            let width = read_be_u16(data, pos + 7);
            return Ok(Dimensions { width: width as u32, height: height as u32 });
        }
        let step: usize = 2 + read_be_u16(data, pos + 2) as usize;
        if step > len - pos {
            return Err(AppError::SegmentNotFound);
        }
        pos += step;
    }
    Err(AppError::SegmentNotFound)
}

/// Width and height as the header of a WebP file states them. A lossy file
/// holds each as 14 bits, a lossless file as 14 bits less one, an extended
/// file as 24 bits less one.
pub open spec fn spec_webp_dimensions(data: Seq<u8>) -> Result<Dimensions, AppError> {
    if data.len() < 20 || !spec_is_webp(data) {
        Err(AppError::MalformedHeader)
    } else if data.len() >= 30 && spec_has_bytes_at(data, 12, spec_vp8_tag()) {
        Ok(
            Dimensions {
                width: (spec_le_u16(data, 26) % 16384 + 1) as u32,
                height: (spec_le_u16(data, 28) % 16384 + 1) as u32,
            },
        )
    } else if data.len() >= 25 && spec_has_bytes_at(data, 12, spec_vp8l_tag()) {
        Ok(
            Dimensions {
                width: (spec_le_u32(data, 21) % 16384 + 1) as u32,
                height: ((spec_le_u32(data, 21) / 16384) % 16384 + 1) as u32,
            },
        )
    } else if data.len() >= 26 && spec_has_bytes_at(data, 12, spec_vp8x_tag()) {
        Ok(
            Dimensions {
                width: (spec_le_u24(data, 20) + 1) as u32,
                height: (spec_le_u24(data, 23) + 1) as u32,
            },
        )
    } else {
        Err(AppError::UnsupportedVariant)
    }
}

pub fn parse_webp_dimensions(data: &[u8]) -> (r: Result<Dimensions, AppError>)
    ensures
        r == spec_webp_dimensions(data@),
{
    if data.len() < 20 || !is_webp(data) {
        return Err(AppError::MalformedHeader);
    }
    if data.len() >= 30 && has_bytes_at(data, 12, &vec![0x56u8, 0x50u8, 0x38u8, 0x20u8]) {
        let width: u32 = (read_le_u16(data, 26) % 16384) as u32 + 1;
        let height: u32 = (read_le_u16(data, 28) % 16384) as u32 + 1;
        Ok(Dimensions { width, height })
    } else if data.len() >= 25 && has_bytes_at(data, 12, &vec![0x56u8, 0x50u8, 0x38u8, 0x4Cu8]) {
        let bits: u32 = read_le_u32(data, 21);
        let width: u32 = bits % 16384 + 1;
        let height: u32 = (bits / 16384) % 16384 + 1;
        Ok(Dimensions { width, height })
    } else if data.len() >= 26 && has_bytes_at(data, 12, &vec![0x56u8, 0x50u8, 0x38u8, 0x58u8]) {
        let width: u32 = read_le_u24(data, 20) + 1;
        let height: u32 = read_le_u24(data, 23) + 1;
        Ok(Dimensions { width, height })
    } else {
        Err(AppError::UnsupportedVariant)
    }
}

/// Width and height of `data` read as a file of the given format.
pub open spec fn spec_dimensions(data: Seq<u8>, format: ImageFormat) -> Result<
    Dimensions,
    AppError,
> {
    match format {
        ImageFormat::Png => spec_png_dimensions(data),
        ImageFormat::Jpeg => spec_jpeg_dimensions(data),
        ImageFormat::WebP => spec_webp_dimensions(data),
    }
}

/// Reads width and height from the header of a file of the given format.
pub fn get_dimensions(data: &[u8], format: ImageFormat) -> (r: Result<Dimensions, AppError>)
    ensures
        r == spec_dimensions(data@, format),
{
    match format {
        ImageFormat::Png => parse_png_dimensions(data),
        ImageFormat::Jpeg => parse_jpeg_dimensions(data),
        ImageFormat::WebP => parse_webp_dimensions(data),
    }
}

/// A PNG file that is cut short inside its first chunk has no dimensions: the
/// reader reports a malformed header.
pub proof fn lemma_truncated_png_is_malformed(data: Seq<u8>)
    requires
        data.len() < 24,
    ensures
        spec_png_dimensions(data) == Err::<Dimensions, AppError>(AppError::MalformedHeader),
{
}

proof fn lemma_jpeg_scan_errors(data: Seq<u8>, pos: int)
    ensures
        match spec_jpeg_scan(data, pos) {
            Ok(_) => true,
            Err(e) => e == AppError::MalformedHeader || e == AppError::SegmentNotFound,
        },
    decreases data.len() - pos,
{
    if pos >= 0 && pos + 4 < data.len() && data[pos] == 0xFF && !(spec_is_sof_marker(data[pos + 1])
        && pos + 9 < data.len()) && pos + 2 + spec_be_u16(data, pos + 2) <= data.len() {
        lemma_jpeg_scan_errors(data, pos + 2 + spec_be_u16(data, pos + 2));
    }
}

/// Whatever the bytes, the size of an image is read or one of three errors is
/// reported: a malformed header, a segment that is not found, or a variant
/// that is not supported. For a PNG file the error is a malformed header.
pub proof fn lemma_dimension_errors(data: Seq<u8>, format: ImageFormat)
    ensures
        match spec_dimensions(data, format) {
            Ok(_) => true,
            Err(e) => if format == ImageFormat::Png {
                e == AppError::MalformedHeader
            } else {
                e == AppError::MalformedHeader || e == AppError::SegmentNotFound || e
                    == AppError::UnsupportedVariant
            },
        },
{
    lemma_jpeg_scan_errors(data, 2);
}

} // verus!
