use image_meta::error::AppError;
use image_meta::format::detect_mime_type_from_path;
use image_meta::format::determine_file_extension;
use image_meta::format::get_dimensions;
use image_meta::format::parse_jpeg_dimensions;
use image_meta::format::parse_png_dimensions;
use image_meta::format::parse_webp_dimensions;
use image_meta::format::sniff_format;
use image_meta::format::Dimensions;
use image_meta::format::ImageFormat;

fn png_header(width: u32, height: u32) -> Vec<u8> {
    let mut data = vec![0x89, 0x50, 0x4E, 0x47, 0x0D, 0x0A, 0x1A, 0x0A, 0, 0, 0, 13];
    data.extend_from_slice(b"IHDR");
    data.extend_from_slice(&width.to_be_bytes());
    data.extend_from_slice(&height.to_be_bytes());
    data.extend_from_slice(&[8, 2, 0, 0, 0]);
    data
}

fn jpeg(width: u16, height: u16) -> Vec<u8> {
    let mut data = vec![0xFF, 0xD8, 0xFF, 0xE0, 0x00, 0x04, 0x4A, 0x46];
    data.extend_from_slice(&[0xFF, 0xC0, 0x00, 0x0B, 0x08]);
    data.extend_from_slice(&height.to_be_bytes());
    data.extend_from_slice(&width.to_be_bytes());
    data.extend_from_slice(&[0x03, 0x01, 0x11, 0x00, 0xFF, 0xD9]);
    data
}

fn webp(tag: &[u8; 4], rest: &[u8]) -> Vec<u8> {
    let mut data = Vec::new();
    data.extend_from_slice(b"RIFF");
    data.extend_from_slice(&[0, 0, 0, 0]);
    data.extend_from_slice(b"WEBP");
    data.extend_from_slice(tag);
    data.extend_from_slice(rest);
    data
}

#[test]
fn mime_type_follows_the_extension() {
    assert_eq!(detect_mime_type_from_path("a/b/c.png"), "image/png");
    assert_eq!(detect_mime_type_from_path("C.PNG"), "image/png");
    assert_eq!(detect_mime_type_from_path("photo.jpg"), "image/jpeg");
    assert_eq!(detect_mime_type_from_path("photo.JpEg"), "image/jpeg");
    assert_eq!(detect_mime_type_from_path("x.tar.webp"), "image/webp");
    assert_eq!(detect_mime_type_from_path("x.gif"), "application/octet-stream");
    assert_eq!(detect_mime_type_from_path("noextension"), "application/octet-stream");
    assert_eq!(detect_mime_type_from_path("png"), "image/png");
    assert_eq!(detect_mime_type_from_path("x.png."), "application/octet-stream");
    assert_eq!(detect_mime_type_from_path(""), "application/octet-stream");
}

#[test]
fn unknown_extension_is_read_as_jpeg() {
    assert_eq!(determine_file_extension("png"), ImageFormat::Png);
    assert_eq!(determine_file_extension("WEBP"), ImageFormat::WebP);
    assert_eq!(determine_file_extension("jpeg"), ImageFormat::Jpeg);
    assert_eq!(determine_file_extension("tiff"), ImageFormat::Jpeg);
}

#[test]
fn format_is_sniffed_from_the_first_bytes() {
    assert_eq!(sniff_format(&png_header(1, 1)), Some(ImageFormat::Png));
    assert_eq!(sniff_format(&jpeg(1, 1)), Some(ImageFormat::Jpeg));
    assert_eq!(sniff_format(&webp(b"VP8 ", &[0; 20])), Some(ImageFormat::WebP));
    assert_eq!(sniff_format(b"GIF89a"), None);
    assert_eq!(sniff_format(&[]), None);
    assert_eq!(sniff_format(&[0xFF]), None);
}

#[test]
fn png_dimensions_are_big_endian() {
    assert_eq!(
        parse_png_dimensions(&png_header(0x0102_0304, 7)),
        Ok(Dimensions { width: 0x0102_0304, height: 7 })
    );
    assert_eq!(
        parse_png_dimensions(&png_header(4_294_967_295, 1)),
        Ok(Dimensions { width: 4_294_967_295, height: 1 })
    );
}

#[test]
fn truncated_png_has_a_malformed_header() {
    let full = png_header(640, 480);
    for cut in 0..24 {
        assert_eq!(parse_png_dimensions(&full[..cut]), Err(AppError::MalformedHeader));
    }
    assert_eq!(
        parse_png_dimensions(&full[..24]),
        Ok(Dimensions { width: 640, height: 480 })
    );
    let mut wrong = full.clone();
    wrong[12] = b'i';
    assert_eq!(parse_png_dimensions(&wrong), Err(AppError::MalformedHeader));
    let mut wrong = full.clone();
    wrong[0] = 0x88;
    assert_eq!(parse_png_dimensions(&wrong), Err(AppError::MalformedHeader));
}

#[test]
fn jpeg_dimensions_come_from_the_frame_header() {
    assert_eq!(
        parse_jpeg_dimensions(&jpeg(800, 600)),
        Ok(Dimensions { width: 800, height: 600 })
    );
    assert_eq!(get_dimensions(&jpeg(3, 2), ImageFormat::Jpeg), Ok(Dimensions { width: 3, height: 2 }));
}

#[test]
fn jpeg_without_frame_header_has_no_segment() {
    let data = vec![0xFF, 0xD8, 0xFF, 0xE0, 0x00, 0x04, 0x4A, 0x46, 0xFF, 0xD9];
    assert_eq!(parse_jpeg_dimensions(&data), Err(AppError::SegmentNotFound));
    let full = jpeg(800, 600);
    for cut in 4..18 {
        assert_eq!(
            parse_jpeg_dimensions(&full[..cut]),
            Err(AppError::SegmentNotFound),
            "cut at {}",
            cut
        );
    }
    assert_eq!(parse_jpeg_dimensions(&full[..3]), Err(AppError::MalformedHeader));
    assert_eq!(parse_jpeg_dimensions(b"\x89PNG\r\n\x1a\n"), Err(AppError::MalformedHeader));
    let broken = vec![0xFF, 0xD8, 0x00, 0xE0, 0x00, 0x04, 0x4A, 0x46, 0xFF, 0xD9];
    assert_eq!(parse_jpeg_dimensions(&broken), Err(AppError::MalformedHeader));
    let overlong = vec![0xFF, 0xD8, 0xFF, 0xE0, 0xFF, 0xFF, 0x4A, 0x46, 0xFF, 0xD9];
    assert_eq!(parse_jpeg_dimensions(&overlong), Err(AppError::SegmentNotFound));
}

#[test]
fn webp_dimensions_by_variant() {
    let mut lossy = vec![0u8; 18];
    lossy[10] = 0x20;
    lossy[11] = 0x03;
    lossy[12] = 0x58;
    lossy[13] = 0xC2;
    assert_eq!(
        parse_webp_dimensions(&webp(b"VP8 ", &lossy)),
        Ok(Dimensions { width: 0x0320 + 1, height: 0x0258 + 1 })
    );

    let bits: u32 = (799) | (599 << 14);
    let mut lossless = vec![0u8; 5];
    lossless.extend_from_slice(&bits.to_le_bytes());
    assert_eq!(
        parse_webp_dimensions(&webp(b"VP8L", &lossless)),
        Ok(Dimensions { width: 800, height: 600 })
    );

    let mut extended = vec![0u8; 4];
    extended.extend_from_slice(&[0x1F, 0x03, 0x00]);
    extended.extend_from_slice(&[0x57, 0x02, 0x00]);
    assert_eq!(
        parse_webp_dimensions(&webp(b"VP8X", &extended)),
        Ok(Dimensions { width: 800, height: 600 })
    );
}

#[test]
fn webp_failures() {
    assert_eq!(
        parse_webp_dimensions(&webp(b"ALPH", &[0; 30])),
        Err(AppError::UnsupportedVariant)
    );
    assert_eq!(
        parse_webp_dimensions(&webp(b"VP8X", &[0; 9])),
        Err(AppError::UnsupportedVariant)
    );
    assert_eq!(
        parse_webp_dimensions(&webp(b"VP8X", &[0; 10])),
        Ok(Dimensions { width: 1, height: 1 })
    );
    assert_eq!(parse_webp_dimensions(b"RIFF\0\0\0\0WEBPVP8"), Err(AppError::MalformedHeader));
    assert_eq!(parse_webp_dimensions(b"RIFX\0\0\0\0WEBPVP8 abcdefgh"), Err(AppError::MalformedHeader));
    assert_eq!(
        AppError::UnsupportedVariant.description(),
        "Unsupported image variant"
    );
    assert_eq!(AppError::MalformedHeader.description(), "Malformed image header");
    assert_eq!(AppError::SegmentNotFound.description(), "Segment not found");
}
