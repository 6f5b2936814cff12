use image_meta::error::AppError;
use image_meta::error::InvalidInput;
use image_meta::jpeg::embed_xmp_in_jpeg_vec;
use image_meta::jpeg::extract_xmp_from_jpeg;
use image_meta::png::calculate_crc;
use image_meta::png::create_itxt_xmp_chunk;
use image_meta::png::extract_xmp_from_png;
use image_meta::png::is_xmp_itxt_chunk;
use image_meta::png::parse_itxt_xmp_chunk;
use image_meta::png::parse_png_chunks;
use image_meta::png::read_chunks;
use image_meta::png::rebuild_png_from_chunks;
use image_meta::png::PngChunk;
use image_meta::png_text::extract_sd_parameters;
use image_meta::png_text::read_png_info;
use image_meta::png_text::read_png_sd_parameters_from_bytes;
use image_meta::png_text::PngProcessor;
use image_meta::png_xmp::embed_xmp_in_png_chunks;
use image_meta::xmp_engine::embed_xmp_packet;
use image_meta::xmp_engine::write_xmp_image_rating;

const SIGNATURE: [u8; 8] = [0x89, 0x50, 0x4E, 0x47, 0x0D, 0x0A, 0x1A, 0x0A];

fn bytes_of_chunk(chunk_type: &[u8; 4], data: &[u8]) -> Vec<u8> {
    let mut out = Vec::new();
    out.extend_from_slice(&(data.len() as u32).to_be_bytes());
    out.extend_from_slice(chunk_type);
    out.extend_from_slice(data);
    let mut hasher = crc32fast::Hasher::new();
    hasher.update(chunk_type);
    hasher.update(data);
    out.extend_from_slice(&hasher.finalize().to_be_bytes());
    out
}

fn png_of(chunks: &[(&[u8; 4], Vec<u8>)]) -> Vec<u8> {
    let mut out = SIGNATURE.to_vec();
    for (chunk_type, data) in chunks {
        out.extend_from_slice(&bytes_of_chunk(chunk_type, data));
    }
    out
}

fn ihdr() -> Vec<u8> {
    vec![0, 0, 0, 1, 0, 0, 0, 1, 8, 2, 0, 0, 0]
}

fn idat() -> Vec<u8> {
    vec![0x78, 0xDA, 0x63, 0xF8, 0xCF, 0xC0, 0x00, 0x00, 0x03, 0x01, 0x01, 0x00]
}

fn parameters_text() -> String {
    "masterpiece, (best quality:1.2)\nNegative prompt: lowres\nSteps: 20, Sampler: Euler a, Seed: 42"
        .to_string()
}

fn text_chunk(keyword: &str, text: &str) -> Vec<u8> {
    let mut data = keyword.as_bytes().to_vec();
    data.push(0);
    data.extend_from_slice(text.as_bytes());
    data
}

fn png_with_parameters() -> Vec<u8> {
    png_of(&[
        (b"IHDR", ihdr()),
        (b"tEXt", text_chunk("parameters", &parameters_text())),
        (b"vnDr", vec![1, 2, 3, 4, 5]),
        (b"IDAT", idat()),
        (b"IEND", vec![]),
    ])
}

#[test]
fn checksum_is_crc32_over_type_and_data() {
    assert_eq!(calculate_crc(b"IEND", &[]), 0xAE42_6082);
    assert_eq!(calculate_crc(b"tEXt", b"parameters\0abc"), 0xAAFC_1294);
    assert_eq!(calculate_crc(b"1234", b"56789"), 0xCBF4_3926);
}

#[test]
fn chunks_are_read_in_order_up_to_iend() {
    let mut data = png_with_parameters();
    data.extend_from_slice(b"trailing bytes");
    let chunks = parse_png_chunks(&data).unwrap();
    let types: Vec<&[u8; 4]> = chunks.iter().map(|c| &c.chunk_type).collect();
    assert_eq!(types, vec![b"IHDR", b"tEXt", b"vnDr", b"IDAT", b"IEND"]);
    assert_eq!(chunks[2].data, vec![1, 2, 3, 4, 5]);
    assert_eq!(chunks[2].length, 5);
    assert_eq!(chunks[4].crc, 0xAE42_6082);
}

#[test]
fn rebuilding_gives_back_the_file() {
    let data = png_with_parameters();
    let chunks = parse_png_chunks(&data).unwrap();
    assert_eq!(rebuild_png_from_chunks(&chunks), data);
    let wrong_crc = PngChunk { length: 1, chunk_type: *b"abCd", data: vec![9], crc: 0x0102_0304 };
    assert_eq!(
        rebuild_png_from_chunks(&vec![wrong_crc]),
        vec![
            0x89, 0x50, 0x4E, 0x47, 0x0D, 0x0A, 0x1A, 0x0A, 0, 0, 0, 1, b'a', b'b', b'C', b'd', 9,
            1, 2, 3, 4
        ]
    );
}

#[test]
fn truncated_file_is_malformed() {
    let data = png_with_parameters();
    for cut in [0, 7, 13, 20, 40, data.len() - 1, data.len() - 5] {
        assert_eq!(
            parse_png_chunks(&data[..cut]),
            Err(AppError::MalformedHeader),
            "cut at {}",
            cut
        );
    }
    assert_eq!(parse_png_chunks(&data[..20]), Err(AppError::MalformedHeader));
    assert_eq!(parse_png_chunks(b"not a png file at all"), Err(AppError::MalformedHeader));
    let (chunks, complete) = read_chunks(&data[..data.len() - 1]);
    assert_eq!(chunks.len(), 4);
    assert!(!complete);
    assert!(parse_png_chunks(&data[..33]).unwrap().len() == 1);
}

#[test]
fn xmp_chunk_data_layout() {
    let data = create_itxt_xmp_chunk("<x/>");
    assert_eq!(data, b"XML:com.adobe.xmp\0\0\0\0<x/>".to_vec());
    assert!(is_xmp_itxt_chunk(&data));
    assert_eq!(parse_itxt_xmp_chunk(&data), Some("<x/>".to_string()));
    assert_eq!(
        parse_itxt_xmp_chunk(b"XML:com.adobe.xmp\0\0\0en-US\0<y/>"),
        Some("<y/>".to_string())
    );
    assert_eq!(parse_itxt_xmp_chunk(b"XML:com.adobe.xmp\0\0\0en-US"), None);
    assert_eq!(parse_itxt_xmp_chunk(b"XML:com.adobe.xmp\0\0"), None);
    assert_eq!(parse_itxt_xmp_chunk(b"XML:com.adobe.xmpX\0\0\0\0<y/>"), None);
    assert_eq!(parse_itxt_xmp_chunk(b"XML:com.adobe.xmp\0\0\0\0\xFF\xFE"), None);
    assert_eq!(parse_itxt_xmp_chunk(b""), None);
    assert!(!is_xmp_itxt_chunk(b"XML:com.adobe.xmp"));
    assert!(!is_xmp_itxt_chunk(b"Title\0abc"));
    assert!(is_xmp_itxt_chunk(b"XML:com.adobe.xmp\0"));
}

#[test]
fn packet_is_added_before_iend() {
    let data = png_with_parameters();
    let out = embed_xmp_in_png_chunks(&data, "<packet one/>").unwrap();
    let chunks = parse_png_chunks(&out).unwrap();
    let types: Vec<&[u8; 4]> = chunks.iter().map(|c| &c.chunk_type).collect();
    assert_eq!(types, vec![b"IHDR", b"tEXt", b"vnDr", b"IDAT", b"iTXt", b"IEND"]);
    assert_eq!(chunks[4].data, b"XML:com.adobe.xmp\0\0\0\0<packet one/>".to_vec());
    assert_eq!(chunks[4].length as usize, chunks[4].data.len());
    assert_eq!(chunks[4].crc, calculate_crc(b"iTXt", &chunks[4].data));
    assert_eq!(extract_xmp_from_png(&out), Some("<packet one/>".to_string()));
}

#[test]
fn packet_is_replaced_in_place() {
    let data = png_of(&[
        (b"IHDR", ihdr()),
        (b"iTXt", b"XML:com.adobe.xmp\0\0\0\0<old/>".to_vec()),
        (b"tEXt", text_chunk("parameters", &parameters_text())),
        (b"IDAT", idat()),
        (b"IEND", vec![]),
    ]);
    let out = embed_xmp_in_png_chunks(&data, "<new packet/>").unwrap();
    let before = parse_png_chunks(&data).unwrap();
    let after = parse_png_chunks(&out).unwrap();
    assert_eq!(after.len(), before.len());
    assert_eq!(after[1].data, b"XML:com.adobe.xmp\0\0\0\0<new packet/>".to_vec());
    assert_eq!(after[0], before[0]);
    assert_eq!(after[2], before[2]);
    assert_eq!(after[3], before[3]);
    assert_eq!(after[4], before[4]);
    assert_eq!(extract_xmp_from_png(&out), Some("<new packet/>".to_string()));
}

#[test]
fn unrelated_chunks_survive_a_write() {
    let data = png_with_parameters();
    let out = write_xmp_image_rating(&data, "png", 4).unwrap();
    let before = parse_png_chunks(&data).unwrap();
    let after = parse_png_chunks(&out).unwrap();
    assert_eq!(after.len(), before.len() + 1);
    for chunk in &before {
        assert!(after.contains(chunk), "chunk {:?} is lost", chunk.chunk_type);
    }
    let parameters = read_png_sd_parameters_from_bytes(&out).unwrap();
    assert_eq!(parameters.raw, parameters_text());
    assert_eq!(
        read_png_sd_parameters_from_bytes(&out),
        read_png_sd_parameters_from_bytes(&data)
    );
    let text_before = before.iter().find(|c| &c.chunk_type == b"tEXt").unwrap();
    let text_after = after.iter().find(|c| &c.chunk_type == b"tEXt").unwrap();
    assert_eq!(text_after.data, text_before.data);
    assert_eq!(text_after.crc, text_before.crc);
}

#[test]
fn writing_the_same_packet_twice_changes_nothing() {
    let data = png_with_parameters();
    let once = embed_xmp_in_png_chunks(&data, "<same/>").unwrap();
    let twice = embed_xmp_in_png_chunks(&once, "<same/>").unwrap();
    assert_eq!(once, twice);
    let other = embed_xmp_in_png_chunks(&once, "<other/>").unwrap();
    assert_eq!(other, embed_xmp_in_png_chunks(&data, "<other/>").unwrap());
}

#[test]
fn file_without_iend_cannot_take_a_packet() {
    let data = png_of(&[(b"IHDR", ihdr()), (b"IDAT", idat())]);
    assert_eq!(
        embed_xmp_in_png_chunks(&data, "<x/>"),
        Err(AppError::SegmentNotFound)
    );
    assert_eq!(
        embed_xmp_in_png_chunks(b"no png", "<x/>"),
        Err(AppError::MalformedHeader)
    );
    let cut = png_with_parameters();
    assert_eq!(
        embed_xmp_in_png_chunks(&cut[..cut.len() - 3], "<x/>"),
        Err(AppError::MalformedHeader)
    );
}

#[test]
fn parameters_are_read_from_the_text_chunk() {
    let data = png_with_parameters();
    let parameters = extract_sd_parameters(&data).unwrap().unwrap();
    assert_eq!(parameters.steps.as_deref(), Some("20"));
    assert_eq!(parameters.sampler.as_deref(), Some("Euler a"));
    assert_eq!(parameters.seed.as_deref(), Some("42"));
    assert_eq!(parameters.raw, parameters_text());
    assert_eq!(extract_sd_parameters(b"no png"), Err(AppError::MalformedHeader));
    assert_eq!(PngProcessor::extract_sd_parameters(&data).unwrap().unwrap().raw, parameters_text());
}

#[test]
fn parameters_that_do_not_parse_are_passed_over() {
    let broken = png_of(&[
        (b"IHDR", ihdr()),
        (b"tEXt", text_chunk("parameters", "only a prompt, no markers")),
        (b"tEXt", text_chunk("Comment", &parameters_text())),
        (b"IDAT", idat()),
        (b"IEND", vec![]),
    ]);
    assert_eq!(extract_sd_parameters(&broken), Ok(None));
    let second = png_of(&[
        (b"IHDR", ihdr()),
        (b"tEXt", text_chunk("parameters", "only a prompt, no markers")),
        (b"tEXt", text_chunk("parameters", &parameters_text())),
        (b"IEND", vec![]),
    ]);
    assert_eq!(extract_sd_parameters(&second).unwrap().unwrap().raw, parameters_text());
    let latin1 = png_of(&[
        (b"IHDR", ihdr()),
        (b"tEXt", {
            let mut data = b"parameters\0caf".to_vec();
            data.push(0xE9);
            data.extend_from_slice(b"\nNegative prompt: x\nSteps: 3");
            data
        }),
        (b"IEND", vec![]),
    ]);
    let parameters = extract_sd_parameters(&latin1).unwrap().unwrap();
    assert_eq!(parameters.positive_sd_tags[0].name, "caf\u{e9}");
}

#[test]
fn header_values() {
    let data = png_with_parameters();
    let info = read_png_info(&data).unwrap();
    assert_eq!((info.width, info.height, info.bit_depth), (1, 1, 8));
    assert_eq!(info.color_type, "Rgb");
    let (info, parameters) = PngProcessor::extract_comprehensive_info(&data).unwrap();
    assert_eq!(info.color_type, "Rgb");
    assert_eq!(parameters.unwrap().seed.as_deref(), Some("42"));
    let mut odd = data.clone();
    odd[25] = 5;
    assert_eq!(read_png_info(&odd), Err(AppError::MalformedHeader));
    let mut odd = data.clone();
    odd[24] = 3;
    assert_eq!(read_png_info(&odd), Err(AppError::MalformedHeader));
    let mut gray = data.clone();
    gray[25] = 4;
    gray[24] = 16;
    assert_eq!(read_png_info(&gray).unwrap().color_type, "GrayscaleAlpha");
}

fn minimal_jpeg() -> Vec<u8> {
    vec![
        0xFF, 0xD8, 0xFF, 0xE0, 0x00, 0x10, 0x4A, 0x46, 0x49, 0x46, 0x00, 0x01, 0x01, 0x01, 0x00,
        0x01, 0x00, 0x01, 0xFF, 0xD9,
    ]
}

#[test]
fn jpeg_packet_goes_after_the_start_marker() {
    let data = minimal_jpeg();
    let out = embed_xmp_in_jpeg_vec(&data, "<a/>").unwrap();
    let mut expected = vec![0xFF, 0xD8, 0xFF, 0xE1, 0x00, 35];
    expected.extend_from_slice(b"http://ns.adobe.com/xap/1.0/\0<a/>");
    expected.extend_from_slice(&data[2..]);
    assert_eq!(out, expected);
    assert_eq!(extract_xmp_from_jpeg(&out), Some("<a/>".to_string()));
    assert_eq!(extract_xmp_from_jpeg(&data), None);
}

#[test]
fn jpeg_packet_follows_the_start_marker() {
    let mut data = vec![0xFF, 0xD8, 0xFF, 0xE0, 0x00, 0x04, 0x4A, 0x46];
    data.extend_from_slice(&[0xFF, 0xE1, 0x00, 37]);
    data.extend_from_slice(b"http://ns.adobe.com/xap/1.0/\0<old/>");
    data.extend_from_slice(&[0xFF, 0xDB, 0x00, 0x03, 0x07, 0xFF, 0xD9]);
    assert_eq!(extract_xmp_from_jpeg(&data), Some("<old/>".to_string()));
    let out = embed_xmp_in_jpeg_vec(&data, "<newer/>").unwrap();
    let mut expected = vec![0xFF, 0xD8];
    expected.extend_from_slice(&[0xFF, 0xE1, 0x00, 39]);
    expected.extend_from_slice(b"http://ns.adobe.com/xap/1.0/\0<newer/>");
    expected.extend_from_slice(&[0xFF, 0xE0, 0x00, 0x04, 0x4A, 0x46]);
    expected.extend_from_slice(&[0xFF, 0xDB, 0x00, 0x03, 0x07, 0xFF, 0xD9]);
    assert_eq!(out, expected);
    assert_eq!(extract_xmp_from_jpeg(&out), Some("<newer/>".to_string()));
    let again = embed_xmp_in_jpeg_vec(&out, "<newer/>").unwrap();
    assert_eq!(again, out);
}

#[test]
fn jpeg_packet_is_added_after_the_start_marker() {
    let data = vec![0xFF, 0xD8, 0xFF, 0xE0, 0x00, 0x04, 0x4A, 0x46, 0xFF, 0xD9];
    let out = embed_xmp_in_jpeg_vec(&data, "<p/>").unwrap();
    let mut expected = vec![0xFF, 0xD8, 0xFF, 0xE1, 0x00, 35];
    expected.extend_from_slice(b"http://ns.adobe.com/xap/1.0/\0<p/>");
    expected.extend_from_slice(&[0xFF, 0xE0, 0x00, 0x04, 0x4A, 0x46, 0xFF, 0xD9]);
    assert_eq!(out, expected);
}

#[test]
fn jpeg_failures() {
    assert_eq!(embed_xmp_in_jpeg_vec(b"\x89PNG", "<a/>"), Err(AppError::MalformedHeader));
    assert_eq!(embed_xmp_in_jpeg_vec(&[0xFF], "<a/>"), Err(AppError::MalformedHeader));
    let long = "x".repeat(65505);
    assert_eq!(
        embed_xmp_in_jpeg_vec(&minimal_jpeg(), &long),
        Err(AppError::InvalidInput(InvalidInput::PacketTooLarge))
    );
    let fits = "x".repeat(65504);
    assert!(embed_xmp_in_jpeg_vec(&minimal_jpeg(), &fits).is_ok());
    let short_segment = vec![0xFF, 0xD8, 0xFF, 0xE1, 0x00, 0x00, 0xFF, 0xE1, 0x00, 0x01, 0xFF, 0xD9];
    assert_eq!(extract_xmp_from_jpeg(&short_segment), None);
}

#[test]
fn packet_goes_where_the_extension_says() {
    let png = png_with_parameters();
    assert_eq!(
        embed_xmp_packet(&png, "png", "<p/>"),
        embed_xmp_in_png_chunks(&png, "<p/>")
    );
    let jpeg = minimal_jpeg();
    assert_eq!(
        embed_xmp_packet(&jpeg, "jpg", "<p/>"),
        embed_xmp_in_jpeg_vec(&jpeg, "<p/>")
    );
    assert_eq!(embed_xmp_packet(&jpeg, "JPG", "<p/>"), Ok(jpeg.clone()));
    assert_eq!(embed_xmp_packet(&png, "webp", "<p/>"), Ok(png.clone()));
    assert_eq!(
        write_xmp_image_rating(&png, "png", 6),
        Err(AppError::InvalidInput(InvalidInput::OutOfRange))
    );
    assert_eq!(
        write_xmp_image_rating(&png, "webp", 6),
        Err(AppError::InvalidInput(InvalidInput::OutOfRange))
    );
}
