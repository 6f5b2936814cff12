use image_meta::error::AppError;
use image_meta::error::InvalidInput;
use image_meta::jpeg::extract_xmp_from_jpeg;
use image_meta::rating::settle_rating_write;
use image_meta::xmp_engine::create_xmp_with_rating_toolkit;
use image_meta::xmp_engine::embed_xmp_rating_in_vec;
use image_meta::xmp_engine::extract_rating_from_xmp_toolkit;
use image_meta::xmp_engine::rating_from_properties;
use image_meta::xmp_engine::rating_properties;
use image_meta::xmp_engine::write_rating_after_tags;
use image_meta::xmp_engine::write_xmp_image_rating;
use image_meta::xmp_engine::XmpProperty;

fn chunk(chunk_type: &[u8; 4], data: &[u8]) -> Vec<u8> {
    let mut out = Vec::new();
    out.extend_from_slice(&(data.len() as u32).to_be_bytes());
    out.extend_from_slice(chunk_type);
    out.extend_from_slice(data);
    out.extend_from_slice(&crc32fast::hash(&[&chunk_type[..], data].concat()).to_be_bytes());
    out
}

fn small_png() -> Vec<u8> {
    let mut out = vec![0x89, 0x50, 0x4E, 0x47, 0x0D, 0x0A, 0x1A, 0x0A];
    out.extend_from_slice(&chunk(b"IHDR", &[0, 0, 0, 1, 0, 0, 0, 1, 8, 2, 0, 0, 0]));
    out.extend_from_slice(&chunk(b"IEND", &[]));
    out
}

fn small_jpeg() -> Vec<u8> {
    vec![0xFF, 0xD8, 0xFF, 0xE0, 0x00, 0x04, 0x4A, 0x46, 0xFF, 0xD9]
}

fn out_of_range<T>() -> Result<T, AppError> {
    Err(AppError::InvalidInput(InvalidInput::OutOfRange))
}

#[test]
fn rating_above_five_is_refused_by_the_embed() {
    assert_eq!(embed_xmp_rating_in_vec(&small_png(), "png", 6), out_of_range());
    assert_eq!(embed_xmp_rating_in_vec(&small_jpeg(), "jpg", 255), out_of_range());
    assert_eq!(embed_xmp_rating_in_vec(&small_png(), "webp", 6), out_of_range());
    assert_eq!(embed_xmp_rating_in_vec(b"no image", "png", u32::MAX), out_of_range());
    assert_eq!(write_xmp_image_rating(b"no image", "jpeg", 6), out_of_range());
    assert!(embed_xmp_rating_in_vec(&small_png(), "png", 5).is_ok());
    assert_eq!(
        embed_xmp_rating_in_vec(b"no image", "png", 5),
        Err(AppError::MalformedHeader)
    );
    assert_eq!(embed_xmp_rating_in_vec(b"no image", "gif", 5), Ok(b"no image".to_vec()));
}

#[test]
fn properties_of_a_rating() {
    let namespace = "http://ns.adobe.com/xap/1.0/".to_string();
    let (stars, percent) = rating_properties(3);
    assert_eq!(
        stars,
        XmpProperty { schema_ns: namespace.clone(), name: "Rating".to_string(), value: "3".to_string() }
    );
    assert_eq!(
        percent,
        XmpProperty {
            schema_ns: namespace.clone(),
            name: "RatingPercent".to_string(),
            value: "50".to_string()
        }
    );
    let (stars, percent) = rating_properties(4_000_000_000);
    assert_eq!(stars.value, "4000000000");
    assert_eq!(percent.value, "0");
    let table = [(0u32, "0"), (1, "1"), (2, "25"), (3, "50"), (4, "75"), (5, "99")];
    for (rating, expected) in table {
        let (stars, percent) = rating_properties(rating);
        assert_eq!(stars.value, rating.to_string());
        assert_eq!(percent.value, expected);
        assert_eq!(rating_from_properties(&vec![stars.clone()]), Some(rating));
        assert_eq!(rating_from_properties(&vec![percent.clone()]), Some(rating));
        assert_eq!(rating_from_properties(&vec![stars, percent]), Some(rating));
    }
}

#[test]
fn properties_of_a_rating_reach_the_packet() {
    for rating in 0..=5u32 {
        let (stars, percent) = rating_properties(rating);
        let packet = create_xmp_with_rating_toolkit(None, rating).unwrap();
        assert!(packet.contains(&stars.schema_ns));
        assert!(
            packet.contains(&format!("xmp:Rating=\"{}\"", stars.value))
                || packet.contains(&format!("<xmp:Rating>{}</xmp:Rating>", stars.value)),
            "packet {}",
            packet
        );
        assert!(
            packet.contains(&format!("xmp:RatingPercent=\"{}\"", percent.value))
                || packet
                    .contains(&format!("<xmp:RatingPercent>{}</xmp:RatingPercent>", percent.value)),
            "packet {}",
            packet
        );
        assert_eq!(extract_rating_from_xmp_toolkit(&packet), Some(rating));
    }
}

#[test]
fn settled_write_takes_the_bytes_with_the_packet() {
    assert_eq!(settle_rating_write(Ok(vec![1, 2]), Ok(vec![1, 2, 3])), Ok((vec![1, 2, 3], None)));
}

#[test]
fn settled_write_keeps_the_tags_where_the_packet_failed() {
    assert_eq!(
        settle_rating_write(Ok(vec![1, 2]), Err(AppError::SegmentNotFound)),
        Ok((vec![1, 2], Some(AppError::SegmentNotFound)))
    );
    assert_eq!(
        settle_rating_write(Ok(vec![]), Err(AppError::MetadataDecodeError("x".to_string()))),
        Ok((vec![], Some(AppError::MetadataDecodeError("x".to_string()))))
    );
}

#[test]
fn settled_write_fails_where_the_tags_failed() {
    assert_eq!(
        settle_rating_write(Err(AppError::IoError("e".to_string())), Ok(vec![9])),
        Err(AppError::IoError("e".to_string()))
    );
    assert_eq!(
        settle_rating_write(Err(AppError::MalformedHeader), Err(AppError::SegmentNotFound)),
        Err(AppError::MalformedHeader)
    );
}

#[test]
fn write_after_tags_puts_the_packet_into_the_tagged_file() {
    let tagged = small_jpeg();
    let (bytes, warning) = write_rating_after_tags(Ok(tagged.clone()), "jpg", 4).unwrap();
    assert_eq!(warning, None);
    assert_eq!(&bytes[..4], &[0xFF, 0xD8, 0xFF, 0xE1]);
    let packet = extract_xmp_from_jpeg(&bytes).unwrap();
    assert_eq!(extract_rating_from_xmp_toolkit(&packet), Some(4));
    let (bytes, warning) = write_rating_after_tags(Ok(small_png()), "png", 2).unwrap();
    assert_eq!(warning, None);
    assert_eq!(Ok(bytes), write_xmp_image_rating(&small_png(), "png", 2));
    assert_eq!(
        write_rating_after_tags(Ok(vec![7, 7]), "webp", 0),
        Ok((vec![7, 7], None))
    );
}

#[test]
fn write_after_tags_keeps_the_tags_with_a_warning() {
    assert_eq!(
        write_rating_after_tags(Ok(b"tags and no image".to_vec()), "png", 3),
        Ok((b"tags and no image".to_vec(), Some(AppError::MalformedHeader)))
    );
    assert_eq!(
        write_rating_after_tags(Ok(vec![0xFF]), "jpeg", 3),
        Ok((vec![0xFF], Some(AppError::MalformedHeader)))
    );
}

#[test]
fn write_after_tags_fails_with_the_tags_or_the_rating() {
    assert_eq!(
        write_rating_after_tags(Err(AppError::IoError("e".to_string())), "png", 3),
        Err(AppError::IoError("e".to_string()))
    );
    assert_eq!(write_rating_after_tags(Ok(small_png()), "png", 6), out_of_range());
    assert_eq!(
        write_rating_after_tags(Err(AppError::IoError("e".to_string())), "png", 6),
        out_of_range()
    );
}
