use image_meta::error::AppError;
use image_meta::error::InvalidInput;
use image_meta::exif::ExifField;
use image_meta::exif::ExifValue;
use image_meta::lock::ImageFileLockService;
use image_meta::metadata::ImageMetadata;
use image_meta::metadata::MetadataCache;
use image_meta::xmp_engine::embed_xmp_packet;
use image_meta::xmp_engine::write_xmp_image_rating;

fn bytes_of_chunk(chunk_type: &[u8; 4], data: &[u8]) -> Vec<u8> {
    let mut out = Vec::new();
    out.extend_from_slice(&(data.len() as u32).to_be_bytes());
    out.extend_from_slice(chunk_type);
    out.extend_from_slice(data);
    out.extend_from_slice(&crc32fast::hash(&[&chunk_type[..], data].concat()).to_be_bytes());
    out
}

fn png(parameters: &str) -> Vec<u8> {
    let mut out = vec![0x89, 0x50, 0x4E, 0x47, 0x0D, 0x0A, 0x1A, 0x0A];
    out.extend_from_slice(&bytes_of_chunk(b"IHDR", &[0, 0, 0, 3, 0, 0, 0, 2, 8, 2, 0, 0, 0]));
    let mut text = b"parameters\0".to_vec();
    text.extend_from_slice(parameters.as_bytes());
    out.extend_from_slice(&bytes_of_chunk(b"tEXt", &text));
    out.extend_from_slice(&bytes_of_chunk(b"IEND", &[]));
    out
}

fn jpeg() -> Vec<u8> {
    vec![
        0xFF, 0xD8, 0xFF, 0xE0, 0x00, 0x04, 0x4A, 0x46, 0xFF, 0xC0, 0x00, 0x0B, 0x08, 0x00, 0x05,
        0x00, 0x07, 0x03, 0x01, 0x11, 0x00, 0xFF, 0xD9,
    ]
}

fn metadata(width: u32) -> ImageMetadata {
    ImageMetadata {
        width,
        height: 1,
        file_size: 10,
        mime_type: "image/png".to_string(),
        rating: Some(2),
        exif_info: None,
        sd_parameters: None,
    }
}

#[test]
fn metadata_of_a_png_file() {
    let data = png("cat\nNegative prompt: dog\nSteps: 5");
    let found = ImageMetadata::from_bytes("a.png", &data, &vec![]).unwrap();
    assert_eq!((found.width, found.height), (3, 2));
    assert_eq!(found.file_size, data.len() as u64);
    assert_eq!(found.mime_type, "image/png");
    assert_eq!(found.rating, None);
    assert_eq!(found.exif_info, None);
    assert_eq!(found.sd_parameters.unwrap().steps.as_deref(), Some("5"));
}

#[test]
fn parameters_that_do_not_parse_leave_the_rest() {
    let data = png("a prompt without any marker");
    let found = ImageMetadata::from_bytes("a.png", &data, &vec![]).unwrap();
    assert_eq!((found.width, found.height), (3, 2));
    assert_eq!(found.sd_parameters, None);
}

#[test]
fn rating_round_trip_through_a_file() {
    for format in ["png", "jpg"] {
        let mut data = if format == "png" { png("x") } else { jpeg() };
        let name = format!("photo.{}", format);
        for rating in [2u32, 5, 0, 1, 3, 4] {
            data = write_xmp_image_rating(&data, format, rating).unwrap();
            let found = ImageMetadata::from_bytes(&name, &data, &vec![]).unwrap();
            assert_eq!(found.rating, Some(rating as u8), "{} rating {}", format, rating);
        }
    }
}

#[test]
fn writing_the_same_rating_twice_reads_the_same() {
    for format in ["png", "jpg"] {
        let data = if format == "png" { png("x") } else { jpeg() };
        let once = write_xmp_image_rating(&data, format, 4).unwrap();
        let twice = write_xmp_image_rating(&once, format, 4).unwrap();
        assert_eq!(
            ImageMetadata::from_bytes("p", &once, &vec![]).unwrap().rating,
            ImageMetadata::from_bytes("p", &twice, &vec![]).unwrap().rating
        );
        let first = ImageMetadata::from_bytes("p", &once, &vec![]).unwrap();
        let second = ImageMetadata::from_bytes("p", &twice, &vec![]).unwrap();
        assert_eq!((first.width, first.height), (second.width, second.height));
        assert_eq!(first.mime_type, second.mime_type);
        assert_eq!(first.sd_parameters, second.sd_parameters);
    }
}

fn percent_only_packet(percent: u32) -> String {
    format!(
        "<x:xmpmeta xmlns:x=\"adobe:ns:meta/\"><rdf:RDF xmlns:rdf=\"http://www.w3.org/1999/02/22-rdf-syntax-ns#\"><rdf:Description rdf:about=\"\" xmlns:xmp=\"http://ns.adobe.com/xap/1.0/\" xmp:RatingPercent=\"{}\"/></rdf:RDF></x:xmpmeta>",
        percent
    )
}

#[test]
fn file_with_percent_alone_reads_quantized_rating() {
    for (percent, rating) in [(62u32, 3u8), (24, 1), (0, 0), (99, 5), (100, 5), (75, 4), (49, 2)] {
        let in_png = embed_xmp_packet(&png("x"), "png", &percent_only_packet(percent)).unwrap();
        let found = ImageMetadata::from_bytes("a.png", &in_png, &vec![]).unwrap();
        assert_eq!(found.rating, Some(rating), "png, percent {}", percent);
        let in_jpeg = embed_xmp_packet(&jpeg(), "jpeg", &percent_only_packet(percent)).unwrap();
        let found = ImageMetadata::from_bytes("a.jpg", &in_jpeg, &vec![]).unwrap();
        assert_eq!(found.rating, Some(rating), "jpeg, percent {}", percent);
    }
    let fields = vec![ExifField { tag_id: 18249, value: ExifValue::Shorts(vec![62]) }];
    let found = ImageMetadata::from_bytes("a.jpg", &jpeg(), &fields).unwrap();
    assert_eq!(found.rating, Some(3));
}

#[test]
fn rating_of_the_tag_container_counts_first() {
    let data = write_xmp_image_rating(&jpeg(), "jpg", 5).unwrap();
    let fields = vec![ExifField { tag_id: 18246, value: ExifValue::Shorts(vec![1]) }];
    let found = ImageMetadata::from_bytes("a.jpg", &data, &fields).unwrap();
    assert_eq!(found.rating, Some(1));
    assert_eq!(found.exif_info.unwrap().rating, Some(1));
    assert_eq!((found.width, found.height), (7, 5));
    let found = ImageMetadata::assemble(&jpeg(), None, Some(4)).unwrap();
    assert_eq!(found.rating, Some(4));
    assert_eq!(found.mime_type, "image/jpeg");
}

#[test]
fn failures_of_the_read() {
    assert_eq!(
        ImageMetadata::from_bytes("", &jpeg(), &vec![]),
        Err(AppError::InvalidInput(InvalidInput::EmptyPath))
    );
    assert_eq!(
        ImageMetadata::from_bytes("a.gif", b"GIF89a", &vec![]),
        Err(AppError::UnsupportedVariant)
    );
    assert_eq!(
        ImageMetadata::from_bytes("a.png", &png("x")[..20], &vec![]),
        Err(AppError::MalformedHeader)
    );
    assert_eq!(
        ImageMetadata::from_bytes("a.jpg", &jpeg()[..10], &vec![]),
        Err(AppError::SegmentNotFound)
    );
    assert_eq!(
        AppError::InvalidInput(InvalidInput::EmptyPath).description(),
        "Path must not be empty"
    );
    assert_eq!(
        AppError::InvalidInput(InvalidInput::PacketTooLarge).description(),
        "XMP packet is too large"
    );
}

#[test]
fn cache_serves_unchanged_files_only() {
    let mut cache = MetadataCache::new();
    assert!(cache.is_empty());
    cache.store_metadata("a.png".to_string(), metadata(1), 100, 7, 1000);
    cache.store_metadata("b.png".to_string(), metadata(2), 200, 8, 1001);
    assert_eq!(cache.get_metadata("a.png", Some((100, 7))), Some(metadata(1)));
    assert_eq!(cache.get_metadata("a.png", Some((100, 7))), Some(metadata(1)));
    assert_eq!(cache.get_metadata("c.png", Some((100, 7))), None);
    assert_eq!(cache.entries().len(), 2);
    assert_eq!(cache.get_metadata("a.png", Some((100, 8))), None);
    assert_eq!(cache.entries().len(), 1);
    assert_eq!(cache.get_metadata("a.png", Some((100, 7))), None);
    assert_eq!(cache.get_metadata("b.png", None), None);
    assert!(cache.is_empty());
}

#[test]
fn cache_forgets_a_written_file() {
    let mut cache = MetadataCache::new();
    cache.store_metadata("a.png".to_string(), metadata(1), 100, 7, 1000);
    cache.store_metadata("b.png".to_string(), metadata(2), 200, 8, 1001);
    cache.invalidate("a.png");
    cache.invalidate("missing.png");
    assert_eq!(cache.get_metadata("a.png", Some((100, 7))), None);
    assert_eq!(cache.get_metadata("b.png", Some((200, 8))), Some(metadata(2)));
}

#[test]
fn loading_keeps_the_last_recent_entry_of_each_path() {
    let day = 24 * 3600;
    let now = 100 * day;
    let entry = |path: &str, width: u32, cached_at: u64| image_meta::metadata::CacheEntry {
        path: path.to_string(),
        file_size: 1,
        modified_time: 2,
        image_metadata: metadata(width),
        cached_at,
    };
    let mut cache = MetadataCache::load(
        vec![
            entry("a", 1, now - 1),
            entry("b", 2, now - 40 * day),
            entry("a", 3, now - 2),
            entry("c", 4, now - 50 * day),
            entry("c", 5, now),
            entry("d", 6, now),
            entry("d", 7, now - 30 * day),
        ],
        now,
    );
    assert_eq!(cache.entries().len(), 2);
    assert_eq!(cache.get_metadata("a", Some((1, 2))), Some(metadata(3)));
    assert_eq!(cache.get_metadata("b", Some((1, 2))), None);
    assert_eq!(cache.get_metadata("c", Some((1, 2))), Some(metadata(5)));
    assert_eq!(cache.get_metadata("d", Some((1, 2))), None);
}

#[test]
fn cache_replaces_what_it_held() {
    let mut cache = MetadataCache::new();
    cache.store_metadata("a.png".to_string(), metadata(1), 100, 7, 1000);
    cache.store_metadata("a.png".to_string(), metadata(9), 101, 8, 1002);
    assert_eq!(cache.entries().len(), 1);
    assert_eq!(cache.entries()[0].cached_at, 1002);
    assert_eq!(cache.get_metadata("a.png", Some((101, 8))), Some(metadata(9)));
}

#[test]
fn old_entries_are_dropped_on_load() {
    let day = 24 * 3600;
    let now = 100 * day;
    let mut cache = MetadataCache::new();
    cache.store_metadata("old".to_string(), metadata(1), 1, 1, now - 31 * day);
    cache.store_metadata("edge".to_string(), metadata(2), 1, 1, now - 30 * day);
    cache.store_metadata("young".to_string(), metadata(3), 1, 1, now - 30 * day + 1);
    cache.store_metadata("new".to_string(), metadata(4), 1, 1, now);
    cache.retain_recent(now);
    let kept: Vec<&str> = cache.entries().iter().map(|e| e.path.as_str()).collect();
    assert_eq!(kept, vec!["young", "new"]);
    cache.retain_recent(5);
    assert_eq!(cache.entries().len(), 2);
    cache.retain_recent(now + 31 * day);
    assert!(cache.is_empty());
}

#[test]
fn one_lock_for_each_path() {
    let mut service = ImageFileLockService::new();
    let a = service.get_or_create_path_mutex("/images/a.png");
    let b = service.get_or_create_path_mutex("/images/b.png");
    assert_ne!(a, b);
    assert_eq!(service.get_or_create_path_mutex("/images/a.png"), a);
    assert_eq!(service.get_or_create_path_mutex("/images/b.png"), b);
    assert_eq!(service.len(), 2);
    assert!(!service.is_locked(a));
}

#[test]
fn lock_is_held_by_one_at_a_time() {
    let mut service = ImageFileLockService::new();
    let a = service.get_or_create_path_mutex("a");
    let b = service.get_or_create_path_mutex("b");
    assert!(service.try_acquire(a));
    assert!(!service.try_acquire(a));
    assert!(service.try_acquire(b));
    assert!(service.is_locked(a));
    service.release(a);
    assert!(!service.is_locked(a));
    assert!(service.is_locked(b));
    assert!(service.try_acquire(a));
    assert_eq!(service.get_or_create_path_mutex("a"), a);
    assert!(service.is_locked(a));
    assert!(!service.try_acquire(99));
    assert!(!service.is_locked(99));
    service.release(99);
    assert_eq!(service.len(), 2);
}
