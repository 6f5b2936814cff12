use image_meta::thumbnail::resize_plan;
use image_meta::cache::CacheDirEntry;
use image_meta::cache::CacheManager;
use image_meta::cache::ImageFileInfo;
use image_meta::cache::ImageMetadataCache;
use image_meta::cache::OriginalFileInfo;
use image_meta::thumbnail::ResizePlan;
use image_meta::cache::ThumbnailConfig;
use image_meta::error::AppError;
use image_meta::exif::ExifInfo;
use image_meta::thumbnail::next_thumbnail_action;
use image_meta::rating::write_outcome;
use image_meta::thumbnail::BatchThumbnailResult;
use image_meta::thumbnail::CachedMetadata;
use image_meta::thumbnail::ThumbnailAction;
use image_meta::thumbnail::ThumbnailInfo;
use sha2::Digest;

fn manager() -> CacheManager {
    CacheManager::new("/var/cache/thumbnails".to_string())
}

fn record(file_size: u64, modified_time: u64, config: &ThumbnailConfig) -> ImageMetadataCache {
    let info = ImageFileInfo::from_dimensions(
        OriginalFileInfo { path: "/images/a.png".to_string(), file_size, modified_time },
        640,
        480,
        "image/png".to_string(),
    );
    ImageMetadataCache::from_comprehensive(
        config,
        info,
        "1a885369e14d57f4.webp".to_string(),
        256,
        192,
        "image/webp".to_string(),
        Some(ExifInfo {
            date_time_original: None,
            create_date: None,
            modify_date: None,
            rating: Some(3),
        }),
        None,
        1_700_000_000,
    )
}

#[test]
fn cache_key_is_the_start_of_the_digest_in_hex() {
    let manager = manager();
    assert_eq!(manager.generate_cache_key("/images/a.png"), "1a885369e14d57f4");
    for path in ["", "a", "/images/\u{3042}.png", "C:\\pictures\\b.JPG"] {
        let digest = sha2::Sha256::digest(path.as_bytes());
        let key = manager.generate_cache_key(path);
        assert_eq!(key, hex::encode(&digest[..8]));
        assert_eq!(key.len(), 16);
    }
    assert_ne!(manager.generate_cache_key("a"), manager.generate_cache_key("b"));
}

#[test]
fn cache_files_are_named_by_the_key() {
    let manager = manager();
    assert_eq!(manager.cache_dir(), "/var/cache/thumbnails");
    assert_eq!(
        manager.get_cache_info_path("1a885369e14d57f4"),
        "/var/cache/thumbnails/1a885369e14d57f4.json"
    );
    assert_eq!(
        manager.get_thumbnail_file_path("1a885369e14d57f4"),
        "/var/cache/thumbnails/1a885369e14d57f4.webp"
    );
    assert_eq!(
        manager.get_image_metadata_cache_path("k"),
        manager.get_cache_info_path("k")
    );
    assert_eq!(manager.get_thumbnail_path("k"), manager.get_thumbnail_file_path("k"));
}

#[test]
fn default_settings() {
    let config = ThumbnailConfig::default();
    assert_eq!(config.size, 256);
    assert_eq!(config.quality, 70);
    assert_eq!(config.format, "webp");
    assert!(config.same(&config.duplicate()));
}

#[test]
fn record_of_a_new_thumbnail() {
    let config = ThumbnailConfig::default();
    let record = record(1000, 50, &config);
    assert_eq!(record.thumbnail_config, config);
    assert_eq!(record.original_file_info.path, "/images/a.png");
    assert_eq!(record.original_file_info.width, 640);
    assert_eq!(record.original_file_info.height, 480);
    assert_eq!(record.original_file_info.file_size, 1000);
    assert_eq!(record.original_file_info.modified_time, 50);
    assert_eq!(record.thumbnail_filename, "1a885369e14d57f4.webp");
    assert_eq!((record.thumbnail_width, record.thumbnail_height), (256, 192));
    assert_eq!(record.rating, Some(3));
    assert_eq!(record.cached_at, 1_700_000_000);
}

#[test]
fn untouched_file_is_served_from_the_cache() {
    let manager = manager();
    let config = ThumbnailConfig::default();
    let cached = Some(record(1000, 50, &config));
    assert!(!manager.should_cache_generate(&cached, true, 1000, 50, &config));
    assert_eq!(
        manager.is_cache_valid(cached.clone(), true, 1000, 50, &config),
        cached
    );
}

#[test]
fn touched_file_is_made_anew() {
    let manager = manager();
    let config = ThumbnailConfig::default();
    let cached = Some(record(1000, 50, &config));
    assert!(manager.should_cache_generate(&cached, true, 1000, 51, &config));
    assert!(manager.should_cache_generate(&cached, true, 1000, 49, &config));
    assert!(manager.should_cache_generate(&cached, true, 1001, 50, &config));
    assert_eq!(manager.is_cache_valid(cached, true, 1000, 51, &config), None);
}

#[test]
fn changed_settings_force_a_new_thumbnail() {
    let manager = manager();
    let config = ThumbnailConfig::default();
    let cached = Some(record(1000, 50, &config));
    let larger = ThumbnailConfig { size: 512, quality: 70, format: "webp".to_string() };
    let finer = ThumbnailConfig { size: 256, quality: 90, format: "webp".to_string() };
    let other = ThumbnailConfig { size: 256, quality: 70, format: "png".to_string() };
    assert!(manager.should_cache_generate(&cached, true, 1000, 50, &larger));
    assert!(manager.should_cache_generate(&cached, true, 1000, 50, &finer));
    assert!(manager.should_cache_generate(&cached, true, 1000, 50, &other));
    assert_eq!(manager.is_cache_valid(cached, true, 1000, 50, &finer), None);
}

#[test]
fn missing_files_force_a_new_thumbnail() {
    let manager = manager();
    let config = ThumbnailConfig::default();
    let cached = Some(record(1000, 50, &config));
    assert!(manager.should_cache_generate(&None, true, 1000, 50, &config));
    assert!(manager.should_cache_generate(&cached, false, 1000, 50, &config));
    assert!(manager.should_cache_generate(&None, false, 1000, 50, &config));
}

#[test]
fn clearing_removes_files_only() {
    let entries = vec![
        CacheDirEntry { path: "/c/a.webp".to_string(), is_file: true },
        CacheDirEntry { path: "/c/metadata".to_string(), is_file: false },
        CacheDirEntry { path: "/c/a.json".to_string(), is_file: true },
    ];
    assert_eq!(manager().clear_cache(&entries), vec!["/c/a.webp", "/c/a.json"]);
    assert!(manager().clear_cache(&vec![]).is_empty());
}

#[test]
fn large_images_are_resized_in_two_steps() {
    assert_eq!(resize_plan(512, 512, 256), ResizePlan::Direct { bound: 256 });
    assert_eq!(resize_plan(100, 40, 256), ResizePlan::Direct { bound: 256 });
    assert_eq!(
        resize_plan(513, 10, 256),
        ResizePlan::Progressive { intermediate: 512, bound: 256 }
    );
    assert_eq!(
        resize_plan(10, 4000, 100),
        ResizePlan::Progressive { intermediate: 400, bound: 100 }
    );
    assert_eq!(
        resize_plan(4000, 3000, 127),
        ResizePlan::Progressive { intermediate: 508, bound: 127 }
    );
    assert_eq!(
        resize_plan(4000, 3000, 128),
        ResizePlan::Progressive { intermediate: 512, bound: 128 }
    );
    assert_eq!(
        resize_plan(4000, 3000, 4_000_000_000),
        ResizePlan::Progressive { intermediate: 512, bound: 4_000_000_000 }
    );
}

#[test]
fn cache_or_new_thumbnail() {
    assert_eq!(
        next_thumbnail_action(false, Some(vec![1, 2])),
        ThumbnailAction::Serve(vec![1, 2])
    );
    assert_eq!(next_thumbnail_action(true, Some(vec![1, 2])), ThumbnailAction::Generate);
    assert_eq!(next_thumbnail_action(false, None), ThumbnailAction::Generate);
    assert_eq!(next_thumbnail_action(true, None), ThumbnailAction::Generate);
}

#[test]
fn failed_packet_write_is_a_warning() {
    let failure = || AppError::MetadataDecodeError("engine".to_string());
    assert_eq!(write_outcome(Ok(()), Ok(())), Ok(None));
    assert_eq!(write_outcome(Ok(()), Err(failure())), Ok(Some(failure())));
    assert_eq!(
        write_outcome(Err(AppError::IoError("disk".to_string())), Ok(())),
        Err(AppError::IoError("disk".to_string()))
    );
    assert_eq!(
        write_outcome(Err(AppError::IoError("disk".to_string())), Err(failure())),
        Err(AppError::IoError("disk".to_string()))
    );
    assert_eq!(failure().description(), "Metadata error: engine");
    assert_eq!(AppError::IoError("disk".to_string()).description(), "File I/O error: disk");
    assert_eq!(AppError::CacheError("full".to_string()).description(), "Cache error: full");
}

#[test]
fn batch_outcome() {
    let config = ThumbnailConfig::default();
    let ok = BatchThumbnailResult::from_outcome("a.png".to_string(), Ok(record(1, 2, &config)));
    assert_eq!(ok.path, "a.png");
    assert_eq!(ok.metadata_cache, Some(record(1, 2, &config)));
    assert_eq!(ok.error, None);
    let failed =
        BatchThumbnailResult::from_outcome("b.png".to_string(), Err(AppError::SegmentNotFound));
    assert_eq!(failed.metadata_cache, None);
    assert_eq!(failed.error, Some("Segment not found".to_string()));
}

#[test]
fn thumbnail_by_path() {
    let stored = ThumbnailInfo {
        data: vec![1],
        width: 10,
        height: 20,
        mime_type: "image/webp".to_string(),
        cache_path: Some("/c/k.webp".to_string()),
    };
    let by_path = stored.into_path_info().unwrap();
    assert_eq!((by_path.width, by_path.height), (10, 20));
    assert_eq!(by_path.cache_path, "/c/k.webp");
    let loose = ThumbnailInfo {
        data: vec![1],
        width: 10,
        height: 20,
        mime_type: "image/webp".to_string(),
        cache_path: None,
    };
    assert_eq!(loose.into_path_info(), None);
    let cached = CachedMetadata::from_exif_info(None, 9);
    assert_eq!((cached.rating, cached.cached_at), (None, 9));
}
