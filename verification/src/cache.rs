//! The thumbnail cache: the key under which a source path is cached, the
//! names of the two files kept for it, and the decision whether what is
//! cached can still be served.

use vstd::prelude::*;
use vstd::utf8::encode_utf8;
use crate::exif::ExifInfo;
use crate::sd_parameters::SdParameters;
use crate::text::append_chars;
use crate::text::chars_equal;
use crate::text::chars_of;
use crate::text::string_of;
use crate::text::string_of_range;

verus! {

/// The SHA-256 digest of a sequence of bytes.
pub uninterp spec fn spec_sha256(bytes: Seq<u8>) -> Seq<u8>;

/// `Sha256::digest` computes the SHA-256 digest of the bytes it is given,
/// which has 32 bytes.
#[verifier::external_body]
fn sha256(bytes: &[u8]) -> (digest: Vec<u8>)
    ensures
        digest@ == spec_sha256(bytes@),
        digest@.len() == 32,
{
    <sha2::Sha256 as sha2::Digest>::digest(bytes).to_vec()
}

/// The hexadecimal digit for a number below sixteen, in lower case.
pub open spec fn spec_hex_digit(n: int) -> char {
    if n < 10 {
        ((48 + n) as u8) as char
    } else {
        ((87 + n) as u8) as char
    }
}

/// Bytes written as hexadecimal text: two digits for each byte, the high
/// half first, letters in lower case.
pub open spec fn spec_hex(bytes: Seq<u8>) -> Seq<char> {
    Seq::new(
        2 * bytes.len(),
        |i: int|
            if i % 2 == 0 {
                spec_hex_digit(bytes[i / 2] as int / 16)
            } else {
                spec_hex_digit(bytes[i / 2] as int % 16)
            },
    )
}

/// `hex::encode` writes each byte as two hexadecimal digits in lower case.
#[verifier::external_body]
fn hex_encode(bytes: &[u8]) -> (text: String)
    ensures
        text@ == spec_hex(bytes@),
{
    hex::encode(bytes)
}

/// The cache key of a source path: the first sixteen hexadecimal digits of
/// the SHA-256 digest of the path.
pub open spec fn spec_cache_key(image_path: Seq<char>) -> Seq<char> {
    spec_hex(spec_sha256(encode_utf8(image_path))).subrange(0, 16)
}

/// The name of the file that holds the record of a cached image.
pub open spec fn spec_record_name(cache_key: Seq<char>) -> Seq<char> {
    cache_key + ".json"@
}

/// The name of the file that holds the thumbnail of a cached image.
pub open spec fn spec_thumbnail_name(cache_key: Seq<char>) -> Seq<char> {
    cache_key + ".webp"@
}

/// The path of a file in a directory: the directory, a slash and the name.
pub open spec fn spec_path_in(directory: Seq<char>, name: Seq<char>) -> Seq<char> {
    directory + seq!['/'] + name
}

/// Settings under which a thumbnail is made.
#[derive(Clone, Debug, PartialEq, Eq)]
pub struct ThumbnailConfig {
    /// The side of the square that the thumbnail fits in, in pixels.
    pub size: u32,
    pub quality: u8,
    /// The name of the format of the thumbnail.
    pub format: String,
}

impl Default for ThumbnailConfig {
    fn default() -> (config: Self)
        ensures
            config.size == 256,
            config.quality == 70,
            config.format@ == "webp"@,
    {
        ThumbnailConfig { size: 256, quality: 70, format: "webp".to_string() }
    }
}

impl ThumbnailConfig {
    /// Whether two settings ask for the same thumbnail.
    pub open spec fn spec_same(self, other: ThumbnailConfig) -> bool {
        self.size == other.size && self.quality == other.quality && self.format@ == other.format@
    }

    pub fn same(&self, other: &ThumbnailConfig) -> (b: bool)
        ensures
            b == self.spec_same(*other),
    {
        self.size == other.size && self.quality == other.quality && chars_equal(
            &chars_of(self.format.as_str()),
            &chars_of(other.format.as_str()),
        )
    }

    /// A copy of the settings.
    pub fn duplicate(&self) -> (copy: ThumbnailConfig)
        ensures
            copy.size == self.size,
            copy.quality == self.quality,
            copy.format@ == self.format@,
    {
        ThumbnailConfig { size: self.size, quality: self.quality, format: self.format.clone() }
    }
}

/// The identity of a source file: what is compared to tell whether the file
/// changed since it was cached.
#[derive(Clone, Debug, PartialEq, Eq)]
pub struct OriginalFileInfo {
    pub path: String,
    pub file_size: u64,
    /// Seconds since the start of 1970.
    pub modified_time: u64,
}

/// The identity of a source file together with the size of its image.
#[derive(Clone, Debug, PartialEq, Eq)]
pub struct OriginalFileInfoWithDimensions {
    pub path: String,
    pub file_size: u64,
    pub modified_time: u64,
    pub width: u32,
    pub height: u32,
}

impl OriginalFileInfo {
    /// The identity together with the size of the image.
    pub fn with_dimensions(self, width: u32, height: u32) -> (info: OriginalFileInfoWithDimensions)
        ensures
            info.path == self.path,
            info.file_size == self.file_size,
            info.modified_time == self.modified_time,
            info.width == width,
            info.height == height,
    {
        OriginalFileInfoWithDimensions {
            path: self.path,
            file_size: self.file_size,
            modified_time: self.modified_time,
            width,
            height,
        }
    }
}

/// What is known of a source file without reading its metadata.
#[derive(Clone, Debug, PartialEq, Eq)]
pub struct ImageFileInfo {
    pub path: String,
    pub file_size: u64,
    pub modified_time: u64,
    pub width: u32,
    pub height: u32,
    pub mime_type: String,
}

impl ImageFileInfo {
    /// File information for an image of known size.
    pub fn from_dimensions(
        identity: OriginalFileInfo,
        width: u32,
        height: u32,
        mime_type: String,
    ) -> (info: ImageFileInfo)
        ensures
            info.path@ == identity.path@,
            info.file_size == identity.file_size,
            info.modified_time == identity.modified_time,
            info.width == width,
            info.height == height,
            info.mime_type@ == mime_type@,
    {
        ImageFileInfo {
            path: identity.path,
            file_size: identity.file_size,
            modified_time: identity.modified_time,
            width,
            height,
            mime_type,
        }
    }

    /// Whether the file that this was taken from has the given size and time
    /// of change.
    pub open spec fn spec_unchanged(self, file_size: u64, modified_time: u64) -> bool {
        self.file_size == file_size && self.modified_time == modified_time
    }
}

/// The record kept beside a cached thumbnail.
#[derive(Clone, Debug, PartialEq, Eq)]
pub struct ImageMetadataCache {
    /// The settings under which the thumbnail was made.
    pub thumbnail_config: ThumbnailConfig,
    /// The source file as it was when the thumbnail was made.
    pub original_file_info: ImageFileInfo,
    pub thumbnail_filename: String,
    pub thumbnail_width: u32,
    pub thumbnail_height: u32,
    pub thumbnail_mime_type: String,
    pub rating: Option<u8>,
    pub exif_info: Option<ExifInfo>,
    pub sd_parameters: Option<SdParameters>,
    /// When the record was made, in seconds since the start of 1970.
    pub cached_at: u64,
}

/// The rating that dates and rating from a tag container hold.
pub open spec fn spec_rating_of(exif_info: Option<ExifInfo>) -> Option<u8> {
    match exif_info {
        Some(info) => info.rating,
        None => None,
    }
}

impl ImageMetadataCache {
    /// The record for a thumbnail that was just made: the settings, the
    /// source file and the thumbnail as given, and the rating that the tag
    /// container states.
    pub fn from_comprehensive(
        config: &ThumbnailConfig,
        original_file_info: ImageFileInfo,
        thumbnail_filename: String,
        thumbnail_width: u32,
        thumbnail_height: u32,
        thumbnail_mime_type: String,
        exif_info: Option<ExifInfo>,
        sd_parameters: Option<SdParameters>,
        current_time: u64,
    ) -> (record: ImageMetadataCache)
        ensures
            record.thumbnail_config.spec_same(*config),
            record.original_file_info == original_file_info,
            record.thumbnail_filename == thumbnail_filename,
            record.thumbnail_width == thumbnail_width,
            record.thumbnail_height == thumbnail_height,
            record.thumbnail_mime_type == thumbnail_mime_type,
            record.rating == spec_rating_of(exif_info),
            record.exif_info == exif_info,
            record.sd_parameters == sd_parameters,
            record.cached_at == current_time,
    {
        let rating = match &exif_info {
            Some(info) => info.rating,
            None => None,
        };
        ImageMetadataCache {
            thumbnail_config: config.duplicate(),
            original_file_info,
            thumbnail_filename,
            thumbnail_width,
            thumbnail_height,
            thumbnail_mime_type,
            rating,
            exif_info,
            sd_parameters,
            cached_at: current_time,
        }
    }
}

/// Whether a cached thumbnail has to be made anew. It can be served only if
/// its record and its file are there, the source file has the size and the
/// time of change that the record states, and the settings are those of the
/// record.
pub open spec fn spec_should_regenerate(
    record: Option<ImageMetadataCache>,
    thumbnail_exists: bool,
    file_size: u64,
    modified_time: u64,
    config: ThumbnailConfig,
) -> bool {
    match record {
        Some(r) => !thumbnail_exists || !r.original_file_info.spec_unchanged(
            file_size,
            modified_time,
        ) || !r.thumbnail_config.spec_same(config),
        None => true,
    }
}

/// One entry of the cache directory.
#[derive(Clone, Debug, PartialEq, Eq)]
pub struct CacheDirEntry {
    pub path: String,
    pub is_file: bool,
}

/// The paths of the entries of `entries[..upto]` that are files, in order.
pub open spec fn spec_files_to_remove(entries: Seq<CacheDirEntry>, upto: int) -> Seq<Seq<char>>
    decreases upto,
{
    if upto <= 0 {
        Seq::empty()
    } else if entries[upto - 1].is_file {
        spec_files_to_remove(entries, upto - 1).push(entries[upto - 1].path@)
    } else {
        spec_files_to_remove(entries, upto - 1)
    }
}

/// The characters of each path of a list.
pub open spec fn spec_path_views(paths: Seq<String>) -> Seq<Seq<char>> {
    Seq::new(paths.len(), |i: int| paths[i]@)
}

/// The files of the thumbnail cache, all in one directory.
#[derive(Clone, Debug, PartialEq, Eq)]
pub struct CacheManager {
    cache_dir: String,
}

impl CacheManager {
    /// The directory of the cache.
    pub closed spec fn spec_cache_dir(self) -> Seq<char> {
        self.cache_dir@
    }

    pub fn new(cache_dir: String) -> (manager: CacheManager)
        ensures
            manager.spec_cache_dir() == cache_dir@,
    {
        CacheManager { cache_dir }
    }

    /// The directory of the cache.
    pub fn cache_dir(&self) -> (directory: &String)
        ensures
            directory@ == self.spec_cache_dir(),
    {
        &self.cache_dir
    }

    /// The key under which a source path is cached. It depends on the path
    /// alone, not on the file or on the settings.
    pub fn generate_cache_key(&self, image_path: &str) -> (key: String)
        ensures
            key@ == spec_cache_key(image_path@),
            key@.len() == 16,
    {
        let digest = sha256(image_path.as_bytes());
        let text = hex_encode(digest.as_slice());
        let digits = chars_of(text.as_str());
        string_of_range(&digits, 0, 16)
    }

    fn path_in_cache(&self, cache_key: &str, extension: &str) -> (path: String)
        ensures
            path@ == spec_path_in(self.spec_cache_dir(), cache_key@ + extension@),
    {
        let mut path = chars_of(self.cache_dir.as_str());
        path.push('/');
        append_chars(&mut path, &chars_of(cache_key));
        append_chars(&mut path, &chars_of(extension));
        assert(path@ =~= spec_path_in(self.spec_cache_dir(), cache_key@ + extension@));
        string_of(&path)
    }

    /// The path of the record of a cached image.
    pub fn get_cache_info_path(&self, cache_key: &str) -> (path: String)
        ensures
            path@ == spec_path_in(self.spec_cache_dir(), spec_record_name(cache_key@)),
    {
        self.path_in_cache(cache_key, ".json")
    }

    /// The path of the thumbnail of a cached image.
    pub fn get_thumbnail_file_path(&self, cache_key: &str) -> (path: String)
        ensures
            path@ == spec_path_in(self.spec_cache_dir(), spec_thumbnail_name(cache_key@)),
    {
        self.path_in_cache(cache_key, ".webp")
    }

    /// The path of the record of a cached image.
    pub fn get_image_metadata_cache_path(&self, cache_key: &str) -> (path: String)
        ensures
            path@ == spec_path_in(self.spec_cache_dir(), spec_record_name(cache_key@)),
    {
        self.get_cache_info_path(cache_key)
    }

    /// The path of the thumbnail of a cached image.
    pub fn get_thumbnail_path(&self, cache_key: &str) -> (path: String)
        ensures
            path@ == spec_path_in(self.spec_cache_dir(), spec_thumbnail_name(cache_key@)),
    {
        self.get_thumbnail_file_path(cache_key)
    }

    /// Decides whether the thumbnail of a source file has to be made anew,
    /// given the record that was read for it, if any, whether the file of the
    /// thumbnail is there, the size and time of change of the source file
    /// now, and the settings now.
    pub fn should_cache_generate(
        &self,
        record: &Option<ImageMetadataCache>,
        thumbnail_exists: bool,
        file_size: u64,
        modified_time: u64,
        config: &ThumbnailConfig,
    ) -> (regenerate: bool)
        ensures
            regenerate == spec_should_regenerate(
                *record,
                thumbnail_exists,
                file_size,
                modified_time,
                *config,
            ),
    {
        match record {
            Some(r) => !thumbnail_exists || r.original_file_info.file_size != file_size
                || r.original_file_info.modified_time != modified_time
                || !r.thumbnail_config.same(config),
            None => true,
        }
    }

    /// The record to serve for a source file: the record that was read for
    /// it, where the thumbnail need not be made anew.
    pub fn is_cache_valid(
        &self,
        record: Option<ImageMetadataCache>,
        thumbnail_exists: bool,
        file_size: u64,
        modified_time: u64,
        config: &ThumbnailConfig,
    ) -> (valid: Option<ImageMetadataCache>)
        ensures
            valid == if spec_should_regenerate(
                record,
                thumbnail_exists,
                file_size,
                modified_time,
                *config,
            ) {
                None
            } else {
                record
            },
    {
        if self.should_cache_generate(&record, thumbnail_exists, file_size, modified_time, config) {
            None
        } else {
            record
        }
    }

    /// The files to remove when the cache is cleared: every entry of the
    /// cache directory that is a file.
    pub fn clear_cache(&self, entries: &Vec<CacheDirEntry>) -> (paths: Vec<String>)
        ensures
            spec_path_views(paths@) == spec_files_to_remove(entries@, entries.len() as int),
    {
        let mut paths: Vec<String> = Vec::new();
        let mut i: usize = 0;
        assert(spec_path_views(paths@) =~= spec_files_to_remove(entries@, 0));
        while i < entries.len()
            invariant
                i <= entries.len(),
                spec_path_views(paths@) == spec_files_to_remove(entries@, i as int),
            decreases entries.len() - i,
        {
            if entries[i].is_file {
                let ghost before = spec_path_views(paths@);
                paths.push(entries[i].path.clone());
                assert(spec_path_views(paths@) =~= before.push(entries@[i as int].path@));
            }
            i += 1;
        }
        paths
    }
}

/// A thumbnail whose source file was changed since has to be made anew,
/// whatever else holds.
pub proof fn lemma_touch_forces_regeneration(
    record: ImageMetadataCache,
    thumbnail_exists: bool,
    file_size: u64,
    modified_time: u64,
    config: ThumbnailConfig,
)
    requires
        record.original_file_info.modified_time != modified_time
            || record.original_file_info.file_size != file_size,
    ensures
        spec_should_regenerate(Some(record), thumbnail_exists, file_size, modified_time, config),
{
}

/// A thumbnail that was made under other settings has to be made anew, even
/// where the source file is untouched.
pub proof fn lemma_config_change_forces_regeneration(
    record: ImageMetadataCache,
    thumbnail_exists: bool,
    file_size: u64,
    modified_time: u64,
    config: ThumbnailConfig,
)
    requires
        record.thumbnail_config.size != config.size || record.thumbnail_config.quality
            != config.quality || record.thumbnail_config.format@ != config.format@,
    ensures
        spec_should_regenerate(Some(record), thumbnail_exists, file_size, modified_time, config),
{
}

/// A thumbnail is served exactly where its record and its file are there and
/// neither the source file nor the settings differ from the record.
pub proof fn lemma_served_exactly_when_unchanged(
    record: ImageMetadataCache,
    thumbnail_exists: bool,
    file_size: u64,
    modified_time: u64,
    config: ThumbnailConfig,
)
    ensures
        !spec_should_regenerate(Some(record), thumbnail_exists, file_size, modified_time, config)
            <==> (thumbnail_exists && record.original_file_info.file_size == file_size
            && record.original_file_info.modified_time == modified_time
            && record.thumbnail_config.size == config.size && record.thumbnail_config.quality
            == config.quality && record.thumbnail_config.format@ == config.format@),
{
}

} // verus!
