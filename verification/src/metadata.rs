//! The metadata of one image, put together from a single pass over the bytes
//! of its file, and the cache that keeps the metadata of files that were
//! read before.

use vstd::prelude::*;
use crate::error::AppError;
use crate::error::InvalidInput;
use crate::exif::extract_exif_info;
use crate::exif::spec_extract_exif_info;
use crate::exif::spec_text_of;
use crate::exif::ExifField;
use crate::exif::ExifInfo;
use crate::exif::ExifInfoView;
use crate::format::get_dimensions;
use crate::format::mime_type_of;
use crate::format::sniff_format;
use crate::format::spec_dimensions;
use crate::format::spec_mime_type;
use crate::format::spec_sniff_format;
use crate::format::ImageFormat;
use crate::jpeg::extract_xmp_from_jpeg;
use crate::jpeg::spec_jpeg_xmp_bytes;
use crate::png::extract_xmp_from_png;
use crate::png::spec_png_xmp_bytes;
use crate::png_text::read_png_sd_parameters_from_bytes;
use crate::png_text::spec_extract_sd_parameters;
use crate::rating::resolve_rating;
use crate::rating::spec_resolve_rating;
use crate::rating::MAX_RATING;
use crate::sd_parameters::spec_tag_views;
use crate::sd_parameters::SdParameters;
use crate::sd_parameters::SdParametersView;
use crate::sd_parameters::SdTag;
use crate::text::chars_equal;
use crate::text::chars_of;
use crate::xmp_engine::read_xmp_rating;

verus! {

/// A copy of an optional string.
pub fn duplicate_text(text: &Option<String>) -> (copy: Option<String>)
    ensures
        spec_text_of(copy) == spec_text_of(*text),
{
    match text {
        Some(s) => Some(s.clone()),
        None => None,
    }
}

impl ExifInfo {
    /// A copy that holds the same dates and rating.
    pub fn duplicate(&self) -> (copy: ExifInfo)
        ensures
            copy@ == self@,
    {
        ExifInfo {
            date_time_original: duplicate_text(&self.date_time_original),
            create_date: duplicate_text(&self.create_date),
            modify_date: duplicate_text(&self.modify_date),
            rating: self.rating,
        }
    }
}

fn duplicate_tags(tags: &Vec<SdTag>) -> (copy: Vec<SdTag>)
    ensures
        spec_tag_views(copy@) == spec_tag_views(tags@),
{
    let mut copy: Vec<SdTag> = Vec::new();
    let mut i: usize = 0;
    while i < tags.len()
        invariant
            i <= tags.len(),
            copy.len() == i,
            forall|k: int| 0 <= k < i ==> (#[trigger] copy@[k])@ == tags@[k]@,
        decreases tags.len() - i,
    {
        copy.push(SdTag { name: tags[i].name.clone(), weight: duplicate_text(&tags[i].weight) });
        i += 1;
    }
    assert(spec_tag_views(copy@) =~= spec_tag_views(tags@));
    copy
}

impl SdParameters {
    /// A copy that holds the same tags, settings and text.
    pub fn duplicate(&self) -> (copy: SdParameters)
        ensures
            copy@ == self@,
    {
        let copy = SdParameters {
            positive_sd_tags: duplicate_tags(&self.positive_sd_tags),
            negative_sd_tags: duplicate_tags(&self.negative_sd_tags),
            steps: duplicate_text(&self.steps),
            sampler: duplicate_text(&self.sampler),
            schedule_type: duplicate_text(&self.schedule_type),
            cfg_scale: duplicate_text(&self.cfg_scale),
            seed: duplicate_text(&self.seed),
            size: duplicate_text(&self.size),
            model: duplicate_text(&self.model),
            denoising_strength: duplicate_text(&self.denoising_strength),
            clip_skip: duplicate_text(&self.clip_skip),
            raw: self.raw.clone(),
        };
        assert(copy@.fields =~= self@.fields);
        copy
    }
}

/// What is known of an image: read-only, and made in one piece from one pass
/// over the bytes of its file.
#[derive(Clone, Debug, PartialEq, Eq)]
pub struct ImageMetadata {
    pub width: u32,
    pub height: u32,
    pub file_size: u64,
    pub mime_type: String,
    /// The rating, at most five.
    pub rating: Option<u8>,
    /// The capture dates, with the rating of the tag container.
    pub exif_info: Option<ExifInfo>,
    pub sd_parameters: Option<SdParameters>,
}

/// What an `ImageMetadata` holds, as plain values.
pub struct ImageMetadataView {
    pub width: u32,
    pub height: u32,
    pub file_size: u64,
    pub mime_type: Seq<char>,
    pub rating: Option<u8>,
    pub exif_info: Option<ExifInfoView>,
    pub sd_parameters: Option<SdParametersView>,
}

/// What optional dates and rating hold.
pub open spec fn spec_exif_view(info: Option<ExifInfo>) -> Option<ExifInfoView> {
    match info {
        Some(i) => Some(i@),
        None => None,
    }
}

/// What optional generation parameters hold.
pub open spec fn spec_parameters_view(parameters: Option<SdParameters>) -> Option<
    SdParametersView,
> {
    match parameters {
        Some(p) => Some(p@),
        None => None,
    }
}

impl View for ImageMetadata {
    type V = ImageMetadataView;

    open spec fn view(&self) -> ImageMetadataView {
        ImageMetadataView {
            width: self.width,
            height: self.height,
            file_size: self.file_size,
            mime_type: self.mime_type@,
            rating: self.rating,
            exif_info: spec_exif_view(self.exif_info),
            sd_parameters: spec_parameters_view(self.sd_parameters),
        }
    }
}

/// The generation parameters that go into the metadata of a file: those of a
/// PNG file, none for the other formats.
pub open spec fn spec_metadata_parameters(data: Seq<u8>, format: ImageFormat) -> Option<
    SdParametersView,
> {
    match format {
        ImageFormat::Png => match spec_extract_sd_parameters(data) {
            Ok(found) => found,
            Err(_) => None,
        },
        _ => None,
    }
}

/// The metadata of the file `data`, given the rating that its XMP packet
/// states and the fields of its tag container. The format is the one that
/// the first bytes announce; a file of no known format is an unsupported
/// variant, and a file whose size cannot be read has the error of its header.
pub open spec fn spec_assemble(
    data: Seq<u8>,
    exif_info: Option<ExifInfoView>,
    exif_rating: Option<u8>,
    xmp_rating: Option<u8>,
) -> Result<ImageMetadataView, AppError> {
    match spec_sniff_format(data) {
        None => Err(AppError::UnsupportedVariant),
        Some(format) => match spec_dimensions(data, format) {
            Err(e) => Err(e),
            Ok(size) => Ok(
                ImageMetadataView {
                    width: size.width,
                    height: size.height,
                    file_size: data.len() as u64,
                    mime_type: spec_mime_type(Some(format)),
                    rating: spec_resolve_rating(exif_rating, xmp_rating),
                    exif_info,
                    sd_parameters: spec_metadata_parameters(data, format),
                },
            ),
        },
    }
}

/// The bytes of the XMP packet that a file carries, where it carries one
/// that is valid UTF-8: that of a PNG or of a JPEG file, by the format that
/// its first bytes announce.
pub open spec fn spec_file_packet(data: Seq<u8>) -> Option<Seq<u8>> {
    match spec_sniff_format(data) {
        Some(ImageFormat::Png) => spec_png_xmp_bytes(data),
        Some(ImageFormat::Jpeg) => match spec_jpeg_xmp_bytes(data) {
            Some(bytes) => if vstd::utf8::valid_utf8(bytes) {
                Some(bytes)
            } else {
                None
            },
            None => None,
        },
        _ => None,
    }
}

impl ImageMetadata {
    /// A copy that holds the same values.
    pub fn duplicate(&self) -> (copy: ImageMetadata)
        ensures
            copy@ == self@,
    {
        ImageMetadata {
            width: self.width,
            height: self.height,
            file_size: self.file_size,
            mime_type: self.mime_type.clone(),
            rating: self.rating,
            exif_info: match &self.exif_info {
                Some(info) => Some(info.duplicate()),
                None => None,
            },
            sd_parameters: match &self.sd_parameters {
                Some(parameters) => Some(parameters.duplicate()),
                None => None,
            },
        }
    }

    /// Puts the metadata of a file together from its bytes, the dates and
    /// rating of its tag container, and the rating of its XMP packet. Where
    /// both ratings are there, that of the tag container counts.
    pub fn assemble(data: &[u8], exif_info: Option<ExifInfo>, xmp_rating: Option<u8>) -> (r: Result<
        ImageMetadata,
        AppError,
    >)
        ensures
            r is Ok == spec_assemble(
                data@,
                spec_exif_view(exif_info),
                crate::cache::spec_rating_of(exif_info),
                xmp_rating,
            ) is Ok,
            r is Ok ==> r->Ok_0@ == spec_assemble(
                data@,
                spec_exif_view(exif_info),
                crate::cache::spec_rating_of(exif_info),
                xmp_rating,
            )->Ok_0,
            r is Err ==> r->Err_0 == spec_assemble(
                data@,
                spec_exif_view(exif_info),
                crate::cache::spec_rating_of(exif_info),
                xmp_rating,
            )->Err_0,
    {
        let format = match sniff_format(data) {
            Some(format) => format,
            None => {
                return Err(AppError::UnsupportedVariant);
            },
        };
        let size = match get_dimensions(data, format) {
            Ok(size) => size,
            Err(e) => {
                return Err(e);
            },
        };
        let sd_parameters = match format {
            ImageFormat::Png => read_png_sd_parameters_from_bytes(data),
            _ => None,
        };
        let exif_rating = match &exif_info {
            Some(info) => info.rating,
            None => None,
        };
        Ok(
            ImageMetadata {
                width: size.width,
                height: size.height,
                file_size: data.len() as u64,
                mime_type: mime_type_of(Some(format)),
                rating: resolve_rating(exif_rating, xmp_rating),
                exif_info,
                sd_parameters,
            },
        )
    }

    /// Reads the metadata of a file from its bytes and the fields of its tag
    /// container. The path must not be empty. The rating of the XMP packet
    /// is read through the XMP engine, so the result is the one that
    /// `assemble` gives for some rating of the packet, at most five, and for
    /// no rating where the file carries no packet.
    pub fn from_bytes(path: &str, data: &[u8], exif_fields: &Vec<ExifField>) -> (r: Result<
        ImageMetadata,
        AppError,
    >)
        ensures
            path@.len() == 0 ==> r == Err::<ImageMetadata, AppError>(
                AppError::InvalidInput(InvalidInput::EmptyPath),
            ),
            path@.len() > 0 ==> exists|xmp_rating: Option<u8>|
                {
                    &&& (xmp_rating is Some ==> xmp_rating->0 <= MAX_RATING)
                    &&& (spec_file_packet(data@) is None ==> xmp_rating is None)
                    &&& (#[trigger] spec_assemble(
                        data@,
                        spec_extract_exif_info(exif_fields@),
                        crate::exif::spec_exif_rating(exif_fields@),
                        xmp_rating,
                    )) is Ok == r is Ok
                    &&& r is Ok ==> r->Ok_0@ == spec_assemble(
                        data@,
                        spec_extract_exif_info(exif_fields@),
                        crate::exif::spec_exif_rating(exif_fields@),
                        xmp_rating,
                    )->Ok_0
                    &&& r is Err ==> r->Err_0 == spec_assemble(
                        data@,
                        spec_extract_exif_info(exif_fields@),
                        crate::exif::spec_exif_rating(exif_fields@),
                        xmp_rating,
                    )->Err_0
                },
    {
        if chars_of(path).len() == 0 {
            return Err(AppError::InvalidInput(InvalidInput::EmptyPath));
        }
        let packet = match sniff_format(data) {
            Some(ImageFormat::Png) => extract_xmp_from_png(data),
            Some(ImageFormat::Jpeg) => extract_xmp_from_jpeg(data),
            _ => None,
        };
        let xmp_rating = match packet {
            Some(text) => read_xmp_rating(text.as_str()),
            None => None,
        };
        let exif_info = extract_exif_info(exif_fields);
        let r = ImageMetadata::assemble(data, exif_info, xmp_rating);
        proof {
            let witness = spec_assemble(
                data@,
                spec_extract_exif_info(exif_fields@),
                crate::exif::spec_exif_rating(exif_fields@),
                xmp_rating,
            );
            assert(spec_exif_view(exif_info) == spec_extract_exif_info(exif_fields@));
            assert(crate::cache::spec_rating_of(exif_info) == crate::exif::spec_exif_rating(
                exif_fields@,
            ));
            assert(witness is Ok == r is Ok);
        }
        r
    }
}

/// Whether the metadata of a file can be put together does not depend on its
/// generation parameters: a file whose format and size can be read has
/// metadata, with or without parameters that can be parsed.
pub proof fn lemma_read_succeeds_without_parameters(
    data: Seq<u8>,
    exif_info: Option<ExifInfoView>,
    exif_rating: Option<u8>,
    xmp_rating: Option<u8>,
)
    ensures
        spec_assemble(data, exif_info, exif_rating, xmp_rating) is Ok <==> spec_sniff_format(
            data,
        ) is Some && spec_dimensions(data, spec_sniff_format(data)->0) is Ok,
        spec_assemble(data, exif_info, exif_rating, xmp_rating) is Ok && spec_extract_sd_parameters(
            data,
        ) is Err ==> spec_assemble(data, exif_info, exif_rating, xmp_rating)->Ok_0.sd_parameters
            is None,
{
}

/// The rating of metadata is at most five where both ratings that went into
/// it are.
pub proof fn lemma_rating_in_range(
    data: Seq<u8>,
    exif_info: Option<ExifInfoView>,
    exif_rating: Option<u8>,
    xmp_rating: Option<u8>,
)
    requires
        exif_rating is Some ==> exif_rating->0 <= MAX_RATING,
        xmp_rating is Some ==> xmp_rating->0 <= MAX_RATING,
        spec_assemble(data, exif_info, exif_rating, xmp_rating) is Ok,
    ensures
        spec_assemble(data, exif_info, exif_rating, xmp_rating)->Ok_0.rating is Some
            ==> spec_assemble(data, exif_info, exif_rating, xmp_rating)->Ok_0.rating->0
            <= MAX_RATING,
{
}

/// The metadata of one file as the metadata cache keeps it.
#[derive(Clone, Debug, PartialEq, Eq)]
pub struct CacheEntry {
    pub path: String,
    pub file_size: u64,
    pub modified_time: u64,
    pub image_metadata: ImageMetadata,
    /// When the entry was made, in seconds since the start of 1970.
    pub cached_at: u64,
}

/// For how many seconds an entry is kept when the cache is loaded: 30 days.
pub const RETENTION_SECONDS: u64 = 2592000;

/// The index of the entry for `path` among `entries[..upto]`, or -1.
pub open spec fn spec_position(entries: Seq<CacheEntry>, path: Seq<char>, upto: int) -> int
    decreases upto,
{
    if upto <= 0 {
        -1
    } else if entries[upto - 1].path@ == path {
        upto - 1
    } else {
        spec_position(entries, path, upto - 1)
    }
}

/// The entries of `entries[..upto]` that were made after `cutoff`, in order.
pub open spec fn spec_retained(entries: Seq<CacheEntry>, cutoff: u64, upto: int) -> Seq<CacheEntry>
    decreases upto,
{
    if upto <= 0 {
        Seq::empty()
    } else if entries[upto - 1].cached_at > cutoff {
        spec_retained(entries, cutoff, upto - 1).push(entries[upto - 1])
    } else {
        spec_retained(entries, cutoff, upto - 1)
    }
}

/// The time before which entries are dropped, for a cache loaded at `now`.
pub open spec fn spec_cutoff(now: u64) -> u64 {
    if now >= RETENTION_SECONDS {
        (now - RETENTION_SECONDS) as u64
    } else {
        0
    }
}

/// The last of the entries `entries[..upto]` that has the path `path`.
pub open spec fn spec_last_entry(entries: Seq<CacheEntry>, path: Seq<char>, upto: int) -> Option<
    CacheEntry,
>
    decreases upto,
{
    if upto <= 0 {
        None
    } else if entries[upto - 1].path@ == path {
        Some(entries[upto - 1])
    } else {
        spec_last_entry(entries, path, upto - 1)
    }
}

/// The entry that a cache loaded from `entries` holds for `path`: the last
/// entry for the path, if it was made after `cutoff`.
pub open spec fn spec_loaded_entry(entries: Seq<CacheEntry>, path: Seq<char>, cutoff: u64) -> Option<
    CacheEntry,
> {
    match spec_last_entry(entries, path, entries.len() as int) {
        Some(entry) => if entry.cached_at > cutoff {
            Some(entry)
        } else {
            None
        },
        None => None,
    }
}

/// The metadata of the files that were read before, by path. It lives as
/// long as the process and is written out once, when the process ends.
#[derive(Clone, Debug, PartialEq, Eq)]
pub struct MetadataCache {
    entries: Vec<CacheEntry>,
}

impl MetadataCache {
    /// The entries of the cache.
    pub closed spec fn spec_entries(self) -> Seq<CacheEntry> {
        self.entries@
    }

    /// No path has two entries.
    pub open spec fn spec_well_formed(self) -> bool {
        forall|i: int, j: int|
            0 <= i < j < self.spec_entries().len() ==> (#[trigger] self.spec_entries()[i]).path@
                != (#[trigger] self.spec_entries()[j]).path@
    }

    /// The entry for `path`, if there is one.
    pub open spec fn spec_get(self, path: Seq<char>) -> Option<CacheEntry> {
        let at = spec_position(self.spec_entries(), path, self.spec_entries().len() as int);
        if at >= 0 {
            Some(self.spec_entries()[at])
        } else {
            None
        }
    }

    /// An empty cache.
    pub fn new() -> (cache: MetadataCache)
        ensures
            cache.spec_entries().len() == 0,
            cache.spec_well_formed(),
    {
        MetadataCache { entries: Vec::new() }
    }

    /// The entries of the cache, to be written out. There is nothing to
    /// write for an empty cache.
    pub fn entries(&self) -> (entries: &Vec<CacheEntry>)
        ensures
            entries@ == self.spec_entries(),
    {
        &self.entries
    }

    pub fn is_empty(&self) -> (empty: bool)
        ensures
            empty == (self.spec_entries().len() == 0),
    {
        self.entries.len() == 0
    }

    fn position(&self, path: &str) -> (at: Option<usize>)
        ensures
            match at {
                Some(i) => i as int == spec_position(
                    self.spec_entries(),
                    path@,
                    self.spec_entries().len() as int,
                ) && i < self.spec_entries().len() && self.spec_entries()[i as int].path@ == path@,
                None => spec_position(self.spec_entries(), path@, self.spec_entries().len() as int)
                    == -1 && forall|k: int|
                    0 <= k < self.spec_entries().len() ==> (#[trigger] self.spec_entries()[k]).path@
                        != path@,
            },
    {
        let wanted = chars_of(path);
        let mut i: usize = self.entries.len();
        while i > 0
            invariant
                i <= self.entries.len(),
                wanted@ == path@,
                spec_position(self.entries@, path@, self.entries.len() as int) == spec_position(
                    self.entries@,
                    path@,
                    i as int,
                ),
                forall|k: int| i <= k < self.entries.len() ==> (#[trigger] self.entries@[k]).path@
                    != path@,
            decreases i,
        {
            if chars_equal(&chars_of(self.entries[i - 1].path.as_str()), &wanted) {
                return Some(i - 1);
            }
            i -= 1;
        }
        None
    }

    /// The metadata cached for a file, given the size and the time of change
    /// that the file has now, or `None` where these cannot be had. An entry
    /// is served only while both are what they were when it was made; an
    /// entry that is out of date is dropped.
    pub fn get_metadata(&mut self, file_path: &str, current: Option<(u64, u64)>) -> (found: Option<
        ImageMetadata,
    >)
        requires
            old(self).spec_well_formed(),
        ensures
            final(self).spec_well_formed(),
            match old(self).spec_get(file_path@) {
                None => found is None && final(self).spec_entries() == old(self).spec_entries(),
                Some(entry) => if current == Some((entry.file_size, entry.modified_time)) {
                    &&& found is Some
                    &&& found->0@ == entry.image_metadata@
                    &&& final(self).spec_entries() == old(self).spec_entries()
                } else {
                    &&& found is None
                    &&& final(self).spec_get(file_path@) is None
                    &&& final(self).spec_entries() == old(self).spec_entries().remove(
                        spec_position(
                            old(self).spec_entries(),
                            file_path@,
                            old(self).spec_entries().len() as int,
                        ),
                    )
                },
            },
            forall|other: Seq<char>|
                other != file_path@ ==> #[trigger] final(self).spec_get(other)
                    == old(self).spec_get(other),
    {
        let at = match self.position(file_path) {
            Some(at) => at,
            None => {
                return None;
            },
        };
        let unchanged = match current {
            Some((file_size, modified_time)) => self.entries[at].file_size == file_size
                && self.entries[at].modified_time == modified_time,
            None => false,
        };
        if unchanged {
            return Some(self.entries[at].image_metadata.duplicate());
        }
        let ghost before = self.entries@;
        self.entries.remove(at);
        proof {
            let after = self.entries@;
            assert(after =~= before.remove(at as int));
            assert forall|i: int, j: int| 0 <= i < j < after.len() implies (#[trigger] after[i]).path@
                != (#[trigger] after[j]).path@ by {
                let oi = if i < at {
                    i
                } else {
                    i + 1
                };
                let oj = if j < at {
                    j
                } else {
                    j + 1
                };
                assert(after[i] == before[oi]);
                assert(after[j] == before[oj]);
            }
            assert forall|k: int| 0 <= k < after.len() implies (#[trigger] after[k]).path@
                != file_path@ by {
                let ok = if k < at {
                    k
                } else {
                    k + 1
                };
                assert(after[k] == before[ok]);
                assert(before[at as int].path@ == file_path@);
            }
            lemma_position_absent(after, file_path@, after.len() as int);
            assert forall|other: Seq<char>| other != file_path@ implies #[trigger] self.spec_get(
                other,
            ) == old(self).spec_get(other) by {
                lemma_position_bounds(before, other, before.len() as int);
                lemma_position_after_remove(before, at as int, other, before.len() as int);
            }
        }
        None
    }

    /// Forgets what is kept for a file, as after a write to it.
    pub fn invalidate(&mut self, file_path: &str)
        requires
            old(self).spec_well_formed(),
        ensures
            final(self).spec_well_formed(),
            final(self).spec_get(file_path@) is None,
            forall|other: Seq<char>|
                other != file_path@ ==> #[trigger] final(self).spec_get(other)
                    == old(self).spec_get(other),
    {
        let _ = self.get_metadata(file_path, None);
    }

    /// Keeps the metadata of a file, with the size and the time of change
    /// that the file has now and the time of now. What was kept for the path
    /// before is replaced.
    pub fn store_metadata(
        &mut self,
        file_path: String,
        image_metadata: ImageMetadata,
        file_size: u64,
        modified_time: u64,
        now: u64,
    )
        requires
            old(self).spec_well_formed(),
        ensures
            final(self).spec_well_formed(),
            final(self).spec_get(file_path@) == Some(
                CacheEntry { path: file_path, file_size, modified_time, image_metadata, cached_at: now },
            ),
            forall|other: Seq<char>|
                other != file_path@ ==> #[trigger] final(self).spec_get(other)
                    == old(self).spec_get(other),
    {
        self.insert(
            CacheEntry { path: file_path, file_size, modified_time, image_metadata, cached_at: now },
        );
    }

    /// Keeps an entry as it is, in place of what was kept for its path.
    pub fn insert(&mut self, entry: CacheEntry)
        requires
            old(self).spec_well_formed(),
        ensures
            final(self).spec_well_formed(),
            final(self).spec_get(entry.path@) == Some(entry),
            forall|other: Seq<char>|
                other != entry.path@ ==> #[trigger] final(self).spec_get(other)
                    == old(self).spec_get(other),
            final(self).spec_entries() == if old(self).spec_get(entry.path@) is Some {
                old(self).spec_entries().update(
                    spec_position(
                        old(self).spec_entries(),
                        entry.path@,
                        old(self).spec_entries().len() as int,
                    ),
                    entry,
                )
            } else {
                old(self).spec_entries().push(entry)
            },
    {
        let ghost before = self.entries@;
        match self.position(entry.path.as_str()) {
            Some(at) => {
                self.entries.set(at, entry);
                proof {
                    let after = self.entries@;
                    assert forall|i: int, j: int| 0 <= i < j < after.len() implies (
                    #[trigger] after[i]).path@ != (#[trigger] after[j]).path@ by {
                        assert(after[i].path@ == before[i].path@);
                        assert(after[j].path@ == before[j].path@);
                    }
                    lemma_position_found(after, at as int, after.len() as int);
                    assert forall|other: Seq<char>| other != entry.path@ implies #[trigger] self.spec_get(
                        other,
                    ) == old(self).spec_get(other) by {
                        lemma_position_bounds(before, other, before.len() as int);
                        lemma_position_after_set(
                            before,
                            after,
                            at as int,
                            other,
                            before.len() as int,
                        );
                    }
                }
            },
            None => {
                self.entries.push(entry);
                proof {
                    let after = self.entries@;
                    assert forall|i: int, j: int| 0 <= i < j < after.len() implies (
                    #[trigger] after[i]).path@ != (#[trigger] after[j]).path@ by {
                        if j < before.len() {
                            assert(after[i] == before[i]);
                            assert(after[j] == before[j]);
                        } else {
                            assert(after[i] == before[i]);
                        }
                    }
                    assert forall|other: Seq<char>| other != entry.path@ implies #[trigger] self.spec_get(
                        other,
                    ) == old(self).spec_get(other) by {
                        lemma_position_bounds(before, other, before.len() as int);
                        lemma_position_prefix(before, after, other, before.len() as int);
                    }
                }
            },
        }
    }

    /// The cache that is loaded at the time `now` from the entries that were
    /// written out: for each path the last entry counts, and it is kept only
    /// if it was made less than 30 days before `now`.
    pub fn load(entries: Vec<CacheEntry>, now: u64) -> (cache: MetadataCache)
        ensures
            cache.spec_well_formed(),
            forall|path: Seq<char>| #[trigger]
                cache.spec_get(path) == spec_loaded_entry(entries@, path, spec_cutoff(now)),
    {
        let mut cache = MetadataCache::new();
        let mut entries = entries;
        let ghost all = entries@;
        let ghost mut taken: int = 0;
        proof {
            assert forall|path: Seq<char>| #[trigger]
                cache.spec_get(path) == spec_last_entry(all, path, 0) by {}
        }
        while entries.len() > 0
            invariant
                0 <= taken <= all.len(),
                entries@ == all.subrange(taken, all.len() as int),
                cache.spec_well_formed(),
                forall|path: Seq<char>| #[trigger]
                    cache.spec_get(path) == spec_last_entry(all, path, taken),
            decreases entries.len(),
        {
            let entry = entries.remove(0);
            assert(entry == all[taken]);
            assert(entries@ =~= all.subrange(taken + 1, all.len() as int));
            cache.insert(entry);
            proof {
                taken = taken + 1;
            }
        }
        let ghost full = cache;
        assert(taken == all.len());
        cache.retain_recent(now);
        proof {
            assert forall|path: Seq<char>| #[trigger]
                cache.spec_get(path) == spec_loaded_entry(all, path, spec_cutoff(now)) by {
                assert(full.spec_get(path) == spec_last_entry(all, path, all.len() as int));
                lemma_position_bounds(full.spec_entries(), path, full.spec_entries().len() as int);
                lemma_retained_get(
                    full.spec_entries(),
                    path,
                    spec_cutoff(now),
                    full.spec_entries().len() as int,
                );
            }
        }
        cache
    }

    /// Drops the entries that are too old for a cache loaded at `now`: those
    /// made 30 days before `now` or earlier. The others stay, in order.
    pub fn retain_recent(&mut self, now: u64)
        requires
            old(self).spec_well_formed(),
        ensures
            final(self).spec_well_formed(),
            final(self).spec_entries() == spec_retained(
                old(self).spec_entries(),
                spec_cutoff(now),
                old(self).spec_entries().len() as int,
            ),
    {
        let cutoff: u64 = if now >= RETENTION_SECONDS {
            now - RETENTION_SECONDS
        } else {
            0
        };
        let ghost before = self.entries@;
        let ghost mut seen: int = 0;
        let mut i: usize = 0;
        assert(self.entries@ =~= spec_retained(before, cutoff, 0) + before.subrange(
            0,
            before.len() as int,
        ));
        while i < self.entries.len()
            invariant
                0 <= seen <= before.len(),
                i <= self.entries.len(),
                i == spec_retained(before, cutoff, seen).len(),
                self.entries@ == spec_retained(before, cutoff, seen) + before.subrange(
                    seen,
                    before.len() as int,
                ),
            decreases self.entries.len() - i,
        {
            let ghost current = self.entries@;
            assert(current[i as int] == before[seen]);
            if self.entries[i].cached_at > cutoff {
                assert(current =~= spec_retained(before, cutoff, seen + 1) + before.subrange(
                    seen + 1,
                    before.len() as int,
                ));
                i += 1;
            } else {
                self.entries.remove(i);
                assert(self.entries@ =~= spec_retained(before, cutoff, seen + 1) + before.subrange(
                    seen + 1,
                    before.len() as int,
                ));
            }
            proof {
                seen = seen + 1;
            }
        }
        proof {
            assert(seen == before.len());
            assert(self.entries@ =~= spec_retained(before, cutoff, before.len() as int));
            lemma_retained_distinct(before, cutoff, before.len() as int);
        }
    }
}

proof fn lemma_retained_distinct(entries: Seq<CacheEntry>, cutoff: u64, upto: int)
    requires
        0 <= upto <= entries.len(),
        forall|i: int, j: int|
            0 <= i < j < entries.len() ==> (#[trigger] entries[i]).path@ != (
            #[trigger] entries[j]).path@,
    ensures
        forall|k: int|
            0 <= k < spec_retained(entries, cutoff, upto).len() ==> exists|m: int|
                0 <= m < upto && #[trigger] spec_retained(entries, cutoff, upto)[k] == entries[m],
        forall|k: int, l: int|
            0 <= k < l < spec_retained(entries, cutoff, upto).len() ==> (#[trigger] spec_retained(
                entries,
                cutoff,
                upto,
            )[k]).path@ != (#[trigger] spec_retained(entries, cutoff, upto)[l]).path@,
    decreases upto,
{
    if upto > 0 {
        lemma_retained_distinct(entries, cutoff, upto - 1);
        let shorter = spec_retained(entries, cutoff, upto - 1);
        let all = spec_retained(entries, cutoff, upto);
        assert forall|k: int| 0 <= k < all.len() implies exists|m: int|
            0 <= m < upto && #[trigger] all[k] == entries[m] by {
            if k < shorter.len() {
                let m = choose|m: int| 0 <= m < upto - 1 && shorter[k] == entries[m];
                assert(all[k] == entries[m]);
            } else {
                assert(all[k] == entries[upto - 1]);
            }
        }
        assert forall|k: int, l: int| 0 <= k < l < all.len() implies (#[trigger] all[k]).path@ != (
        #[trigger] all[l]).path@ by {
            if l < shorter.len() {
                assert(all[k] == shorter[k]);
                assert(all[l] == shorter[l]);
            } else {
                let m = choose|m: int| 0 <= m < upto - 1 && shorter[k] == entries[m];
                assert(all[k] == entries[m]);
                assert(all[l] == entries[upto - 1]);
            }
        }
    }
}

/// In a list without two entries for one path, the entry found for a path
/// among those kept is the entry found among all, if that one is kept.
proof fn lemma_retained_get(entries: Seq<CacheEntry>, path: Seq<char>, cutoff: u64, upto: int)
    requires
        0 <= upto <= entries.len(),
        forall|i: int, j: int|
            0 <= i < j < entries.len() ==> (#[trigger] entries[i]).path@ != (
            #[trigger] entries[j]).path@,
    ensures
        ({
            let kept = spec_retained(entries, cutoff, upto);
            let at = spec_position(entries, path, upto);
            let kept_at = spec_position(kept, path, kept.len() as int);
            if at >= 0 && entries[at].cached_at > cutoff {
                kept_at >= 0 && kept[kept_at] == entries[at]
            } else {
                kept_at == -1
            }
        }),
    decreases upto,
{
    if upto > 0 {
        let kept = spec_retained(entries, cutoff, upto);
        let shorter = spec_retained(entries, cutoff, upto - 1);
        let last = entries[upto - 1];
        lemma_retained_get(entries, path, cutoff, upto - 1);
        lemma_retained_distinct(entries, cutoff, upto - 1);
        lemma_position_bounds(entries, path, upto - 1);
        if last.path@ == path {
            assert(spec_position(entries, path, upto - 1) == -1) by {
                if spec_position(entries, path, upto - 1) >= 0 {
                    let other = spec_position(entries, path, upto - 1);
                    assert(entries[other].path@ == entries[upto - 1].path@);
                }
            }
            assert(spec_position(shorter, path, shorter.len() as int) == -1);
            if last.cached_at > cutoff {
                assert(kept =~= shorter.push(last));
                assert(kept[kept.len() - 1] == last);
                assert(spec_position(kept, path, kept.len() as int) == kept.len() - 1);
            } else {
                assert(kept =~= shorter);
            }
        } else if last.cached_at > cutoff {
            assert(kept =~= shorter.push(last));
            assert(kept[kept.len() - 1] == last);
            lemma_position_same_below(shorter, kept, path, shorter.len() as int);
            lemma_position_bounds(shorter, path, shorter.len() as int);
            assert(spec_position(kept, path, kept.len() as int) == spec_position(
                shorter,
                path,
                shorter.len() as int,
            ));
            if spec_position(shorter, path, shorter.len() as int) >= 0 {
                assert(kept[spec_position(shorter, path, shorter.len() as int)]
                    == shorter[spec_position(shorter, path, shorter.len() as int)]);
            }
        } else {
            assert(kept =~= shorter);
        }
    }
}

proof fn lemma_position_bounds(entries: Seq<CacheEntry>, path: Seq<char>, upto: int)
    requires
        0 <= upto <= entries.len(),
    ensures
        -1 <= spec_position(entries, path, upto) < upto,
        spec_position(entries, path, upto) >= 0 ==> entries[spec_position(
            entries,
            path,
            upto,
        )].path@ == path,
    decreases upto,
{
    if upto > 0 {
        lemma_position_bounds(entries, path, upto - 1);
    }
}

proof fn lemma_position_absent(entries: Seq<CacheEntry>, path: Seq<char>, upto: int)
    requires
        0 <= upto <= entries.len(),
        forall|k: int| 0 <= k < entries.len() ==> (#[trigger] entries[k]).path@ != path,
    ensures
        spec_position(entries, path, upto) == -1,
    decreases upto,
{
    if upto > 0 {
        lemma_position_absent(entries, path, upto - 1);
    }
}

proof fn lemma_position_found(entries: Seq<CacheEntry>, at: int, upto: int)
    requires
        0 <= at < upto <= entries.len(),
        forall|k: int| at < k < entries.len() ==> (#[trigger] entries[k]).path@ != entries[at].path@,
    ensures
        spec_position(entries, entries[at].path@, upto) == at,
    decreases upto,
{
    if upto - 1 > at {
        lemma_position_found(entries, at, upto - 1);
    }
}

proof fn lemma_position_prefix(
    before: Seq<CacheEntry>,
    after: Seq<CacheEntry>,
    path: Seq<char>,
    upto: int,
)
    requires
        0 <= upto <= before.len(),
        after.len() == before.len() + 1,
        forall|k: int| 0 <= k < before.len() ==> after[k] == before[k],
        after[before.len() as int].path@ != path,
    ensures
        spec_position(after, path, upto) == spec_position(before, path, upto),
        upto == before.len() ==> spec_position(after, path, after.len() as int) == spec_position(
            before,
            path,
            before.len() as int,
        ),
    decreases upto,
{
    if upto > 0 {
        lemma_position_prefix(before, after, path, upto - 1);
    }
}

proof fn lemma_position_after_set(
    before: Seq<CacheEntry>,
    after: Seq<CacheEntry>,
    at: int,
    path: Seq<char>,
    upto: int,
)
    requires
        0 <= at < before.len(),
        0 <= upto <= before.len(),
        after.len() == before.len(),
        forall|k: int| 0 <= k < before.len() && k != at ==> after[k] == before[k],
        before[at].path@ != path,
        after[at].path@ != path,
    ensures
        spec_position(after, path, upto) == spec_position(before, path, upto),
    decreases upto,
{
    if upto > 0 {
        lemma_position_after_set(before, after, at, path, upto - 1);
    }
}

proof fn lemma_position_after_remove(before: Seq<CacheEntry>, at: int, path: Seq<char>, upto: int)
    requires
        0 <= at < before.len(),
        at < upto <= before.len(),
        before[at].path@ != path,
    ensures
        ({
            let after = before.remove(at);
            let old_at = spec_position(before, path, upto);
            let new_at = spec_position(after, path, upto - 1);
            if old_at < 0 {
                new_at < 0
            } else {
                new_at >= 0 && after[new_at] == before[old_at]
            }
        }),
    decreases upto,
{
    let after = before.remove(at);
    if before[upto - 1].path@ == path {
        assert(after[upto - 2] == before[upto - 1]);
    } else if upto - 1 > at {
        assert(after[upto - 2] == before[upto - 1]);
        lemma_position_after_remove(before, at, path, upto - 1);
    } else {
        lemma_position_bounds(before, path, at);
        lemma_position_same_below(before, after, path, at);
    }
}

proof fn lemma_position_same_below(
    before: Seq<CacheEntry>,
    after: Seq<CacheEntry>,
    path: Seq<char>,
    upto: int,
)
    requires
        0 <= upto <= before.len(),
        upto <= after.len(),
        forall|k: int| 0 <= k < upto ==> after[k] == before[k],
    ensures
        spec_position(after, path, upto) == spec_position(before, path, upto),
    decreases upto,
{
    if upto > 0 {
        lemma_position_same_below(before, after, path, upto - 1);
    }
}

} // verus!
