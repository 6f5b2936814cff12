//! What the thumbnail service hands out, and the decisions it takes between
//! reading the cache and making a thumbnail.

use vstd::prelude::*;
use crate::cache::spec_rating_of;
use crate::cache::ImageMetadataCache;
use crate::error::AppError;
use crate::exif::spec_text_of;
use crate::exif::ExifInfo;
use crate::metadata::ImageMetadata;

verus! {

/// A thumbnail as it is handed out.
#[derive(Clone, Debug, PartialEq, Eq)]
pub struct ThumbnailInfo {
    pub data: Vec<u8>,
    pub width: u32,
    pub height: u32,
    pub mime_type: String,
    /// The path of the file in the cache, once the thumbnail is stored.
    pub cache_path: Option<String>,
}

/// A thumbnail that is handed out by its path in the cache alone.
#[derive(Clone, Debug, PartialEq, Eq)]
pub struct ThumbnailPathInfo {
    pub width: u32,
    pub height: u32,
    pub mime_type: String,
    pub cache_path: String,
}

/// A thumbnail together with what was read from the source file in the same
/// pass.
#[derive(Clone, Debug, PartialEq, Eq)]
pub struct ComprehensiveThumbnail {
    pub data: Vec<u8>,
    pub thumbnail_width: u32,
    pub thumbnail_height: u32,
    pub mime_type: String,
    pub cache_path: Option<String>,
    pub original_width: u32,
    pub original_height: u32,
    pub metadata_info: ImageMetadata,
}

/// The rating and dates of a file as kept beside its thumbnail.
#[derive(Clone, Debug, PartialEq, Eq)]
pub struct CachedMetadata {
    pub rating: Option<u8>,
    pub exif_info: Option<ExifInfo>,
    /// When this was made, in seconds since the start of 1970.
    pub cached_at: u64,
}

/// The thumbnail made for one request.
#[derive(Clone, Debug, PartialEq, Eq)]
pub struct AsyncThumbnailResult {
    pub original_path: String,
    pub thumbnail_data: Vec<u8>,
}

/// The outcome for one path of a batch: the record of its thumbnail, or the
/// description of what went wrong.
#[derive(Clone, Debug, PartialEq, Eq)]
pub struct BatchThumbnailResult {
    pub path: String,
    pub metadata_cache: Option<ImageMetadataCache>,
    pub error: Option<String>,
}

impl ThumbnailInfo {
    /// The thumbnail as handed out by its path alone, once it is stored.
    pub fn into_path_info(self) -> (info: Option<ThumbnailPathInfo>)
        ensures
            info is Some == self.cache_path is Some,
            info is Some ==> info->0.width == self.width && info->0.height == self.height
                && info->0.mime_type == self.mime_type && info->0.cache_path == self.cache_path->0,
    {
        match self.cache_path {
            Some(cache_path) => Some(
                ThumbnailPathInfo {
                    width: self.width,
                    height: self.height,
                    mime_type: self.mime_type,
                    cache_path,
                },
            ),
            None => None,
        }
    }
}

impl CachedMetadata {
    /// What is kept of the dates and rating of a tag container at the time
    /// `current_time`.
    pub fn from_exif_info(exif_info: Option<ExifInfo>, current_time: u64) -> (cached: CachedMetadata)
        ensures
            cached.rating == spec_rating_of(exif_info),
            cached.exif_info == exif_info,
            cached.cached_at == current_time,
    {
        let rating = match &exif_info {
            Some(info) => info.rating,
            None => None,
        };
        CachedMetadata { rating, exif_info, cached_at: current_time }
    }
}

impl BatchThumbnailResult {
    /// The outcome of one path: the record where there is one, else the
    /// description of the error.
    pub fn from_outcome(path: String, outcome: Result<ImageMetadataCache, AppError>) -> (result:
        BatchThumbnailResult)
        ensures
            result.path == path,
            match outcome {
                Ok(record) => result.metadata_cache == Some(record) && result.error is None,
                Err(e) => result.metadata_cache is None && spec_text_of(result.error) == Some(
                    e.spec_description(),
                ),
            },
    {
        match outcome {
            Ok(record) => BatchThumbnailResult { path, metadata_cache: Some(record), error: None },
            Err(e) => BatchThumbnailResult {
                path,
                metadata_cache: None,
                error: Some(e.description()),
            },
        }
    }
}

/// What the thumbnail service does next for a request.
#[derive(Clone, Debug, PartialEq, Eq)]
pub enum ThumbnailAction {
    /// The cached thumbnail is handed out as it is.
    Serve(Vec<u8>),
    /// The thumbnail is made from the source file and stored.
    Generate,
}

/// Decides between the cache and a new thumbnail: the cached bytes are
/// served where the thumbnail need not be made anew and its file could be
/// read; in every other case the thumbnail is made.
pub fn next_thumbnail_action(regenerate: bool, cached: Option<Vec<u8>>) -> (action:
    ThumbnailAction)
    ensures
        action == if !regenerate && cached is Some {
            ThumbnailAction::Serve(cached->0)
        } else {
            ThumbnailAction::Generate
        },
{
    if regenerate {
        return ThumbnailAction::Generate;
    }
    match cached {
        Some(data) => ThumbnailAction::Serve(data),
        None => ThumbnailAction::Generate,
    }
}

/// How a decoded image is brought down to the size of a thumbnail.
#[derive(Clone, Copy, Debug, PartialEq, Eq, Structural)]
pub enum ResizePlan {
    /// The image is fitted into the square of side `bound` in one step.
    Direct { bound: u32 },
    /// The image is first fitted, roughly, into the square of side
    /// `intermediate`, and the result into the square of side `bound`.
    Progressive { intermediate: u32, bound: u32 },
}

/// The longer side above which an image is brought down in two steps, and
/// the largest side of the first step.
pub const PROGRESSIVE_THRESHOLD: u32 = 512;

/// The plan for an image of the given size and a thumbnail of side
/// `target_size`: two steps where the longer side is above 512 pixels, the
/// first one to four times the target but at most 512, else one step.
pub open spec fn spec_resize_plan(width: u32, height: u32, target_size: u32) -> ResizePlan {
    if width > PROGRESSIVE_THRESHOLD || height > PROGRESSIVE_THRESHOLD {
        ResizePlan::Progressive {
            intermediate: if target_size * 4 < PROGRESSIVE_THRESHOLD {
                (target_size * 4) as u32
            } else {
                PROGRESSIVE_THRESHOLD
            },
            bound: target_size,
        }
    } else {
        ResizePlan::Direct { bound: target_size }
    }
}

/// Plans how to bring an image down to the size of a thumbnail.
pub fn resize_plan(width: u32, height: u32, target_size: u32) -> (plan: ResizePlan)
    ensures
        plan == spec_resize_plan(width, height, target_size),
{
    if width > PROGRESSIVE_THRESHOLD || height > PROGRESSIVE_THRESHOLD {
        let intermediate: u32 = if target_size < PROGRESSIVE_THRESHOLD / 4 {
            target_size * 4
        } else {
            PROGRESSIVE_THRESHOLD
        };
        ResizePlan::Progressive { intermediate, bound: target_size }
    } else {
        ResizePlan::Direct { bound: target_size }
    }
}

} // verus!
