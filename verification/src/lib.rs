//! Metadata and thumbnail-cache engine for an image browser: byte-level
//! readers for PNG, JPEG and WebP, the rating codec over EXIF fields and XMP
//! packets, the parser of generation parameters, and the decisions of the
//! thumbnail and metadata caches.

pub mod bytes;
pub mod cache;
pub mod error;
pub mod exif;
pub mod format;
pub mod jpeg;
pub mod lock;
pub mod metadata;
pub mod png;
pub mod png_text;
pub mod png_xmp;
pub mod rating;
pub mod sd_parameters;
pub mod text;
pub mod thumbnail;
pub mod xmp;
pub mod xmp_engine;
