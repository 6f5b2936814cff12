//! The errors that the library reports.

use vstd::prelude::*;

verus! {

/// Why a block of generation parameters could not be parsed.
#[derive(Clone, Copy, Debug, PartialEq, Eq, Structural)]
pub enum SectionNotFound {
    /// The text is empty or holds white space only.
    Empty,
    /// The marker of the negative prompt is absent.
    NegativePrompt,
    /// The marker of the steps is absent after the negative prompt.
    Steps,
}

/// Why an input was turned away before any work was done.
#[derive(Clone, Copy, Debug, PartialEq, Eq, Structural)]
pub enum InvalidInput {
    /// A rating above five.
    OutOfRange,
    /// A path without characters.
    EmptyPath,
    /// An XMP packet too long for the structure that has to carry it.
    PacketTooLarge,
}

/// The errors of the library, one variant for each kind of failure.
#[derive(Clone, Debug, PartialEq, Eq)]
pub enum AppError {
    /// A file could not be read or written; the text says why.
    IoError(String),
    /// The signature or the first structure of the file is not what the
    /// format asks for.
    MalformedHeader,
    /// The structure that was looked for does not come before the end of the
    /// data.
    SegmentNotFound,
    /// The sub-format is not one that this library reads.
    UnsupportedVariant,
    /// The metadata container could not be read or written; the text says why.
    MetadataDecodeError(String),
    /// The generation parameters lack a section.
    ParseError(SectionNotFound),
    /// The input is not acceptable.
    InvalidInput(InvalidInput),
    /// A cache record could not be read or written; the text says why.
    CacheError(String),
}

impl AppError {
    /// The sentence that describes the error to a caller.
    pub open spec fn spec_description(self) -> Seq<char> {
        match self {
            AppError::IoError(reason) => "File I/O error: "@ + reason@,
            AppError::MalformedHeader => "Malformed image header"@,
            AppError::SegmentNotFound => "Segment not found"@,
            AppError::UnsupportedVariant => "Unsupported image variant"@,
            AppError::MetadataDecodeError(reason) => "Metadata error: "@ + reason@,
            AppError::ParseError(SectionNotFound::Empty) => "Empty parameter string"@,
            AppError::ParseError(SectionNotFound::NegativePrompt) =>
                "\"Negative prompt:\" section not found"@,
            AppError::ParseError(SectionNotFound::Steps) => "\"Steps:\" section not found"@,
            AppError::InvalidInput(InvalidInput::OutOfRange) => "Rating must be in the range 0-5"@,
            AppError::InvalidInput(InvalidInput::EmptyPath) => "Path must not be empty"@,
            AppError::InvalidInput(InvalidInput::PacketTooLarge) => "XMP packet is too large"@,
            AppError::CacheError(reason) => "Cache error: "@ + reason@,
        }
    }

    pub fn description(&self) -> (text: String)
        ensures
            text@ == self.spec_description(),
    {
        match self {
            AppError::IoError(reason) => "File I/O error: ".to_string().concat(reason.as_str()),
            AppError::MalformedHeader => "Malformed image header".to_string(),
            AppError::SegmentNotFound => "Segment not found".to_string(),
            AppError::UnsupportedVariant => "Unsupported image variant".to_string(),
            AppError::MetadataDecodeError(reason) => "Metadata error: ".to_string().concat(
                reason.as_str(),
            ),
            AppError::ParseError(SectionNotFound::Empty) => "Empty parameter string".to_string(),
            AppError::ParseError(SectionNotFound::NegativePrompt) =>
                "\"Negative prompt:\" section not found".to_string(),
            AppError::ParseError(SectionNotFound::Steps) => "\"Steps:\" section not found".to_string(),
            AppError::InvalidInput(InvalidInput::OutOfRange) =>
                "Rating must be in the range 0-5".to_string(),
            AppError::InvalidInput(InvalidInput::EmptyPath) => "Path must not be empty".to_string(),
            AppError::InvalidInput(InvalidInput::PacketTooLarge) =>
                "XMP packet is too large".to_string(),
            AppError::CacheError(reason) => "Cache error: ".to_string().concat(reason.as_str()),
        }
    }
}

} // verus!
