//! The star rating and the percent that is stored beside it.

use vstd::prelude::*;
use crate::error::AppError;
use crate::error::InvalidInput;

verus! {

/// The highest rating.
pub const MAX_RATING: u32 = 5;

/// The percent stored beside a rating: 0, 1, 25, 50, 75 and 99 for the
/// ratings zero to five, and 0 for any other number.
pub open spec fn spec_rating_to_percent(rating: u32) -> u32 {
    if rating == 1 {
        1
    } else if rating == 2 {
        25
    } else if rating == 3 {
        50
    } else if rating == 4 {
        75
    } else if rating == 5 {
        99
    } else {
        0
    }
}

pub fn rating_to_percent(rating: u32) -> (percent: u32)
    ensures
        percent == spec_rating_to_percent(rating),
{
    if rating == 1 {
        1
    } else if rating == 2 {
        25
    } else if rating == 3 {
        50
    } else if rating == 4 {
        75
    } else if rating == 5 {
        99
    } else {
        0
    }
}

/// The rating that a percent stands for: 0 for 0, one for 1 to 24, two for 25
/// to 49, three for 50 to 74, four for 75 to 98, five for 99 and 100, and 0
/// for any percent above 100.
pub open spec fn spec_percent_to_rating(percent: u32) -> u8 {
    if percent == 0 {
        0
    } else if percent <= 24 {
        1
    } else if percent <= 49 {
        2
    } else if percent <= 74 {
        3
    } else if percent <= 98 {
        4
    } else if percent <= 100 {
        5
    } else {
        0
    }
}

pub fn percent_to_rating(percent: u32) -> (rating: u8)
    ensures
        rating == spec_percent_to_rating(percent),
        rating <= MAX_RATING,
{
    if percent == 0 {
        0
    } else if percent <= 24 {
        1
    } else if percent <= 49 {
        2
    } else if percent <= 74 {
        3
    } else if percent <= 98 {
        4
    } else if percent <= 100 {
        5
    } else {
        0
    }
}

/// A rating of zero to five, stored as its percent and read back from the
/// percent alone, is the same rating.
pub proof fn lemma_percent_round_trip(rating: u32)
    requires
        rating <= MAX_RATING,
    ensures
        spec_percent_to_rating(spec_rating_to_percent(rating)) == rating,
{
}

/// The rating that goes into a file: `rating` itself where it is at most
/// five.
pub fn validate_rating(rating: u32) -> (r: Result<u8, AppError>)
    ensures
        rating <= MAX_RATING ==> r == Ok::<u8, AppError>(rating as u8),
        rating > MAX_RATING ==> r == Err::<u8, AppError>(
            AppError::InvalidInput(InvalidInput::OutOfRange),
        ),
{
    if rating > MAX_RATING {
        Err(AppError::InvalidInput(InvalidInput::OutOfRange))
    } else {
        Ok(rating as u8)
    }
}

/// The rating of an image of which both encodings were read: the one that
/// the tag container holds where it holds one, else that of the packet.
pub open spec fn spec_resolve_rating(exif: Option<u8>, xmp: Option<u8>) -> Option<u8> {
    if exif is Some {
        exif
    } else {
        xmp
    }
}

pub fn resolve_rating(exif: Option<u8>, xmp: Option<u8>) -> (rating: Option<u8>)
    ensures
        rating == spec_resolve_rating(exif, xmp),
{
    if exif.is_some() {
        exif
    } else {
        xmp
    }
}

/// How a write of a rating ended, given how its two parts ended. A failure
/// to write the tags is the failure of the whole. A failure to write the
/// packet after the tags were written is no failure, only a warning.
pub open spec fn spec_write_outcome(
    exif: Result<(), AppError>,
    xmp: Result<(), AppError>,
) -> Result<Option<AppError>, AppError> {
    match exif {
        Err(e) => Err(e),
        Ok(_) => match xmp {
            Ok(_) => Ok(None),
            Err(warning) => Ok(Some(warning)),
        },
    }
}

/// Settles how a write of a rating ended: the error of the whole, or
/// success, with the warning to log where the packet could not be written.
pub fn write_outcome(exif: Result<(), AppError>, xmp: Result<(), AppError>) -> (outcome: Result<
    Option<AppError>,
    AppError,
>)
    ensures
        outcome == spec_write_outcome(exif, xmp),
{
    match exif {
        Err(e) => Err(e),
        Ok(_) => match xmp {
            Ok(_) => Ok(None),
            Err(warning) => Ok(Some(warning)),
        },
    }
}

/// What a write of a rating leaves to do, given the file with the tags
/// written and the file with the packet written into that: the bytes to
/// write to the file and the warning to log, or the error of the whole. The
/// bytes are those with both tags and packet where both were written, and
/// those with the tags alone, with the failure of the packet as a warning,
/// where only the tags were. Where the tags were not written nothing is
/// written at all.
pub open spec fn spec_settle_rating_write(
    tagged: Result<Vec<u8>, AppError>,
    packed: Result<Vec<u8>, AppError>,
) -> Result<(Vec<u8>, Option<AppError>), AppError> {
    match tagged {
        Err(e) => Err(e),
        Ok(with_tags) => match packed {
            Ok(with_both) => Ok((with_both, None)),
            Err(warning) => Ok((with_tags, Some(warning))),
        },
    }
}

/// Settles what a write of a rating leaves to do: which bytes go to the
/// file, and with which warning, or with which error the write ends.
pub fn settle_rating_write(
    tagged: Result<Vec<u8>, AppError>,
    packed: Result<Vec<u8>, AppError>,
) -> (settled: Result<(Vec<u8>, Option<AppError>), AppError>)
    ensures
        settled == spec_settle_rating_write(tagged, packed),
{
    match tagged {
        Err(e) => Err(e),
        Ok(with_tags) => match packed {
            Ok(with_both) => Ok((with_both, None)),
            Err(warning) => Ok((with_tags, Some(warning))),
        },
    }
}

/// The bytes are written exactly where the write counts as done, and the
/// warning and the error are those of `spec_write_outcome`.
pub proof fn lemma_settled_write_is_the_outcome(
    tagged: Result<Vec<u8>, AppError>,
    packed: Result<Vec<u8>, AppError>,
)
    ensures
        spec_write_outcome(
            match tagged {
                Ok(_) => Ok(()),
                Err(e) => Err(e),
            },
            match packed {
                Ok(_) => Ok(()),
                Err(e) => Err(e),
            },
        ) == match spec_settle_rating_write(tagged, packed) {
            Ok(write) => Ok::<Option<AppError>, AppError>(write.1),
            Err(e) => Err::<Option<AppError>, AppError>(e),
        },
{
}

} // verus!
