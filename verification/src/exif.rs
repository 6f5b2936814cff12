//! Capture dates and rating as a tag container holds them. The container is
//! handed over as a list of fields, each a tag number with its value.

use vstd::prelude::*;
use crate::error::AppError;
use crate::error::InvalidInput;
use crate::rating::percent_to_rating;
use crate::rating::rating_to_percent;
use crate::rating::spec_percent_to_rating;
use crate::rating::spec_rating_to_percent;
use crate::rating::MAX_RATING;
use crate::text::chars_of;
use crate::text::parse_unsigned;
use crate::text::spec_parse_unsigned;

verus! {

/// Tag number of the rating.
pub const TAG_RATING: u16 = 18246;

/// Tag number of the rating percent.
pub const TAG_RATING_PERCENT: u16 = 18249;

/// Tag number of the date at which the picture was taken.
pub const TAG_DATE_TIME_ORIGINAL: u16 = 36867;

/// Tag number of the date at which the picture was stored in digital form.
pub const TAG_DATE_TIME_DIGITIZED: u16 = 36868;

/// Tag number of the date at which the file was last changed.
pub const TAG_DATE_TIME: u16 = 306;

/// The value of one field.
#[derive(Clone, Debug, PartialEq, Eq)]
pub enum ExifValue {
    Text(String),
    Bytes(Vec<u8>),
    Shorts(Vec<u16>),
    Longs(Vec<u32>),
    /// A value of a type that carries neither a date nor a rating.
    Other,
}

/// One field of a tag container.
#[derive(Clone, Debug, PartialEq, Eq)]
pub struct ExifField {
    pub tag_id: u16,
    pub value: ExifValue,
}

/// The dates and the rating found in a tag container.
#[derive(Clone, Debug, PartialEq, Eq)]
pub struct ExifInfo {
    pub date_time_original: Option<String>,
    pub create_date: Option<String>,
    pub modify_date: Option<String>,
    pub rating: Option<u8>,
}

/// What an `ExifInfo` holds, as plain values.
pub struct ExifInfoView {
    pub date_time_original: Option<Seq<char>>,
    pub create_date: Option<Seq<char>>,
    pub modify_date: Option<Seq<char>>,
    pub rating: Option<u8>,
}

/// The characters of an optional string.
pub open spec fn spec_text_of(text: Option<String>) -> Option<Seq<char>> {
    match text {
        Some(s) => Some(s@),
        None => None,
    }
}

impl View for ExifInfo {
    type V = ExifInfoView;

    open spec fn view(&self) -> ExifInfoView {
        ExifInfoView {
            date_time_original: spec_text_of(self.date_time_original),
            create_date: spec_text_of(self.create_date),
            modify_date: spec_text_of(self.modify_date),
            rating: self.rating,
        }
    }
}

/// The rating that one field states directly: the field has the tag of the
/// rating and its first number, or its text read as a decimal number, is at
/// most five.
pub open spec fn spec_direct_rating(field: ExifField) -> Option<u8> {
    if field.tag_id != TAG_RATING {
        None
    } else {
        match field.value {
            ExifValue::Text(s) => match spec_parse_unsigned(s@, MAX_RATING as nat) {
                Some(n) => Some(n as u8),
                None => None,
            },
            ExifValue::Bytes(v) => if v@.len() > 0 && v@[0] <= MAX_RATING {
                Some(v@[0])
            } else {
                None
            },
            ExifValue::Shorts(v) => if v@.len() > 0 && v@[0] <= MAX_RATING {
                Some(v@[0] as u8)
            } else {
                None
            },
            ExifValue::Longs(v) => if v@.len() > 0 && v@[0] <= MAX_RATING {
                Some(v@[0] as u8)
            } else {
                None
            },
            ExifValue::Other => None,
        }
    }
}

/// The rating that one field states as a percent: the field has the tag of
/// the rating percent and holds at least one 16-bit number.
pub open spec fn spec_percent_rating(field: ExifField) -> Option<u8> {
    if field.tag_id != TAG_RATING_PERCENT {
        None
    } else {
        match field.value {
            ExifValue::Shorts(v) => if v@.len() > 0 {
                Some(spec_percent_to_rating(v@[0] as u32))
            } else {
                None
            },
            _ => None,
        }
    }
}

/// The text of one field, if it has the tag `tag_id` and holds text.
pub open spec fn spec_field_text(field: ExifField, tag_id: u16) -> Option<Seq<char>> {
    if field.tag_id != tag_id {
        None
    } else {
        match field.value {
            ExifValue::Text(s) => Some(s@),
            _ => None,
        }
    }
}

/// The direct rating of the last field that states one.
pub open spec fn spec_last_direct_rating(fields: Seq<ExifField>) -> Option<u8>
    decreases fields.len(),
{
    if fields.len() == 0 {
        None
    } else {
        match spec_direct_rating(fields[fields.len() - 1]) {
            Some(r) => Some(r),
            None => spec_last_direct_rating(fields.subrange(0, fields.len() - 1)),
        }
    }
}

/// The percent rating of the first field that states one.
pub open spec fn spec_first_percent_rating(fields: Seq<ExifField>) -> Option<u8>
    decreases fields.len(),
{
    if fields.len() == 0 {
        None
    } else {
        match spec_first_percent_rating(fields.subrange(0, fields.len() - 1)) {
            Some(r) => Some(r),
            None => spec_percent_rating(fields[fields.len() - 1]),
        }
    }
}

/// The rating of a container: the direct rating where a field states one,
/// else the rating that the percent stands for.
pub open spec fn spec_exif_rating(fields: Seq<ExifField>) -> Option<u8> {
    match spec_last_direct_rating(fields) {
        Some(r) => Some(r),
        None => spec_first_percent_rating(fields),
    }
}

/// The text of the last field that has the tag `tag_id` and holds text.
pub open spec fn spec_last_text(fields: Seq<ExifField>, tag_id: u16) -> Option<Seq<char>>
    decreases fields.len(),
{
    if fields.len() == 0 {
        None
    } else {
        match spec_field_text(fields[fields.len() - 1], tag_id) {
            Some(s) => Some(s),
            None => spec_last_text(fields.subrange(0, fields.len() - 1), tag_id),
        }
    }
}

/// What a container states, whether or not it states anything.
pub open spec fn spec_exif_summary(fields: Seq<ExifField>) -> ExifInfoView {
    ExifInfoView {
        date_time_original: spec_last_text(fields, TAG_DATE_TIME_ORIGINAL),
        create_date: spec_last_text(fields, TAG_DATE_TIME_DIGITIZED),
        modify_date: spec_last_text(fields, TAG_DATE_TIME),
        rating: spec_exif_rating(fields),
    }
}

/// Whether a summary holds a date or a rating.
pub open spec fn spec_has_content(info: ExifInfoView) -> bool {
    info.date_time_original is Some || info.create_date is Some || info.modify_date is Some
        || info.rating is Some
}

/// What is read from a container: its summary where that holds a date or a
/// rating, else nothing.
pub open spec fn spec_extract_exif_info(fields: Seq<ExifField>) -> Option<ExifInfoView> {
    if spec_has_content(spec_exif_summary(fields)) {
        Some(spec_exif_summary(fields))
    } else {
        None
    }
}

/// The rating that `field` states directly.
pub fn direct_rating(field: &ExifField) -> (r: Option<u8>)
    ensures
        r == spec_direct_rating(*field),
        r is Some ==> r->0 <= MAX_RATING,
{
    if field.tag_id != TAG_RATING {
        return None;
    }
    match &field.value {
        ExifValue::Text(s) => {
            let chars = chars_of(s.as_str());
            assert(chars@.subrange(0, chars.len() as int) =~= s@);
            match parse_unsigned(&chars, 0, chars.len(), MAX_RATING) {
                Some(n) => Some(n as u8),
                None => None,
            }
        },
        ExifValue::Bytes(v) => {
            if v.len() > 0 && v[0] as u32 <= MAX_RATING {
                Some(v[0])
            } else {
                None
            }
        },
        ExifValue::Shorts(v) => {
            if v.len() > 0 && v[0] as u32 <= MAX_RATING {
                Some(v[0] as u8)
            } else {
                None
            }
        },
        ExifValue::Longs(v) => {
            if v.len() > 0 && v[0] <= MAX_RATING {
                Some(v[0] as u8)
            } else {
                None
            }
        },
        ExifValue::Other => None,
    }
}

/// The rating that `field` states as a percent.
pub fn percent_rating(field: &ExifField) -> (r: Option<u8>)
    ensures
        r == spec_percent_rating(*field),
        r is Some ==> r->0 <= MAX_RATING,
{
    if field.tag_id != TAG_RATING_PERCENT {
        return None;
    }
    match &field.value {
        ExifValue::Shorts(v) => {
            if v.len() > 0 {
                Some(percent_to_rating(v[0] as u32))
            } else {
                None
            }
        },
        _ => None,
    }
}

/// Reads dates and rating from the fields of a tag container. A field that
/// does not decode is passed over. Among several fields of one tag the last
/// one counts, but for the rating percent, of which the first one counts and
/// only where no field states the rating directly.
pub fn extract_exif_info(fields: &Vec<ExifField>) -> (info: Option<ExifInfo>)
    ensures
        info is Some == spec_extract_exif_info(fields@) is Some,
        info is Some ==> info->0@ == spec_extract_exif_info(fields@)->0,
        info is Some && info->0.rating is Some ==> info->0.rating->0 <= MAX_RATING,
{
    let mut date_time_original: Option<String> = None;
    let mut create_date: Option<String> = None;
    let mut modify_date: Option<String> = None;
    let mut rating: Option<u8> = None;
    let mut i: usize = 0;
    assert(fields@.take(0).len() == 0);
    while i < fields.len()
        invariant
            i <= fields.len(),
            spec_text_of(date_time_original) == spec_last_text(
                fields@.take(i as int),
                TAG_DATE_TIME_ORIGINAL,
            ),
            spec_text_of(create_date) == spec_last_text(
                fields@.take(i as int),
                TAG_DATE_TIME_DIGITIZED,
            ),
            spec_text_of(modify_date) == spec_last_text(fields@.take(i as int), TAG_DATE_TIME),
            rating == spec_exif_rating(fields@.take(i as int)),
            rating is Some ==> rating->0 <= MAX_RATING,
        decreases fields.len() - i,
    {
        let field = &fields[i];
        proof {
            let longer = fields@.take(i + 1);
            assert(longer.subrange(0, longer.len() - 1) =~= fields@.take(i as int));
            assert(longer[longer.len() - 1] == *field);
        }
        match &field.value {
            ExifValue::Text(s) => {
                if field.tag_id == TAG_DATE_TIME_ORIGINAL {
                    date_time_original = Some(s.clone());
                } else if field.tag_id == TAG_DATE_TIME_DIGITIZED {
                    create_date = Some(s.clone());
                } else if field.tag_id == TAG_DATE_TIME {
                    modify_date = Some(s.clone());
                }
            },
            _ => {},
        }
        match direct_rating(field) {
            Some(r) => {
                rating = Some(r);
            },
            None => {
                if rating.is_none() {
                    rating = percent_rating(field);
                }
            },
        }
        i += 1;
    }
    assert(fields@.take(fields.len() as int) =~= fields@);
    if date_time_original.is_some() || create_date.is_some() || modify_date.is_some()
        || rating.is_some() {
        Some(ExifInfo { date_time_original, create_date, modify_date, rating })
    } else {
        None
    }
}

/// The rating alone, as the fields of a tag container state it.
pub fn extract_rating(fields: &Vec<ExifField>) -> (rating: Option<u8>)
    ensures
        rating == spec_exif_rating(fields@),
        rating is Some ==> rating->0 <= MAX_RATING,
{
    match extract_exif_info(fields) {
        Some(info) => info.rating,
        None => None,
    }
}

/// Whether `pair` is the rating field and the percent field for `rating`: the
/// rating and its percent, each as one 16-bit number under its tag.
pub open spec fn spec_is_rating_pair(pair: (ExifField, ExifField), rating: u32) -> bool {
    &&& pair.0.tag_id == TAG_RATING
    &&& pair.0.value matches ExifValue::Shorts(v) && v@ == seq![rating as u16]
    &&& pair.1.tag_id == TAG_RATING_PERCENT
    &&& pair.1.value matches ExifValue::Shorts(p) && p@ == seq![
        spec_rating_to_percent(rating) as u16,
    ]
}

/// The fields to set in a tag container for `rating`, which is turned away
/// where it is above five.
pub fn rating_fields(rating: u32) -> (r: Result<(ExifField, ExifField), AppError>)
    ensures
        rating > MAX_RATING ==> r == Err::<(ExifField, ExifField), AppError>(
            AppError::InvalidInput(InvalidInput::OutOfRange),
        ),
        rating <= MAX_RATING ==> r is Ok && spec_is_rating_pair(r->Ok_0, rating),
{
    if rating > MAX_RATING {
        return Err(AppError::InvalidInput(InvalidInput::OutOfRange));
    }
    let mut stars: Vec<u16> = Vec::new();
    stars.push(rating as u16);
    let mut percent: Vec<u16> = Vec::new();
    percent.push(rating_to_percent(rating) as u16);
    assert(stars@ =~= seq![rating as u16]);
    assert(percent@ =~= seq![spec_rating_to_percent(rating) as u16]);
    Ok(
        (
            ExifField { tag_id: TAG_RATING, value: ExifValue::Shorts(stars) },
            ExifField { tag_id: TAG_RATING_PERCENT, value: ExifValue::Shorts(percent) },
        ),
    )
}

/// A container in which the rating field written for `rating` is the only
/// field with the tag of the rating reads back as `rating`, whatever else it
/// holds.
pub proof fn lemma_written_rating_reads_back(
    fields: Seq<ExifField>,
    at: int,
    pair: (ExifField, ExifField),
    rating: u32,
)
    requires
        rating <= MAX_RATING,
        spec_is_rating_pair(pair, rating),
        0 <= at < fields.len(),
        fields[at] == pair.0,
        forall|i: int| 0 <= i < fields.len() && i != at ==> (#[trigger] fields[i]).tag_id
            != TAG_RATING,
    ensures
        spec_exif_rating(fields) == Some(rating as u8),
    decreases fields.len(),
{
    let last = fields.len() - 1;
    if at == last {
        assert(spec_direct_rating(fields[last]) == Some(rating as u8));
    } else {
        assert(fields[last].tag_id != TAG_RATING);
        let shorter = fields.subrange(0, last);
        assert(shorter[at] == fields[at]);
        assert forall|i: int| 0 <= i < shorter.len() && i != at implies (#[trigger] shorter[i]).tag_id
            != TAG_RATING by {
            assert(shorter[i] == fields[i]);
        }
        lemma_written_rating_reads_back(shorter, at, pair, rating);
    }
}

/// A container without a direct rating whose first percent field is the one
/// written for `rating` reads back as `rating`.
pub proof fn lemma_written_percent_reads_back(
    fields: Seq<ExifField>,
    pair: (ExifField, ExifField),
    rating: u32,
)
    requires
        rating <= MAX_RATING,
        spec_is_rating_pair(pair, rating),
        fields.len() > 0,
        fields[0] == pair.1,
        forall|i: int| 0 <= i < fields.len() ==> (#[trigger] fields[i]).tag_id != TAG_RATING,
    ensures
        spec_exif_rating(fields) == Some(rating as u8),
    decreases fields.len(),
{
    let last = fields.len() - 1;
    let shorter = fields.subrange(0, last);
    assert(fields[last].tag_id != TAG_RATING);
    if last == 0 {
        assert(shorter.len() == 0);
        assert(spec_last_direct_rating(shorter) is None);
        assert(spec_first_percent_rating(shorter) is None);
        assert(spec_percent_rating(fields[0]) == Some(rating as u8));
    } else {
        assert(shorter[0] == fields[0]);
        assert forall|i: int| 0 <= i < shorter.len() implies (#[trigger] shorter[i]).tag_id
            != TAG_RATING by {
            assert(shorter[i] == fields[i]);
        }
        lemma_written_percent_reads_back(shorter, pair, rating);
    }
}

} // verus!
