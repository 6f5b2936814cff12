//! Generation parameters: the free text that an image generator stores in a
//! PNG file, with its list of positive tags, its list of negative tags and
//! its settings.

use vstd::prelude::*;
use crate::error::AppError;
use crate::error::SectionNotFound;
use crate::exif::spec_text_of;
use crate::text::append_range;
use crate::text::chars_of;
use crate::text::digits_end;
use crate::text::find;
use crate::text::index_of;
use crate::text::matches_at;
use crate::text::spec_digits_end;
use crate::text::spec_find;
use crate::text::spec_index_of;
use crate::text::spec_matches_at;
use crate::text::spec_is_whitespace;
use crate::text::spec_trim;
use crate::text::spec_trim_end;
use crate::text::spec_trim_start;
use crate::text::string_of;
use crate::text::string_of_range;
use crate::text::trim_range;

verus! {

/// One tag of a prompt.
#[derive(Clone, Debug, PartialEq, Eq)]
pub struct SdTag {
    pub name: String,
    /// The weight as the text writes it, an unsigned decimal number.
    pub weight: Option<String>,
}

/// What a tag holds, as plain values.
pub struct SdTagView {
    pub name: Seq<char>,
    pub weight: Option<Seq<char>>,
}

impl View for SdTag {
    type V = SdTagView;

    open spec fn view(&self) -> SdTagView {
        SdTagView { name: self.name@, weight: spec_text_of(self.weight) }
    }
}

/// Generation parameters as parsed from their text.
#[derive(Clone, Debug, PartialEq, Eq)]
pub struct SdParameters {
    pub positive_sd_tags: Vec<SdTag>,
    pub negative_sd_tags: Vec<SdTag>,
    pub steps: Option<String>,
    pub sampler: Option<String>,
    pub schedule_type: Option<String>,
    pub cfg_scale: Option<String>,
    pub seed: Option<String>,
    pub size: Option<String>,
    pub model: Option<String>,
    pub denoising_strength: Option<String>,
    pub clip_skip: Option<String>,
    /// The text that was parsed, as it was.
    pub raw: String,
}

/// What generation parameters hold, as plain values. The settings stand in
/// the order of `spec_key_text`.
pub struct SdParametersView {
    pub positive_sd_tags: Seq<SdTagView>,
    pub negative_sd_tags: Seq<SdTagView>,
    pub fields: Seq<Option<Seq<char>>>,
    pub raw: Seq<char>,
}

/// What each tag of a list holds.
pub open spec fn spec_tag_views(tags: Seq<SdTag>) -> Seq<SdTagView> {
    Seq::new(tags.len(), |i: int| tags[i]@)
}

impl View for SdParameters {
    type V = SdParametersView;

    open spec fn view(&self) -> SdParametersView {
        SdParametersView {
            positive_sd_tags: spec_tag_views(self.positive_sd_tags@),
            negative_sd_tags: spec_tag_views(self.negative_sd_tags@),
            fields: seq![
                spec_text_of(self.steps),
                spec_text_of(self.sampler),
                spec_text_of(self.schedule_type),
                spec_text_of(self.cfg_scale),
                spec_text_of(self.seed),
                spec_text_of(self.size),
                spec_text_of(self.model),
                spec_text_of(self.denoising_strength),
                spec_text_of(self.clip_skip),
            ],
            raw: self.raw@,
        }
    }
}

/// A weighted tag `(name:weight)` that starts at `at`: an opening bracket, a
/// name of at least one character without colon, a colon, a weight made of
/// digits with an optional fraction, a closing bracket. The result is the
/// index of the colon and the index of the closing bracket.
pub open spec fn spec_weighted_at(piece: Seq<char>, at: int) -> Option<(int, int)> {
    let colon = spec_index_of(piece, ':', at + 1, piece.len() as int);
    let whole_end = spec_digits_end(piece, colon + 1);
    let fraction_end = spec_digits_end(piece, whole_end + 1);
    if at < 0 || at >= piece.len() || piece[at] != '(' || colon <= at + 1 || colon >= piece.len()
        || whole_end <= colon + 1 || whole_end >= piece.len() {
        None
    } else if piece[whole_end] == ')' {
        Some((colon, whole_end))
    } else if piece[whole_end] == '.' && fraction_end > whole_end + 1 && fraction_end < piece.len()
        && piece[fraction_end] == ')' {
        Some((colon, fraction_end))
    } else {
        None
    }
}

/// The first index at or after `from` at which a weighted tag starts.
pub open spec fn spec_first_weighted(piece: Seq<char>, from: int) -> Option<int>
    decreases piece.len() - from,
{
    if from < 0 || from >= piece.len() {
        None
    } else if spec_weighted_at(piece, from) is Some {
        Some(from)
    } else {
        spec_first_weighted(piece, from + 1)
    }
}

/// The tag that one piece of a prompt states. A piece of white space states
/// none. A piece that holds a weighted tag states its name, trimmed, with its
/// weight, and none where that name is empty. Any other piece is a name.
pub open spec fn spec_parse_tag(raw_piece: Seq<char>) -> Option<SdTagView> {
    let piece = spec_trim(raw_piece);
    if piece.len() == 0 {
        None
    } else {
        match spec_first_weighted(piece, 0) {
            Some(at) => {
                let (colon, close) = spec_weighted_at(piece, at)->0;
                let name = spec_trim(piece.subrange(at + 1, colon));
                if name.len() == 0 {
                    None
                } else {
                    Some(SdTagView { name, weight: Some(piece.subrange(colon + 1, close)) })
                }
            },
            None => Some(SdTagView { name: piece, weight: None }),
        }
    }
}

/// The tags of a prompt from index `from` on: the prompt is cut at each
/// comma, and each piece states a tag or none.
pub open spec fn spec_tags_from(prompt: Seq<char>, from: int) -> Seq<SdTagView>
    decreases prompt.len() - from,
{
    if from < 0 || from > prompt.len() {
        Seq::empty()
    } else {
        let comma = spec_index_of(prompt, ',', from, prompt.len() as int);
        let rest = if from <= comma < prompt.len() {
            spec_tags_from(prompt, comma + 1)
        } else {
            Seq::empty()
        };
        match spec_parse_tag(prompt.subrange(from, comma)) {
            Some(tag) => seq![tag] + rest,
            None => rest,
        }
    }
}

/// The tags of a prompt.
pub open spec fn spec_parse_sd_tags(prompt: Seq<char>) -> Seq<SdTagView> {
    spec_tags_from(prompt, 0)
}

fn weighted_at(piece: &Vec<char>, at: usize) -> (r: Option<(usize, usize)>)
    requires
        at < piece.len(),
    ensures
        match r {
            Some(found) => spec_weighted_at(piece@, at as int) == Some(
                (found.0 as int, found.1 as int),
            ) && at + 1 < found.0 < found.1 < piece.len(),
            None => spec_weighted_at(piece@, at as int) is None,
        },
{
    if piece[at] != '(' {
        return None;
    }
    let colon = index_of(piece, ':', at + 1, piece.len());
    if colon <= at + 1 || colon >= piece.len() {
        return None;
    }
    let whole_end = digits_end(piece, colon + 1);
    if whole_end <= colon + 1 || whole_end >= piece.len() {
        return None;
    }
    if piece[whole_end] == ')' {
        return Some((colon, whole_end));
    }
    if piece[whole_end] != '.' {
        return None;
    }
    let fraction_end = digits_end(piece, whole_end + 1);
    if fraction_end > whole_end + 1 && fraction_end < piece.len() && piece[fraction_end] == ')' {
        Some((colon, fraction_end))
    } else {
        None
    }
}

fn parse_tag(prompt: &Vec<char>, from: usize, to: usize) -> (r: Option<SdTag>)
    requires
        from <= to <= prompt.len(),
    ensures
        r is Some == spec_parse_tag(prompt@.subrange(from as int, to as int)) is Some,
        r is Some ==> r->0@ == spec_parse_tag(prompt@.subrange(from as int, to as int))->0,
{
    let (a, b) = trim_range(prompt, from, to);
    if a == b {
        return None;
    }
    let mut piece: Vec<char> = Vec::new();
    append_range(&mut piece, prompt, a, b);
    assert(piece@ =~= spec_trim(prompt@.subrange(from as int, to as int)));
    let mut at: usize = 0;
    while at < piece.len()
        invariant
            at <= piece.len(),
            piece.len() > 0,
            piece@ == spec_trim(prompt@.subrange(from as int, to as int)),
            spec_first_weighted(piece@, 0) == spec_first_weighted(piece@, at as int),
        decreases piece.len() - at,
    {
        match weighted_at(&piece, at) {
            Some((colon, close)) => {
                let (name_from, name_to) = trim_range(&piece, at + 1, colon);
                if name_from == name_to {
                    return None;
                }
                return Some(
                    SdTag {
                        name: string_of_range(&piece, name_from, name_to),
                        weight: Some(string_of_range(&piece, colon + 1, close)),
                    },
                );
            },
            None => {},
        }
        at += 1;
    }
    Some(SdTag { name: string_of(&piece), weight: None })
}

fn parse_sd_tags(prompt: &Vec<char>) -> (tags: Vec<SdTag>)
    ensures
        spec_tag_views(tags@) == spec_parse_sd_tags(prompt@),
{
    let mut tags: Vec<SdTag> = Vec::new();
    let mut from: usize = 0;
    assert(spec_tag_views(tags@) + spec_tags_from(prompt@, 0) =~= spec_tags_from(prompt@, 0));
    loop
        invariant
            from <= prompt.len(),
            spec_parse_sd_tags(prompt@) == spec_tag_views(tags@) + spec_tags_from(
                prompt@,
                from as int,
            ),
        decreases prompt.len() - from,
    {
        let comma = index_of(prompt, ',', from, prompt.len());
        let ghost before = spec_tag_views(tags@);
        let ghost rest = if comma < prompt.len() {
            spec_tags_from(prompt@, comma + 1)
        } else {
            Seq::<SdTagView>::empty()
        };
        match parse_tag(prompt, from, comma) {
            Some(tag) => {
                tags.push(tag);
                assert(spec_tag_views(tags@) =~= before.push(tag@));
                assert(before + (seq![tag@] + rest) =~= spec_tag_views(tags@) + rest);
            },
            None => {},
        }
        if comma >= prompt.len() {
            assert(spec_tag_views(tags@) + rest =~= spec_tag_views(tags@));
            return tags;
        }
        from = comma + 1;
    }
}

/// The number of settings.
pub const FIELD_COUNT: usize = 9;

/// The key of each setting, with the colon that follows it, in the order in
/// which the settings are held.
pub open spec fn spec_key_text(key: int) -> Seq<char> {
    if key == 0 {
        "Steps:"@
    } else if key == 1 {
        "Sampler:"@
    } else if key == 2 {
        "Schedule type:"@
    } else if key == 3 {
        "CFG scale:"@
    } else if key == 4 {
        "Seed:"@
    } else if key == 5 {
        "Size:"@
    } else if key == 6 {
        "Model:"@
    } else if key == 7 {
        "Denoising strength:"@
    } else {
        "Clip skip:"@
    }
}

/// The first key from `key` on that stands at `at`, or the number of keys.
pub open spec fn spec_key_at(text: Seq<char>, at: int, key: int) -> int
    decreases FIELD_COUNT - key,
{
    if key < 0 || key >= FIELD_COUNT {
        FIELD_COUNT as int
    } else if spec_matches_at(text, at, spec_key_text(key)) {
        key
    } else {
        spec_key_at(text, at, key + 1)
    }
}

/// A setting that starts at `at`: a key with its colon, then at least one
/// character before the next comma or the end. The result is the key, the
/// index after the colon and the index where the value ends.
pub open spec fn spec_field_at(text: Seq<char>, at: int) -> Option<(int, int, int)> {
    let key = spec_key_at(text, at, 0);
    let start = at + spec_key_text(key).len();
    let end = spec_index_of(text, ',', start, text.len() as int);
    if key < FIELD_COUNT && start < end {
        Some((key, start, end))
    } else {
        None
    }
}

/// The first setting that starts at or after `from`.
pub open spec fn spec_next_field(text: Seq<char>, from: int) -> Option<(int, int, int)>
    decreases text.len() - from,
{
    if from < 0 || from >= text.len() {
        None
    } else if spec_field_at(text, from) is Some {
        spec_field_at(text, from)
    } else {
        spec_next_field(text, from + 1)
    }
}

/// The settings found from `from` on, added to those in `found`: each
/// setting with a value that is not white space alone replaces what was found
/// for its key, and the search goes on where its value ends.
pub open spec fn spec_fields_from(
    text: Seq<char>,
    from: int,
    found: Seq<Option<Seq<char>>>,
) -> Seq<Option<Seq<char>>>
    decreases text.len() - from,
{
    match spec_next_field(text, from) {
        Some((key, start, end)) => {
            let value = spec_trim(text.subrange(start, end));
            let next = if value.len() == 0 {
                found
            } else {
                found.update(key, Some(value))
            };
            if from < end <= text.len() {
                spec_fields_from(text, end, next)
            } else {
                next
            }
        },
        None => found,
    }
}

/// No setting at all.
pub open spec fn spec_no_fields() -> Seq<Option<Seq<char>>> {
    Seq::new(FIELD_COUNT as nat, |i: int| None)
}

/// The settings that a text states.
pub open spec fn spec_extract_all_fields(text: Seq<char>) -> Seq<Option<Seq<char>>> {
    spec_fields_from(text, 0, spec_no_fields())
}

/// What each setting of a list holds.
pub open spec fn spec_field_views(fields: Seq<Option<String>>) -> Seq<Option<Seq<char>>> {
    Seq::new(fields.len(), |i: int| spec_text_of(fields[i]))
}

fn field_keys() -> (keys: Vec<Vec<char>>)
    ensures
        keys.len() == FIELD_COUNT,
        forall|k: int| 0 <= k < FIELD_COUNT ==> (#[trigger] keys@[k])@ == spec_key_text(k),
{
    let mut keys: Vec<Vec<char>> = Vec::new();
    keys.push(chars_of("Steps:"));
    keys.push(chars_of("Sampler:"));
    keys.push(chars_of("Schedule type:"));
    keys.push(chars_of("CFG scale:"));
    keys.push(chars_of("Seed:"));
    keys.push(chars_of("Size:"));
    keys.push(chars_of("Model:"));
    keys.push(chars_of("Denoising strength:"));
    keys.push(chars_of("Clip skip:"));
    keys
}

fn field_at(text: &Vec<char>, at: usize, keys: &Vec<Vec<char>>) -> (r: Option<
    (usize, usize, usize),
>)
    requires
        at < text.len(),
        keys.len() == FIELD_COUNT,
        forall|k: int| 0 <= k < FIELD_COUNT ==> (#[trigger] keys@[k])@ == spec_key_text(k),
    ensures
        match r {
            Some(found) => spec_field_at(text@, at as int) == Some(
                (found.0 as int, found.1 as int, found.2 as int),
            ) && found.0 < FIELD_COUNT && at <= found.1 < found.2 <= text.len(),
            None => spec_field_at(text@, at as int) is None,
        },
{
    let mut key: usize = 0;
    while key < FIELD_COUNT
        invariant
            key <= FIELD_COUNT,
            keys.len() == FIELD_COUNT,
            forall|k: int| 0 <= k < FIELD_COUNT ==> (#[trigger] keys@[k])@ == spec_key_text(k),
            spec_key_at(text@, at as int, 0) == spec_key_at(text@, at as int, key as int),
        decreases FIELD_COUNT - key,
    {
        if matches_at(text, at, &keys[key]) {
            assert(spec_matches_at(text@, at as int, keys@[key as int]@));
            assert(at + keys@[key as int]@.len() <= text.len());
            let start: usize = at + keys[key].len();
            let end = index_of(text, ',', start, text.len());
            if start < end {
                return Some((key, start, end));
            } else {
                return None;
            }
        }
        key += 1;
    }
    None
}

fn next_field(text: &Vec<char>, from: usize, keys: &Vec<Vec<char>>) -> (r: Option<
    (usize, usize, usize),
>)
    requires
        from <= text.len(),
        keys.len() == FIELD_COUNT,
        forall|k: int| 0 <= k < FIELD_COUNT ==> (#[trigger] keys@[k])@ == spec_key_text(k),
    ensures
        match r {
            Some(found) => spec_next_field(text@, from as int) == Some(
                (found.0 as int, found.1 as int, found.2 as int),
            ) && found.0 < FIELD_COUNT && from <= found.1 < found.2 <= text.len(),
            None => spec_next_field(text@, from as int) is None,
        },
{
    let mut at: usize = from;
    while at < text.len()
        invariant
            from <= at <= text.len(),
            keys.len() == FIELD_COUNT,
            forall|k: int| 0 <= k < FIELD_COUNT ==> (#[trigger] keys@[k])@ == spec_key_text(k),
            spec_next_field(text@, from as int) == spec_next_field(text@, at as int),
        decreases text.len() - at,
    {
        match field_at(text, at, keys) {
            Some(found) => {
                return Some(found);
            },
            None => {},
        }
        at += 1;
    }
    None
}

fn extract_all_fields(text: &Vec<char>) -> (fields: Vec<Option<String>>)
    ensures
        fields.len() == FIELD_COUNT,
        spec_field_views(fields@) == spec_extract_all_fields(text@),
{
    let keys = field_keys();
    let mut fields: Vec<Option<String>> = Vec::new();
    let mut k: usize = 0;
    while k < FIELD_COUNT
        invariant
            k <= FIELD_COUNT,
            fields.len() == k,
            forall|i: int| 0 <= i < k ==> (#[trigger] fields@[i]) is None,
        decreases FIELD_COUNT - k,
    {
        fields.push(None);
        k += 1;
    }
    assert(spec_field_views(fields@) =~= spec_no_fields());
    let mut from: usize = 0;
    loop
        invariant
            from <= text.len(),
            fields.len() == FIELD_COUNT,
            keys.len() == FIELD_COUNT,
            forall|k: int| 0 <= k < FIELD_COUNT ==> (#[trigger] keys@[k])@ == spec_key_text(k),
            spec_extract_all_fields(text@) == spec_fields_from(
                text@,
                from as int,
                spec_field_views(fields@),
            ),
        decreases text.len() - from,
    {
        match next_field(text, from, &keys) {
            Some((key, start, end)) => {
                let (a, b) = trim_range(text, start, end);
                let ghost before = spec_field_views(fields@);
                if a < b {
                    let value = string_of_range(text, a, b);
                    fields.set(key, Some(value));
                    assert(spec_field_views(fields@) =~= before.update(
                        key as int,
                        Some(spec_trim(text@.subrange(start as int, end as int))),
                    ));
                }
                from = end;
            },
            None => {
                return fields;
            },
        }
    }
}

/// The marker that opens the negative prompt.
pub open spec fn spec_negative_marker() -> Seq<char> {
    "\nNegative prompt:"@
}

/// The marker that opens the settings.
pub open spec fn spec_steps_marker() -> Seq<char> {
    "\nSteps:"@
}

/// Generation parameters as their text states them. The text before the
/// marker of the negative prompt is the positive prompt; the text from there
/// to the marker of the steps is the negative prompt; the settings are read
/// from `Steps:` followed by what comes after that marker.
pub open spec fn spec_parse(parameter: Seq<char>) -> Result<SdParametersView, AppError> {
    if spec_trim(parameter).len() == 0 {
        Err(AppError::ParseError(SectionNotFound::Empty))
    } else {
        match spec_find(parameter, spec_negative_marker(), 0) {
            None => Err(AppError::ParseError(SectionNotFound::NegativePrompt)),
            Some(negative_at) => {
                let rest = parameter.subrange(
                    negative_at + spec_negative_marker().len(),
                    parameter.len() as int,
                );
                match spec_find(rest, spec_steps_marker(), 0) {
                    None => Err(AppError::ParseError(SectionNotFound::Steps)),
                    Some(steps_at) => Ok(
                        SdParametersView {
                            positive_sd_tags: spec_parse_sd_tags(
                                parameter.subrange(0, negative_at),
                            ),
                            negative_sd_tags: spec_parse_sd_tags(rest.subrange(0, steps_at)),
                            fields: spec_extract_all_fields(
                                "Steps:"@ + rest.subrange(
                                    steps_at + spec_steps_marker().len(),
                                    rest.len() as int,
                                ),
                            ),
                            raw: parameter,
                        },
                    ),
                }
            },
        }
    }
}

fn take_field(fields: &mut Vec<Option<String>>, key: usize) -> (value: Option<String>)
    requires
        key < old(fields).len(),
    ensures
        final(fields).len() == old(fields).len(),
        spec_text_of(value) == spec_text_of(old(fields)@[key as int]),
        forall|i: int|
            0 <= i < old(fields).len() && i != key ==> final(fields)@[i] == old(fields)@[i],
{
    let mut value: Option<String> = None;
    std::mem::swap(&mut value, &mut fields[key]);
    value
}

/// No tag of a prompt has an empty name.
pub proof fn lemma_tags_have_names(prompt: Seq<char>, from: int)
    ensures
        forall|i: int|
            0 <= i < spec_tags_from(prompt, from).len() ==> (#[trigger] spec_tags_from(
                prompt,
                from,
            )[i]).name.len() > 0,
    decreases prompt.len() - from,
{
    if 0 <= from <= prompt.len() {
        let comma = spec_index_of(prompt, ',', from, prompt.len() as int);
        crate::text::lemma_index_of(prompt, ',', from, prompt.len() as int);
        let rest = if comma < prompt.len() {
            spec_tags_from(prompt, comma + 1)
        } else {
            Seq::<SdTagView>::empty()
        };
        if comma < prompt.len() {
            lemma_tags_have_names(prompt, comma + 1);
        }
        let all = spec_tags_from(prompt, from);
        assert forall|i: int| 0 <= i < all.len() implies (#[trigger] all[i]).name.len() > 0 by {
            match spec_parse_tag(prompt.subrange(from, comma)) {
                Some(tag) => {
                    if i > 0 {
                        assert(all[i] == rest[i - 1]);
                    }
                },
                None => {
                    assert(all[i] == rest[i]);
                },
            }
        }
    }
}

/// A text that holds more than white space but lacks the marker of the
/// negative prompt is not parsed: the parser reports the missing section,
/// whatever else the text holds.
pub proof fn lemma_missing_marker_is_parse_error(parameter: Seq<char>)
    requires
        spec_trim(parameter).len() > 0,
        spec_find(parameter, spec_negative_marker(), 0) is None,
    ensures
        spec_parse(parameter) == Err::<SdParametersView, AppError>(
            AppError::ParseError(SectionNotFound::NegativePrompt),
        ),
{
}

/// Every text is parsed or turned away with a parse error, and parameters
/// that were parsed hold the text they were parsed from, which is not empty.
pub proof fn lemma_parse_is_total(parameter: Seq<char>)
    ensures
        match spec_parse(parameter) {
            Ok(parsed) => parsed.raw == parameter && parameter.len() > 0,
            Err(e) => e is ParseError,
        },
{
    if spec_trim(parameter).len() > 0 {
        lemma_trim_is_shorter(parameter);
    }
}

proof fn lemma_trim_is_shorter(s: Seq<char>)
    ensures
        spec_trim(s).len() <= s.len(),
{
    lemma_trim_start_is_shorter(s);
    lemma_trim_end_is_shorter(spec_trim_start(s));
}

proof fn lemma_trim_start_is_shorter(s: Seq<char>)
    ensures
        spec_trim_start(s).len() <= s.len(),
    decreases s.len(),
{
    if s.len() > 0 && spec_is_whitespace(s[0]) {
        lemma_trim_start_is_shorter(s.subrange(1, s.len() as int));
    }
}

proof fn lemma_trim_end_is_shorter(s: Seq<char>)
    ensures
        spec_trim_end(s).len() <= s.len(),
    decreases s.len(),
{
    if s.len() > 0 && spec_is_whitespace(s[s.len() - 1]) {
        lemma_trim_end_is_shorter(s.subrange(0, s.len() - 1));
    }
}

impl SdParameters {
    /// Parses the text of generation parameters. A text of white space alone
    /// and a text that lacks one of the two markers is not parsed; a setting
    /// that is absent is left out, and the text is kept as it was.
    pub fn parse(parameter: &str) -> (r: Result<SdParameters, AppError>)
        ensures
            r is Ok == spec_parse(parameter@) is Ok,
            r is Ok ==> r->Ok_0@ == spec_parse(parameter@)->Ok_0,
            r is Err ==> r->Err_0 == spec_parse(parameter@)->Err_0,
            r is Ok ==> r->Ok_0.raw@.len() > 0,
    {
        let text = chars_of(parameter);
        let (a, b) = trim_range(&text, 0, text.len());
        assert(text@.subrange(0, text.len() as int) =~= text@);
        if a == b {
            return Err(AppError::ParseError(SectionNotFound::Empty));
        }
        let negative_marker = chars_of("\nNegative prompt:");
        let negative_at = match find(&text, &negative_marker, 0) {
            Some(at) => at,
            None => {
                return Err(AppError::ParseError(SectionNotFound::NegativePrompt));
            },
        };
        let mut rest: Vec<char> = Vec::new();
        append_range(&mut rest, &text, negative_at + negative_marker.len(), text.len());
        assert(rest@ =~= text@.subrange(
            negative_at + spec_negative_marker().len(),
            text.len() as int,
        ));
        let steps_marker = chars_of("\nSteps:");
        let steps_at = match find(&rest, &steps_marker, 0) {
            Some(at) => at,
            None => {
                return Err(AppError::ParseError(SectionNotFound::Steps));
            },
        };
        let mut positive: Vec<char> = Vec::new();
        append_range(&mut positive, &text, 0, negative_at);
        assert(positive@ =~= text@.subrange(0, negative_at as int));
        let mut negative: Vec<char> = Vec::new();
        append_range(&mut negative, &rest, 0, steps_at);
        assert(negative@ =~= rest@.subrange(0, steps_at as int));
        let mut fields_text = chars_of("Steps:");
        append_range(&mut fields_text, &rest, steps_at + steps_marker.len(), rest.len());
        let positive_sd_tags = parse_sd_tags(&positive);
        let negative_sd_tags = parse_sd_tags(&negative);
        let mut fields = extract_all_fields(&fields_text);
        let ghost found = spec_field_views(fields@);
        let steps = take_field(&mut fields, 0);
        let sampler = take_field(&mut fields, 1);
        let schedule_type = take_field(&mut fields, 2);
        let cfg_scale = take_field(&mut fields, 3);
        let seed = take_field(&mut fields, 4);
        let size = take_field(&mut fields, 5);
        let model = take_field(&mut fields, 6);
        let denoising_strength = take_field(&mut fields, 7);
        let clip_skip = take_field(&mut fields, 8);
        let parsed = SdParameters {
            positive_sd_tags,
            negative_sd_tags,
            steps,
            sampler,
            schedule_type,
            cfg_scale,
            seed,
            size,
            model,
            denoising_strength,
            clip_skip,
            raw: string_of(&text),
        };
        proof {
            assert(found[0] == spec_text_of(steps));
            assert(found[8] == spec_text_of(clip_skip));
            assert(parsed@.fields =~= found);
        }
        Ok(parsed)
    }
}

} // verus!
