//! XMP packets as text: the attributes `xmp:Rating` and `xmp:RatingPercent`
//! are found, read and rewritten by their pattern, and a packet with the two
//! attributes alone is written from a template.

use vstd::prelude::*;
use crate::rating::rating_to_percent;
use crate::rating::spec_rating_to_percent;
use crate::rating::MAX_RATING;
use crate::text::append_chars;
use crate::text::append_range;
use crate::text::chars_of;
use crate::text::digits_end;
use crate::text::find;
use crate::text::index_of;
use crate::text::lemma_find_is_first;
use crate::text::lemma_index_of;
use crate::text::matches_at;
use crate::text::parse_unsigned;
use crate::text::spec_all_digits;
use crate::text::spec_decimal_value;
use crate::text::spec_digits_end;
use crate::text::spec_find;
use crate::text::spec_index_of;
use crate::text::is_whitespace;
use crate::text::spec_is_digit;
use crate::text::spec_is_whitespace;
use crate::text::spec_matches_at;
use crate::text::spec_parse_unsigned;
use crate::text::string_of;

verus! {

/// The digits that write `n` in decimal, without leading zeros.
pub open spec fn spec_decimal_text(n: nat) -> Seq<char>
    decreases n,
{
    if n < 10 {
        seq![((48 + n) as u8) as char]
    } else {
        spec_decimal_text(n / 10).push(((48 + n % 10) as u8) as char)
    }
}

/// Appends the decimal digits of `n` to `out`.
pub fn push_decimal(out: &mut Vec<char>, n: u32)
    ensures
        final(out)@ == old(out)@ + spec_decimal_text(n as nat),
    decreases n,
{
    if n >= 10 {
        push_decimal(out, n / 10);
    }
    out.push(((48 + n % 10) as u8) as char);
    assert(out@ =~= old(out)@ + spec_decimal_text(n as nat));
}

/// The digits of a number read back as that number.
pub proof fn lemma_decimal_round_trip(n: nat, max: nat)
    requires
        n <= max,
    ensures
        spec_parse_unsigned(spec_decimal_text(n), max) == Some(n),
{
    lemma_decimal_text(n);
    let text = spec_decimal_text(n);
    assert(spec_is_digit(text[0]));
    assert(text[0] != '+');
}

proof fn lemma_decimal_text(n: nat)
    ensures
        spec_decimal_text(n).len() > 0,
        spec_all_digits(spec_decimal_text(n)),
        spec_decimal_value(spec_decimal_text(n)) == n,
    decreases n,
{
    let text = spec_decimal_text(n);
    if n < 10 {
        assert(text.subrange(0, text.len() - 1) =~= Seq::<char>::empty());
        assert(spec_decimal_value(text.subrange(0, text.len() - 1)) == 0);
        assert(text[0] as u32 == 48 + n);
    } else {
        lemma_decimal_text(n / 10);
        let shorter = spec_decimal_text(n / 10);
        assert(text.subrange(0, text.len() - 1) =~= shorter);
        assert(text[text.len() - 1] as u32 == 48 + n % 10);
        assert forall|i: int| 0 <= i < text.len() implies spec_is_digit(#[trigger] text[i]) by {
            if i < shorter.len() {
                assert(text[i] == shorter[i]);
            }
        }
    }
}

/// The first part of the template, up to the quote that opens the rating.
pub open spec fn spec_template_head() -> Seq<char> {
    "<?xml version=\"1.0\" encoding=\"UTF-8\"?>\n<x:xmpmeta xmlns:x=\"adobe:ns:meta/\" x:xmptk=\"XMP Core 6.0.0\">\n <rdf:RDF xmlns:rdf=\"http://www.w3.org/1999/02/22-rdf-syntax-ns#\">\n  <rdf:Description rdf:about=\"\"\n    xmlns:xmp=\"http://ns.adobe.com/xap/1.0/\"\n    xmp:Rating=\""@
}

/// The part of the template between the rating and the percent.
pub open spec fn spec_template_middle() -> Seq<char> {
    "\"\n    xmp:RatingPercent=\""@
}

/// The last part of the template, from the quote that closes the percent.
pub open spec fn spec_template_tail() -> Seq<char> {
    "\"/>\n </rdf:RDF>\n</x:xmpmeta>"@
}

/// The packet that holds nothing but a rating and a percent.
pub open spec fn spec_create_xmp_with_rating(rating: u32, percent: u32) -> Seq<char> {
    spec_template_head() + spec_decimal_text(rating as nat) + spec_template_middle()
        + spec_decimal_text(percent as nat) + spec_template_tail()
}

fn template_chars(rating: u32, percent: u32) -> (packet: Vec<char>)
    ensures
        packet@ == spec_create_xmp_with_rating(rating, percent),
{
    let mut packet = chars_of(
        "<?xml version=\"1.0\" encoding=\"UTF-8\"?>\n<x:xmpmeta xmlns:x=\"adobe:ns:meta/\" x:xmptk=\"XMP Core 6.0.0\">\n <rdf:RDF xmlns:rdf=\"http://www.w3.org/1999/02/22-rdf-syntax-ns#\">\n  <rdf:Description rdf:about=\"\"\n    xmlns:xmp=\"http://ns.adobe.com/xap/1.0/\"\n    xmp:Rating=\"",
    );
    push_decimal(&mut packet, rating);
    append_chars(&mut packet, &chars_of("\"\n    xmp:RatingPercent=\""));
    push_decimal(&mut packet, percent);
    append_chars(&mut packet, &chars_of("\"/>\n </rdf:RDF>\n</x:xmpmeta>"));
    packet
}

/// Writes a packet that holds a rating and a percent and nothing else.
pub fn create_xmp_with_rating(rating: u32, percent: u32) -> (packet: String)
    ensures
        packet@ == spec_create_xmp_with_rating(rating, percent),
{
    string_of(&template_chars(rating, percent))
}

/// `xmp:Rating="`
pub open spec fn spec_rating_prefix() -> Seq<char> {
    "xmp:Rating=\""@
}

/// `xmp:RatingPercent="`
pub open spec fn spec_percent_prefix() -> Seq<char> {
    "xmp:RatingPercent=\""@
}

/// The attribute that states `value` under the name that `prefix` opens.
pub open spec fn spec_attribute(prefix: Seq<char>, value: u32) -> Seq<char> {
    prefix + spec_decimal_text(value as nat) + seq!['"']
}

/// The bounds of the first attribute that `prefix` opens: from the first
/// place where `prefix` stands to the next quote, which closes the value.
pub open spec fn spec_find_attribute(text: Seq<char>, prefix: Seq<char>) -> Option<(int, int)> {
    match spec_find(text, prefix, 0) {
        Some(start) => {
            let quote = spec_index_of(text, '"', start + prefix.len(), text.len() as int);
            if quote < text.len() {
                Some((start, quote + 1))
            } else {
                None
            }
        },
        None => None,
    }
}

/// `text` with the characters from `from` up to `to` replaced by `fresh`.
pub open spec fn spec_splice(text: Seq<char>, from: int, to: int, fresh: Seq<char>) -> Seq<char> {
    text.subrange(0, from) + fresh + text.subrange(to, text.len() as int)
}

/// `<rdf:Description`
pub open spec fn spec_description_open() -> Seq<char> {
    "<rdf:Description"@
}

/// Whether a character ends the name of a tag.
pub open spec fn spec_ends_name(c: char) -> bool {
    spec_is_whitespace(c) || c == '>' || c == '/'
}

/// Whether the start tag of an `rdf:Description` element opens at `at`.
pub open spec fn spec_is_description_tag(text: Seq<char>, at: int) -> bool {
    let after = at + spec_description_open().len();
    spec_matches_at(text, at, spec_description_open()) && after < text.len() && spec_ends_name(
        text[after],
    )
}

/// The index at or after `from` where the first start tag of an
/// `rdf:Description` element opens.
pub open spec fn spec_first_description_tag(text: Seq<char>, from: int) -> Option<int>
    decreases text.len() - from,
{
    if from < 0 || from >= text.len() {
        None
    } else if spec_is_description_tag(text, from) {
        Some(from)
    } else {
        spec_first_description_tag(text, from + 1)
    }
}

/// The index of the `>` that closes a tag, for a reader that stands at `at`
/// inside the tag, within a value opened by `quote` or outside any value: the
/// first `>` that stands outside the quoted values. The length of the text
/// where the tag is not closed.
pub open spec fn spec_tag_close(text: Seq<char>, at: int, quote: Option<char>) -> int
    decreases text.len() - at,
{
    if at < 0 || at >= text.len() {
        text.len() as int
    } else {
        match quote {
            Some(q) => if text[at] == q {
                spec_tag_close(text, at + 1, None)
            } else {
                spec_tag_close(text, at + 1, quote)
            },
            None => if text[at] == '>' {
                at
            } else if text[at] == '"' || text[at] == '\'' {
                spec_tag_close(text, at + 1, Some(text[at]))
            } else {
                spec_tag_close(text, at + 1, None)
            },
        }
    }
}

/// Where an attribute can be added to a packet that lacks it: at the end of
/// the start tag of the first `rdf:Description` element, before the `>` or
/// the `/>` that closes it. `None` where the packet has no such tag, or the
/// tag is not closed.
pub open spec fn spec_insertion_point(text: Seq<char>) -> Option<int> {
    match spec_first_description_tag(text, 0) {
        Some(tag) => {
            let after = tag + spec_description_open().len();
            let close = spec_tag_close(text, after, None);
            if close >= text.len() {
                None
            } else if close > after && text[close - 1] == '/' {
                Some(close - 1)
            } else {
                Some(close)
            }
        },
        None => None,
    }
}

/// `text` with the attribute under `prefix` set to `value`: the first such
/// attribute is replaced, or, where there is none, the attribute is added
/// after a space at the insertion point. `None` where there is neither.
pub open spec fn spec_set_attribute(text: Seq<char>, prefix: Seq<char>, value: u32) -> Option<
    Seq<char>,
> {
    match spec_find_attribute(text, prefix) {
        Some((start, end)) => Some(spec_splice(text, start, end, spec_attribute(prefix, value))),
        None => match spec_insertion_point(text) {
            Some(close) => Some(
                spec_splice(text, close, close, seq![' '] + spec_attribute(prefix, value)),
            ),
            None => None,
        },
    }
}

/// A packet with its rating set to `rating` and its percent to the percent
/// of `rating`: each attribute is replaced where the packet has it, else
/// added to the start tag of the first `rdf:Description` element, and every
/// other character of the packet stays. A packet that has neither a rating
/// nor such a tag gives way to the packet of the template; where only the
/// percent can be neither replaced nor added, the packet stays without one.
pub open spec fn spec_update_rating_in_xmp(text: Seq<char>, rating: u32) -> Seq<char> {
    let percent = spec_rating_to_percent(rating);
    match spec_set_attribute(text, spec_rating_prefix(), rating) {
        Some(rated) => match spec_set_attribute(rated, spec_percent_prefix(), percent) {
            Some(done) => done,
            None => rated,
        },
        None => spec_create_xmp_with_rating(rating, percent),
    }
}

/// The packet to write for `rating`: the existing packet with rating and
/// percent set, or the packet of the template where there is none.
pub open spec fn spec_merge_rating_to_xmp(existing: Option<Seq<char>>, rating: u32) -> Seq<char> {
    match existing {
        Some(text) => spec_update_rating_in_xmp(text, rating),
        None => spec_create_xmp_with_rating(rating, spec_rating_to_percent(rating)),
    }
}

fn find_attribute(text: &Vec<char>, prefix: &Vec<char>) -> (r: Option<(usize, usize)>)
    ensures
        match r {
            Some(bounds) => spec_find_attribute(text@, prefix@) == Some(
                (bounds.0 as int, bounds.1 as int),
            ) && bounds.0 <= bounds.1 <= text.len(),
            None => spec_find_attribute(text@, prefix@) is None,
        },
{
    match find(text, prefix, 0) {
        Some(start) => {
            assert(spec_matches_at(text@, start as int, prefix@));
            assert(start + prefix.len() <= text.len());
            let quote = index_of(text, '"', start + prefix.len(), text.len());
            if quote < text.len() {
                Some((start, quote + 1))
            } else {
                None
            }
        },
        None => None,
    }
}

fn splice(text: &Vec<char>, from: usize, to: usize, fresh: &Vec<char>) -> (out: Vec<char>)
    requires
        from <= to <= text.len(),
    ensures
        out@ == spec_splice(text@, from as int, to as int, fresh@),
{
    let mut out: Vec<char> = Vec::new();
    append_range(&mut out, text, 0, from);
    append_chars(&mut out, fresh);
    append_range(&mut out, text, to, text.len());
    assert(out@ =~= spec_splice(text@, from as int, to as int, fresh@));
    out
}

fn attribute(prefix: &Vec<char>, value: u32, leading_space: bool) -> (out: Vec<char>)
    ensures
        out@ == if leading_space {
            seq![' '] + spec_attribute(prefix@, value)
        } else {
            spec_attribute(prefix@, value)
        },
{
    let mut out: Vec<char> = Vec::new();
    if leading_space {
        out.push(' ');
    }
    append_chars(&mut out, prefix);
    push_decimal(&mut out, value);
    out.push('"');
    assert(out@ =~= if leading_space {
        seq![' '] + spec_attribute(prefix@, value)
    } else {
        spec_attribute(prefix@, value)
    });
    out
}

fn first_description_tag(text: &Vec<char>, open: &Vec<char>) -> (r: Option<usize>)
    requires
        open@ == spec_description_open(),
    ensures
        match r {
            Some(tag) => spec_first_description_tag(text@, 0) == Some(tag as int) && tag
                + open.len() < text.len(),
            None => spec_first_description_tag(text@, 0) is None,
        },
{
    let mut at: usize = 0;
    while at < text.len()
        invariant
            at <= text.len(),
            open@ == spec_description_open(),
            spec_first_description_tag(text@, 0) == spec_first_description_tag(text@, at as int),
        decreases text.len() - at,
    {
        if matches_at(text, at, open) {
            let after: usize = at + open.len();
            if after < text.len() {
                let c = text[after];
                if is_whitespace(c) || c == '>' || c == '/' {
                    return Some(at);
                }
            }
        }
        at += 1;
    }
    None
}

fn tag_close(text: &Vec<char>, from: usize) -> (close: usize)
    requires
        from <= text.len(),
    ensures
        close as int == spec_tag_close(text@, from as int, None),
        from <= close <= text.len(),
{
    let mut at: usize = from;
    let mut quote: Option<char> = None;
    while at < text.len()
        invariant
            from <= at <= text.len(),
            spec_tag_close(text@, from as int, None) == spec_tag_close(text@, at as int, quote),
        decreases text.len() - at,
    {
        let c = text[at];
        match quote {
            Some(q) => {
                if c == q {
                    quote = None;
                }
            },
            None => {
                if c == '>' {
                    return at;
                }
                if c == '"' || c == '\'' {
                    quote = Some(c);
                }
            },
        }
        at += 1;
    }
    at
}

fn insertion_point(text: &Vec<char>) -> (r: Option<usize>)
    ensures
        r is Some == spec_insertion_point(text@) is Some,
        r is Some ==> r->0 as int == spec_insertion_point(text@)->0,
        r is Some ==> r->0 < text.len(),
{
    let open = chars_of("<rdf:Description");
    match first_description_tag(text, &open) {
        Some(tag) => {
            let after: usize = tag + open.len();
            let close = tag_close(text, after);
            if close >= text.len() {
                None
            } else if close > after && text[close - 1] == '/' {
                Some(close - 1)
            } else {
                Some(close)
            }
        },
        None => None,
    }
}

fn set_attribute(text: &Vec<char>, prefix: &Vec<char>, value: u32) -> (r: Option<Vec<char>>)
    ensures
        r is Some == spec_set_attribute(text@, prefix@, value) is Some,
        r is Some ==> r->0@ == spec_set_attribute(text@, prefix@, value)->0,
{
    match find_attribute(text, prefix) {
        Some((start, end)) => Some(splice(text, start, end, &attribute(prefix, value, false))),
        None => match insertion_point(text) {
            Some(close) => Some(splice(text, close, close, &attribute(prefix, value, true))),
            None => None,
        },
    }
}

fn update_rating_chars(text: &Vec<char>, rating: u32) -> (out: Vec<char>)
    ensures
        out@ == spec_update_rating_in_xmp(text@, rating),
{
    let percent = rating_to_percent(rating);
    match set_attribute(text, &chars_of("xmp:Rating=\""), rating) {
        Some(rated) => match set_attribute(&rated, &chars_of("xmp:RatingPercent=\""), percent) {
            Some(done) => done,
            None => rated,
        },
        None => template_chars(rating, percent),
    }
}

/// Sets rating and percent in the text of an existing packet. All other
/// characters of the packet stay as they are.
pub fn update_rating_in_xmp(xmp_content: &str, rating: u32) -> (packet: String)
    ensures
        packet@ == spec_update_rating_in_xmp(xmp_content@, rating),
{
    string_of(&update_rating_chars(&chars_of(xmp_content), rating))
}

/// The packet to write for `rating`, given the packet that the file holds, if
/// any.
pub fn merge_rating_to_xmp(existing_xmp: Option<String>, rating: u32) -> (packet: String)
    ensures
        packet@ == spec_merge_rating_to_xmp(crate::exif::spec_text_of(existing_xmp), rating),
{
    match existing_xmp {
        Some(xmp_content) => update_rating_in_xmp(xmp_content.as_str(), rating),
        None => create_xmp_with_rating(rating, rating_to_percent(rating)),
    }
}

/// Whether `fresh` is `text` with the characters from `from` up to `to`
/// replaced by others and every character before and after them kept, where
/// those characters are none at all or open with `prefix`.
pub open spec fn spec_keeps_rest(
    text: Seq<char>,
    fresh: Seq<char>,
    prefix: Seq<char>,
    from: int,
    to: int,
) -> bool {
    &&& 0 <= from <= to <= text.len()
    &&& from == to || spec_matches_at(text, from, prefix)
    &&& fresh.len() >= from + (text.len() - to)
    &&& fresh.subrange(0, from) == text.subrange(0, from)
    &&& fresh.subrange(fresh.len() - (text.len() - to), fresh.len() as int) == text.subrange(
        to,
        text.len() as int,
    )
}

/// Setting an attribute changes nothing of a packet but that attribute:
/// the result is the packet with one piece put in at one place, where the old
/// attribute stood or where nothing stood, and every character before and
/// after that place is kept.
pub proof fn lemma_set_attribute_keeps_rest(text: Seq<char>, prefix: Seq<char>, value: u32)
    requires
        spec_set_attribute(text, prefix, value) is Some,
    ensures
        exists|from: int, to: int| #[trigger]
            spec_keeps_rest(text, spec_set_attribute(text, prefix, value)->0, prefix, from, to),
{
    let fresh = spec_set_attribute(text, prefix, value)->0;
    let (from, to): (int, int) = match spec_find_attribute(text, prefix) {
        Some((start, end)) => (start, end),
        None => (spec_insertion_point(text)->0, spec_insertion_point(text)->0),
    };
    lemma_find_is_first(text, prefix, 0);
    if spec_find_attribute(text, prefix) is Some {
        let start = spec_find(text, prefix, 0)->0;
        lemma_index_of(text, '"', start + prefix.len(), text.len() as int);
    } else {
        lemma_insertion_point_bounds(text);
    }
    assert(fresh.subrange(0, from) =~= text.subrange(0, from));
    assert(fresh.subrange(fresh.len() - (text.len() - to), fresh.len() as int) =~= text.subrange(
        to,
        text.len() as int,
    ));
    assert(spec_keeps_rest(text, fresh, prefix, from, to));
}

proof fn lemma_first_description_tag_bounds(text: Seq<char>, from: int)
    requires
        0 <= from,
    ensures
        spec_first_description_tag(text, from) is Some ==> from <= spec_first_description_tag(
            text,
            from,
        )->0 && spec_is_description_tag(text, spec_first_description_tag(text, from)->0),
        spec_first_description_tag(text, from) is Some ==> forall|k: int|
            from <= k < spec_first_description_tag(text, from)->0 ==> !spec_is_description_tag(
                text,
                k,
            ),
    decreases text.len() - from,
{
    if from < text.len() && !spec_is_description_tag(text, from) {
        lemma_first_description_tag_bounds(text, from + 1);
    }
}

proof fn lemma_first_description_tag_is(text: Seq<char>, from: int, tag: int)
    requires
        0 <= from <= tag,
        spec_is_description_tag(text, tag),
        forall|k: int| from <= k < tag ==> !spec_is_description_tag(text, k),
    ensures
        spec_first_description_tag(text, from) == Some(tag),
    decreases tag - from,
{
    if from < tag {
        lemma_first_description_tag_is(text, from + 1, tag);
    }
}

proof fn lemma_tag_close_bounds(text: Seq<char>, at: int, quote: Option<char>)
    requires
        0 <= at <= text.len(),
    ensures
        at <= spec_tag_close(text, at, quote) <= text.len(),
        spec_tag_close(text, at, quote) < text.len() ==> text[spec_tag_close(text, at, quote)]
            == '>',
    decreases text.len() - at,
{
    if at < text.len() {
        match quote {
            Some(q) => {
                if text[at] == q {
                    lemma_tag_close_bounds(text, at + 1, None);
                } else {
                    lemma_tag_close_bounds(text, at + 1, quote);
                }
            },
            None => {
                if text[at] == '>' {
                } else if text[at] == '"' || text[at] == '\'' {
                    lemma_tag_close_bounds(text, at + 1, Some(text[at]));
                } else {
                    lemma_tag_close_bounds(text, at + 1, None);
                }
            },
        }
    }
}

/// The place where an attribute is added lies inside the start tag of an
/// `rdf:Description` element: after the name of the tag, and at the `>` or
/// at the `/` of the `/>` that closes it.
pub proof fn lemma_insertion_point_bounds(text: Seq<char>)
    requires
        spec_insertion_point(text) is Some,
    ensures
        spec_first_description_tag(text, 0) is Some,
        spec_first_description_tag(text, 0)->0 + spec_description_open().len()
            <= spec_insertion_point(text)->0 < text.len(),
        text[spec_insertion_point(text)->0] == '>' || (text[spec_insertion_point(text)->0] == '/'
            && text[spec_insertion_point(text)->0 + 1] == '>'),
{
    lemma_first_description_tag_bounds(text, 0);
    let tag = spec_first_description_tag(text, 0)->0;
    lemma_tag_close_bounds(text, tag + spec_description_open().len(), None);
}

/// A packet that has the start tag of an `rdf:Description` element, closed,
/// is never replaced by the packet of the template: its rating is set in the
/// packet itself.
pub proof fn lemma_update_keeps_packet(text: Seq<char>, rating: u32)
    requires
        spec_insertion_point(text) is Some || spec_find_attribute(text, spec_rating_prefix())
            is Some,
    ensures
        spec_set_attribute(text, spec_rating_prefix(), rating) is Some,
        spec_update_rating_in_xmp(text, rating) == match spec_set_attribute(
            spec_set_attribute(text, spec_rating_prefix(), rating)->0,
            spec_percent_prefix(),
            spec_rating_to_percent(rating),
        ) {
            Some(done) => done,
            None => spec_set_attribute(text, spec_rating_prefix(), rating)->0,
        },
{
}

/// Whether a character neither closes a tag nor opens a quoted value.
pub open spec fn spec_is_plain(c: char) -> bool {
    c != '>' && c != '"' && c != '\''
}

proof fn lemma_skip_plain(s: Seq<char>, from: int, to: int)
    requires
        0 <= from <= to <= s.len(),
        forall|i: int| from <= i < to ==> spec_is_plain(#[trigger] s[i]),
    ensures
        spec_tag_close(s, from, None) == spec_tag_close(s, to, None),
    decreases to - from,
{
    if from < to {
        assert(spec_is_plain(s[from]));
        lemma_skip_plain(s, from + 1, to);
    }
}

proof fn lemma_skip_quoted(s: Seq<char>, from: int, to: int, quote: char)
    requires
        0 <= from <= to <= s.len(),
        forall|i: int| from <= i < to ==> #[trigger] s[i] != quote,
    ensures
        spec_tag_close(s, from, Some(quote)) == spec_tag_close(s, to, Some(quote)),
    decreases to - from,
{
    if from < to {
        assert(s[from] != quote);
        lemma_skip_quoted(s, from + 1, to, quote);
    }
}

/// The rating attribute after a space, as it is added to a tag.
pub open spec fn spec_added_rating(rating: u32) -> Seq<char> {
    seq![' '] + spec_attribute(spec_rating_prefix(), rating)
}

/// The percent attribute after a space, as it is added to a tag.
pub open spec fn spec_added_percent(percent: u32) -> Seq<char> {
    seq![' '] + spec_attribute(spec_percent_prefix(), percent)
}

/// The characters of an added rating attribute: a space, the name with the
/// quote that opens the value, digits, and the quote that closes it.
proof fn lemma_added_rating_chars(rating: u32)
    ensures
        spec_added_rating(rating).len() == 14 + spec_decimal_text(rating as nat).len(),
        spec_decimal_text(rating as nat).len() > 0,
        spec_added_rating(rating)[0] == ' ',
        spec_added_rating(rating)[1] == 'x',
        spec_added_rating(rating)[11] == '=',
        spec_added_rating(rating)[12] == '"',
        spec_added_rating(rating)[spec_added_rating(rating).len() - 1] == '"',
        forall|i: int| 0 <= i < 12 ==> spec_is_plain(#[trigger] spec_added_rating(rating)[i]),
        forall|i: int|
            13 <= i < spec_added_rating(rating).len() - 1 ==> spec_is_digit(
                #[trigger] spec_added_rating(rating)[i],
            ),
        forall|i: int|
            2 <= i < spec_added_rating(rating).len() ==> #[trigger] spec_added_rating(rating)[i]
                != 'x',
{
    reveal_strlit("xmp:Rating=\"");
    let prefix = spec_rating_prefix();
    let digits = spec_decimal_text(rating as nat);
    let added = spec_added_rating(rating);
    lemma_decimal_text(rating as nat);
    assert(prefix.len() == 12);
    assert(added.len() == 14 + digits.len());
    assert forall|i: int| 0 <= i < added.len() implies #[trigger] added[i] == (if i == 0 {
        ' '
    } else if i < 13 {
        prefix[i - 1]
    } else if i < 13 + digits.len() {
        digits[i - 13]
    } else {
        '"'
    }) by {}
    assert forall|i: int| 0 <= i < 12 implies spec_is_plain(#[trigger] added[i]) by {
        if i > 0 {
            assert(added[i] == prefix[i - 1]);
        }
    }
    assert forall|i: int| 13 <= i < added.len() - 1 implies spec_is_digit(#[trigger] added[i]) by {
        assert(added[i] == digits[i - 13]);
        assert(spec_is_digit(digits[i - 13]));
    }
    assert forall|i: int| 2 <= i < added.len() implies #[trigger] added[i] != 'x' by {
        if i < 13 {
            assert(added[i] == prefix[i - 1]);
        } else if i < 13 + digits.len() {
            assert(added[i] == digits[i - 13]);
            assert(spec_is_digit(digits[i - 13]));
        }
    }
}

/// A reader of a tag that stands outside any value before an added rating
/// attribute stands outside any value after it.
proof fn lemma_added_rating_is_skipped(s: Seq<char>, at: int, rating: u32)
    requires
        0 <= at,
        at + spec_added_rating(rating).len() <= s.len(),
        forall|i: int|
            0 <= i < spec_added_rating(rating).len() ==> s[at + i] == #[trigger] spec_added_rating(
                rating,
            )[i],
    ensures
        spec_tag_close(s, at, None) == spec_tag_close(
            s,
            at + spec_added_rating(rating).len(),
            None,
        ),
{
    let added = spec_added_rating(rating);
    let end = at + added.len();
    lemma_added_rating_chars(rating);
    assert forall|i: int| at <= i < at + 12 implies spec_is_plain(#[trigger] s[i]) by {
        assert(s[at + (i - at)] == added[i - at]);
        assert(spec_is_plain(added[i - at]));
    }
    lemma_skip_plain(s, at, at + 12);
    assert(s[at + 12] == added[12]);
    assert(spec_tag_close(s, at + 12, None) == spec_tag_close(s, at + 13, Some('"')));
    assert forall|i: int| at + 13 <= i < end - 1 implies #[trigger] s[i] != '"' by {
        assert(s[at + (i - at)] == added[i - at]);
        assert(spec_is_digit(added[i - at]));
    }
    lemma_skip_quoted(s, at + 13, end - 1, '"');
    assert(s[at + (added.len() - 1)] == added[added.len() - 1]);
    assert(spec_tag_close(s, end - 1, Some('"')) == spec_tag_close(s, end, None));
}

proof fn lemma_tag_close_after(
    text: Seq<char>,
    fresh: Seq<char>,
    place: int,
    added: int,
    at: int,
    quote: Option<char>,
)
    requires
        0 <= place <= at <= text.len(),
        0 <= added,
        fresh.len() == text.len() + added,
        forall|i: int| place <= i < text.len() ==> fresh[i + added] == #[trigger] text[i],
    ensures
        spec_tag_close(fresh, at + added, quote) == spec_tag_close(text, at, quote) + added,
    decreases text.len() - at,
{
    if at < text.len() {
        assert(fresh[at + added] == text[at]);
        match quote {
            Some(q) => {
                if text[at] == q {
                    lemma_tag_close_after(text, fresh, place, added, at + 1, None);
                } else {
                    lemma_tag_close_after(text, fresh, place, added, at + 1, quote);
                }
            },
            None => {
                if text[at] == '>' {
                } else if text[at] == '"' || text[at] == '\'' {
                    lemma_tag_close_after(text, fresh, place, added, at + 1, Some(text[at]));
                } else {
                    lemma_tag_close_after(text, fresh, place, added, at + 1, None);
                }
            },
        }
    }
}

proof fn lemma_tag_close_before(
    text: Seq<char>,
    fresh: Seq<char>,
    place: int,
    added: int,
    at: int,
    quote: Option<char>,
)
    requires
        0 <= at <= place < text.len(),
        0 <= added,
        fresh.len() == text.len() + added,
        forall|i: int| 0 <= i < place ==> fresh[i] == #[trigger] text[i],
        quote is Some ==> quote->0 == '"' || quote->0 == '\'',
        spec_tag_close(text, at, quote) < text.len(),
        place == spec_tag_close(text, at, quote) || (place == spec_tag_close(text, at, quote) - 1
            && text[place] == '/'),
        spec_tag_close(fresh, place, None) == spec_tag_close(text, place, None) + added,
    ensures
        spec_tag_close(fresh, at, quote) == spec_tag_close(text, at, quote) + added,
    decreases place - at,
{
    let close = spec_tag_close(text, at, quote);
    if at == place {
        if quote is Some {
            lemma_tag_close_bounds(text, close, None);
            if place == close {
                lemma_tag_close_bounds(text, at, quote);
                lemma_tag_close_bounds(text, at + 1, quote);
            } else {
                lemma_tag_close_bounds(text, at + 1, quote);
                lemma_tag_close_bounds(text, at + 2, quote);
                lemma_tag_close_bounds(text, at + 2, None);
            }
        }
    } else {
        assert(fresh[at] == text[at]);
        match quote {
            Some(q) => {
                if text[at] == q {
                    lemma_tag_close_before(text, fresh, place, added, at + 1, None);
                } else {
                    lemma_tag_close_before(text, fresh, place, added, at + 1, quote);
                }
            },
            None => {
                if text[at] == '>' {
                } else if text[at] == '"' || text[at] == '\'' {
                    lemma_tag_close_before(text, fresh, place, added, at + 1, Some(text[at]));
                } else {
                    lemma_tag_close_before(text, fresh, place, added, at + 1, None);
                }
            },
        }
    }
}

/// After the rating attribute was added to a tag, the next attribute is
/// added right behind it.
proof fn lemma_insertion_point_after_rating(text: Seq<char>, rating: u32)
    requires
        spec_insertion_point(text) is Some,
    ensures
        spec_insertion_point(
            spec_splice(
                text,
                spec_insertion_point(text)->0,
                spec_insertion_point(text)->0,
                spec_added_rating(rating),
            ),
        ) == Some(spec_insertion_point(text)->0 + spec_added_rating(rating).len()),
{
    let place = spec_insertion_point(text)->0;
    let added = spec_added_rating(rating);
    let fresh = spec_splice(text, place, place, added);
    let tag = spec_first_description_tag(text, 0)->0;
    let after = tag + spec_description_open().len();
    let close = spec_tag_close(text, after, None);
    lemma_insertion_point_bounds(text);
    lemma_first_description_tag_bounds(text, 0);
    lemma_tag_close_bounds(text, after, None);
    lemma_added_rating_chars(rating);
    reveal_strlit("<rdf:Description");
    assert(fresh.len() == text.len() + added.len());
    assert forall|i: int| 0 <= i < place implies fresh[i] == #[trigger] text[i] by {}
    assert forall|i: int| place <= i < text.len() implies fresh[i + added.len()]
        == #[trigger] text[i] by {}
    assert forall|i: int| 0 <= i < added.len() implies fresh[place + i] == #[trigger] added[i] by {}
    assert forall|k: int| 0 <= k <= tag implies spec_is_description_tag(fresh, k)
        == spec_is_description_tag(text, k) by {
        let open = spec_description_open();
        if k + open.len() <= text.len() {
            assert(fresh.subrange(k, k + open.len()) =~= text.subrange(k, k + open.len()));
            if k + open.len() < text.len() {
                if k + open.len() == place {
                    assert(fresh[place + 0] == added[0]);
                    assert(k == tag);
                }
            }
        } else {
            assert(!spec_matches_at(text, k, open));
            if spec_matches_at(fresh, k, open) {
                assert(fresh.subrange(k, k + open.len())[open.len() - 1] == open[open.len() - 1]);
                assert(fresh.subrange(k, k + open.len())[0] == open[0]);
            }
        }
    }
    lemma_first_description_tag_is(fresh, 0, tag);
    lemma_added_rating_is_skipped(fresh, place, rating);
    lemma_tag_close_after(text, fresh, place, added.len() as int, place, None);
    lemma_tag_close_before(text, fresh, place, added.len() as int, after, None);
    assert(spec_tag_close(fresh, after, None) == close + added.len());
    if place == close {
        assert(fresh[place + (added.len() - 1)] == added[added.len() - 1]);
    } else {
        assert(fresh[(close - 1) + added.len()] == text[close - 1]);
    }
}

/// Adding the rating attribute to a tag brings no percent attribute into a
/// packet that had none.
proof fn lemma_no_percent_after_rating(text: Seq<char>, place: int, rating: u32)
    requires
        0 <= place <= text.len(),
        forall|j: int| 0 <= j ==> !spec_matches_at(text, j, spec_percent_prefix()),
    ensures
        forall|j: int|
            0 <= j ==> !spec_matches_at(
                spec_splice(text, place, place, spec_added_rating(rating)),
                j,
                spec_percent_prefix(),
            ),
{
    let pat = spec_percent_prefix();
    let added = spec_added_rating(rating);
    let fresh = spec_splice(text, place, place, added);
    reveal_strlit("xmp:RatingPercent=\"");
    lemma_added_rating_chars(rating);
    assert(pat.len() == 19);
    assert forall|i: int| 0 <= i < pat.len() implies #[trigger] pat[i] != ' ' by {}
    assert forall|j: int| 0 <= j implies !spec_matches_at(fresh, j, pat) by {
        if spec_matches_at(fresh, j, pat) {
            let found = fresh.subrange(j, j + pat.len());
            if j + pat.len() <= place {
                assert(text.subrange(j, j + pat.len()) =~= found);
                assert(spec_matches_at(text, j, pat));
            } else if j <= place {
                assert(found[place - j] == fresh[place]);
                assert(fresh[place] == added[0]);
                assert(pat[place - j] != ' ');
            } else if j == place + 1 {
                assert(found[10] == fresh[place + 11]);
                assert(fresh[place + 11] == added[11]);
                assert(pat[10] == 'P');
            } else if j < place + added.len() {
                assert(found[0] == fresh[j]);
                assert(fresh[j] == added[j - place]);
                assert(pat[0] == 'x');
            } else {
                assert(text.subrange(j - added.len(), j - added.len() + pat.len()) =~= found);
                assert(spec_matches_at(text, j - added.len(), pat));
            }
        }
    }
}

/// A packet that names neither attribute and has the start tag of an
/// `rdf:Description` element, closed, gets both attributes at the end of
/// that tag, the rating before the percent, each after a space; every
/// character of the packet stays where it was, before or after them.
pub proof fn lemma_update_adds_both_attributes(text: Seq<char>, rating: u32)
    requires
        spec_insertion_point(text) is Some,
        spec_find_attribute(text, spec_rating_prefix()) is None,
        spec_find(text, spec_percent_prefix(), 0) is None,
    ensures
        spec_update_rating_in_xmp(text, rating) == spec_splice(
            text,
            spec_insertion_point(text)->0,
            spec_insertion_point(text)->0,
            spec_added_rating(rating) + spec_added_percent(spec_rating_to_percent(rating)),
        ),
{
    let place = spec_insertion_point(text)->0;
    let percent = spec_rating_to_percent(rating);
    let first = spec_added_rating(rating);
    let second = spec_added_percent(percent);
    let rated = spec_splice(text, place, place, first);
    lemma_insertion_point_bounds(text);
    assert(spec_set_attribute(text, spec_rating_prefix(), rating) == Some(rated));
    lemma_find_is_first(text, spec_percent_prefix(), 0);
    lemma_no_percent_after_rating(text, place, rating);
    lemma_find_is_first(rated, spec_percent_prefix(), 0);
    assert(spec_find(rated, spec_percent_prefix(), 0) is None);
    lemma_insertion_point_after_rating(text, rating);
    let next = place + first.len();
    let done = spec_splice(rated, next, next, second);
    assert(spec_set_attribute(rated, spec_percent_prefix(), percent) == Some(done));
    assert(done =~= spec_splice(text, place, place, first + second));
}

/// Whether a rating attribute with a value of digits alone starts at `at`.
pub open spec fn spec_is_rating_attribute(text: Seq<char>, at: int) -> bool {
    let value = at + spec_rating_prefix().len();
    let end = spec_digits_end(text, value);
    spec_matches_at(text, at, spec_rating_prefix()) && value < end && end < text.len()
        && text[end] == '"'
}

/// The index at or after `from` of the first rating attribute with a value of
/// digits alone.
pub open spec fn spec_first_rating_attribute(text: Seq<char>, from: int) -> Option<int>
    decreases text.len() + 1 - from,
{
    if from < 0 || from > text.len() {
        None
    } else if spec_is_rating_attribute(text, from) {
        Some(from)
    } else {
        spec_first_rating_attribute(text, from + 1)
    }
}

/// The rating that the text of a packet states: the value of the first
/// attribute `xmp:Rating` made of digits alone, where it is at most five.
pub open spec fn spec_parse_xmp_rating(text: Seq<char>) -> Option<u8> {
    match spec_first_rating_attribute(text, 0) {
        Some(at) => {
            let value = at + spec_rating_prefix().len();
            match spec_parse_unsigned(
                text.subrange(value, spec_digits_end(text, value)),
                MAX_RATING as nat,
            ) {
                Some(n) => Some(n as u8),
                None => None,
            }
        },
        None => None,
    }
}

/// Reads the rating from the text of a packet by its pattern alone.
pub fn parse_xmp_rating(xmp_content: &str) -> (rating: Option<u8>)
    ensures
        rating == spec_parse_xmp_rating(xmp_content@),
        rating is Some ==> rating->0 <= MAX_RATING,
{
    let text = chars_of(xmp_content);
    let prefix = chars_of("xmp:Rating=\"");
    let mut i: usize = 0;
    loop
        invariant
            i <= text.len(),
            text@ == xmp_content@,
            prefix@ == spec_rating_prefix(),
            spec_first_rating_attribute(text@, 0) == spec_first_rating_attribute(text@, i as int),
        decreases text.len() - i,
    {
        if matches_at(&text, i, &prefix) {
            let value: usize = i + prefix.len();
            let end = digits_end(&text, value);
            if value < end && end < text.len() && text[end] == '"' {
                return match parse_unsigned(&text, value, end, MAX_RATING) {
                    Some(n) => Some(n as u8),
                    None => None,
                };
            }
        }
        if i == text.len() {
            assert(spec_first_rating_attribute(text@, i + 1) is None);
            return None;
        }
        i += 1;
    }
}

proof fn lemma_digits_end_is(text: Seq<char>, from: int, end: int)
    requires
        0 <= from <= end <= text.len(),
        forall|i: int| from <= i < end ==> spec_is_digit(#[trigger] text[i]),
        end == text.len() || !spec_is_digit(text[end]),
    ensures
        spec_digits_end(text, from) == end,
    decreases end - from,
{
    if from < end {
        assert(spec_is_digit(text[from]));
        lemma_digits_end_is(text, from + 1, end);
    }
}

proof fn lemma_first_rating_attribute_is(text: Seq<char>, from: int, at: int)
    requires
        0 <= from <= at,
        spec_is_rating_attribute(text, at),
        forall|k: int| from <= k < at ==> !spec_matches_at(text, k, spec_rating_prefix()),
    ensures
        spec_first_rating_attribute(text, from) == Some(at),
    decreases at - from,
{
    if from < at {
        lemma_first_rating_attribute_is(text, from + 1, at);
    }
}

/// A rating of at most five that was added to a packet that named neither
/// attribute is the rating that the packet then states.
pub proof fn lemma_added_rating_is_read(text: Seq<char>, rating: u32)
    requires
        rating <= MAX_RATING,
        spec_insertion_point(text) is Some,
        spec_find(text, spec_rating_prefix(), 0) is None,
        spec_find(text, spec_percent_prefix(), 0) is None,
    ensures
        spec_parse_xmp_rating(spec_update_rating_in_xmp(text, rating)) == Some(rating as u8),
{
    let place = spec_insertion_point(text)->0;
    let first = spec_added_rating(rating);
    let second = spec_added_percent(spec_rating_to_percent(rating));
    let out = spec_splice(text, place, place, first + second);
    let prefix = spec_rating_prefix();
    let digits = spec_decimal_text(rating as nat);
    let at = place + 1;
    let value = at + prefix.len();
    let end = value + digits.len();
    lemma_update_adds_both_attributes(text, rating);
    lemma_insertion_point_bounds(text);
    lemma_added_rating_chars(rating);
    reveal_strlit("xmp:Rating=\"");
    assert forall|i: int| 0 <= i < first.len() implies out[place + i] == #[trigger] first[i] by {}
    assert(out[place + 0] == first[0]);
    assert(out.subrange(at, at + prefix.len()) =~= prefix);
    assert forall|i: int| value <= i < end implies spec_is_digit(#[trigger] out[i]) by {
        assert(out[place + (i - place)] == first[i - place]);
        assert(spec_is_digit(first[i - place]));
    }
    assert(out[place + (first.len() - 1)] == first[first.len() - 1]);
    lemma_digits_end_is(out, value, end);
    assert(spec_is_rating_attribute(out, at));
    lemma_find_is_first(text, prefix, 0);
    assert forall|i: int| 0 <= i < prefix.len() implies #[trigger] prefix[i] != ' ' by {}
    assert forall|k: int| 0 <= k < at implies !spec_matches_at(out, k, prefix) by {
        if spec_matches_at(out, k, prefix) {
            let found = out.subrange(k, k + prefix.len());
            if k + prefix.len() <= place {
                assert(text.subrange(k, k + prefix.len()) =~= found);
                assert(spec_matches_at(text, k, prefix));
            } else {
                assert(found[place - k] == out[place]);
                assert(prefix[place - k] != ' ');
            }
        }
    }
    lemma_first_rating_attribute_is(out, 0, at);
    assert(out.subrange(value, end) =~= digits);
    lemma_decimal_round_trip(rating as nat, MAX_RATING as nat);
}

proof fn lemma_find_is(text: Seq<char>, pat: Seq<char>, from: int, at: int)
    requires
        0 <= from <= at,
        spec_matches_at(text, at, pat),
        forall|k: int| from <= k < at ==> !spec_matches_at(text, k, pat),
    ensures
        spec_find(text, pat, from) == Some(at),
    decreases at - from,
{
    if from < at {
        lemma_find_is(text, pat, from + 1, at);
    }
}

/// The characters of an added percent attribute: a space, the name with the
/// quote that opens the value, digits, and the quote that closes it.
proof fn lemma_added_percent_chars(percent: u32)
    ensures
        spec_added_percent(percent).len() == 21 + spec_decimal_text(percent as nat).len(),
        spec_decimal_text(percent as nat).len() > 0,
        spec_added_percent(percent)[0] == ' ',
        spec_added_percent(percent).subrange(1, 20) == spec_percent_prefix(),
        spec_added_percent(percent)[spec_added_percent(percent).len() - 1] == '"',
        forall|i: int|
            20 <= i < spec_added_percent(percent).len() - 1 ==> spec_is_digit(
                #[trigger] spec_added_percent(percent)[i],
            ),
{
    reveal_strlit("xmp:RatingPercent=\"");
    let prefix = spec_percent_prefix();
    let digits = spec_decimal_text(percent as nat);
    let added = spec_added_percent(percent);
    lemma_decimal_text(percent as nat);
    assert(prefix.len() == 19);
    assert(added.len() == 21 + digits.len());
    assert(added.subrange(1, 20) =~= prefix);
    assert forall|i: int| 20 <= i < added.len() - 1 implies spec_is_digit(#[trigger] added[i]) by {
        assert(added[i] == digits[i - 20]);
        assert(spec_is_digit(digits[i - 20]));
    }
}

/// In a packet that names no rating before an added rating attribute, that
/// attribute is the first one.
proof fn lemma_added_rating_is_found(s: Seq<char>, place: int, rating: u32)
    requires
        0 <= place,
        place + spec_added_rating(rating).len() <= s.len(),
        forall|i: int|
            0 <= i < spec_added_rating(rating).len() ==> s[place + i]
                == #[trigger] spec_added_rating(rating)[i],
        forall|k: int|
            0 <= k && k + spec_rating_prefix().len() <= place ==> !spec_matches_at(
                s,
                k,
                spec_rating_prefix(),
            ),
    ensures
        spec_find_attribute(s, spec_rating_prefix()) == Some(
            (place + 1, place + spec_added_rating(rating).len()),
        ),
        s.subrange(place + 1, place + spec_added_rating(rating).len()) == spec_attribute(
            spec_rating_prefix(),
            rating,
        ),
{
    let prefix = spec_rating_prefix();
    let added = spec_added_rating(rating);
    let end = place + added.len();
    lemma_added_rating_chars(rating);
    reveal_strlit("xmp:Rating=\"");
    assert(s[place + 0] == added[0]);
    assert forall|i: int| 0 <= i < prefix.len() implies #[trigger] prefix[i] != ' ' by {}
    assert forall|i: int| 0 <= i < added.len() - 1 implies s.subrange(place + 1, end)[i]
        == #[trigger] spec_attribute(prefix, rating)[i] by {
        assert(s[place + (i + 1)] == added[i + 1]);
    }
    assert(s.subrange(place + 1, end) =~= spec_attribute(prefix, rating));
    assert forall|i: int| 0 <= i < 12 implies s.subrange(place + 1, place + 13)[i]
        == #[trigger] prefix[i] by {
        assert(s[place + (i + 1)] == added[i + 1]);
    }
    assert(s.subrange(place + 1, place + 13) =~= prefix);
    assert forall|k: int| 0 <= k < place + 1 implies !spec_matches_at(s, k, prefix) by {
        if spec_matches_at(s, k, prefix) {
            let found = s.subrange(k, k + prefix.len());
            if k + prefix.len() > place {
                assert(found[place - k] == s[place]);
                assert(prefix[place - k] != ' ');
            }
        }
    }
    lemma_find_is(s, prefix, 0, place + 1);
    lemma_index_of(s, '"', place + 13, s.len() as int);
    assert(s[place + (added.len() - 1)] == added[added.len() - 1]);
    assert forall|i: int| place + 13 <= i < end - 1 implies s[i] != '"' by {
        assert(s[place + (i - place)] == added[i - place]);
        assert(spec_is_digit(added[i - place]));
    }
    assert(s[end - 1] == '"');
    assert(spec_index_of(s, '"', place + 13, s.len() as int) == end - 1);
}

/// In a packet that names no percent before an added rating attribute that
/// an added percent attribute follows, that percent attribute is the first
/// one.
proof fn lemma_added_percent_is_found(s: Seq<char>, place: int, rating: u32, percent: u32)
    requires
        0 <= place,
        place + spec_added_rating(rating).len() + spec_added_percent(percent).len() <= s.len(),
        forall|i: int|
            0 <= i < spec_added_rating(rating).len() ==> s[place + i]
                == #[trigger] spec_added_rating(rating)[i],
        forall|i: int|
            0 <= i < spec_added_percent(percent).len() ==> s[place + spec_added_rating(
                rating,
            ).len() + i] == #[trigger] spec_added_percent(percent)[i],
        forall|k: int|
            0 <= k && k + spec_percent_prefix().len() <= place ==> !spec_matches_at(
                s,
                k,
                spec_percent_prefix(),
            ),
    ensures
        spec_find_attribute(s, spec_percent_prefix()) == Some(
            (
                place + spec_added_rating(rating).len() + 1,
                place + spec_added_rating(rating).len() + spec_added_percent(percent).len(),
            ),
        ),
{
    let prefix = spec_percent_prefix();
    let first = spec_added_rating(rating);
    let second = spec_added_percent(percent);
    let next = place + first.len();
    let end = next + second.len();
    lemma_added_rating_chars(rating);
    lemma_added_percent_chars(percent);
    reveal_strlit("xmp:RatingPercent=\"");
    assert(prefix.len() == 19);
    assert(s[place + 0] == first[0]);
    assert(s[next + 0] == second[0]);
    assert forall|i: int| 0 <= i < prefix.len() implies #[trigger] prefix[i] != ' ' by {}
    assert forall|i: int| 0 <= i < 19 implies s.subrange(next + 1, next + 20)[i]
        == #[trigger] prefix[i] by {
        assert(s[next + (i + 1)] == second[i + 1]);
        assert(second.subrange(1, 20)[i] == second[i + 1]);
    }
    assert(s.subrange(next + 1, next + 20) =~= prefix);
    assert forall|k: int| 0 <= k < next + 1 implies !spec_matches_at(s, k, prefix) by {
        if spec_matches_at(s, k, prefix) {
            let found = s.subrange(k, k + prefix.len());
            if k + prefix.len() <= place {
            } else if k <= place {
                assert(found[place - k] == s[place]);
                assert(prefix[place - k] != ' ');
            } else if k == place + 1 {
                assert(found[10] == s[place + 11]);
                assert(s[place + 11] == first[11]);
                assert(prefix[10] == 'P');
            } else if k < next {
                assert(found[0] == s[k]);
                assert(s[place + (k - place)] == first[k - place]);
                assert(prefix[0] == 'x');
            } else {
                assert(found[0] == s[next]);
                assert(prefix[0] == 'x');
            }
        }
    }
    lemma_find_is(s, prefix, 0, next + 1);
    lemma_index_of(s, '"', next + 20, s.len() as int);
    assert(s[next + (second.len() - 1)] == second[second.len() - 1]);
    assert forall|i: int| next + 20 <= i < end - 1 implies s[i] != '"' by {
        assert(s[next + (i - next)] == second[i - next]);
        assert(spec_is_digit(second[i - next]));
    }
    assert(s[end - 1] == '"');
    assert(spec_index_of(s, '"', next + 20, s.len() as int) == end - 1);
}

/// Setting the rating of a packet to which a rating attribute was added
/// replaces that attribute where it stands.
proof fn lemma_added_rating_is_replaced(
    text: Seq<char>,
    place: int,
    before: u32,
    rating: u32,
    rest: Seq<char>,
)
    requires
        0 <= place <= text.len(),
        forall|j: int| 0 <= j ==> !spec_matches_at(text, j, spec_rating_prefix()),
    ensures
        spec_set_attribute(
            spec_splice(text, place, place, spec_added_rating(before) + rest),
            spec_rating_prefix(),
            rating,
        ) == Some(spec_splice(text, place, place, spec_added_rating(rating) + rest)),
{
    let prefix = spec_rating_prefix();
    let old_first = spec_added_rating(before);
    let once = spec_splice(text, place, place, old_first + rest);
    assert forall|i: int| 0 <= i < old_first.len() implies once[place + i]
        == #[trigger] old_first[i] by {}
    assert forall|k: int| 0 <= k && k + prefix.len() <= place implies !spec_matches_at(
        once,
        k,
        prefix,
    ) by {
        assert(once.subrange(k, k + prefix.len()) =~= text.subrange(k, k + prefix.len()));
        assert(!spec_matches_at(text, k, prefix));
    }
    lemma_added_rating_is_found(once, place, before);
    let rated = spec_splice(
        once,
        place + 1,
        place + old_first.len(),
        spec_attribute(prefix, rating),
    );
    assert(spec_set_attribute(once, prefix, rating) == Some(rated));
    assert(rated =~= spec_splice(text, place, place, spec_added_rating(rating) + rest));
}

/// Setting the percent of a packet to which a rating attribute and a percent
/// attribute were added replaces the percent attribute where it stands.
proof fn lemma_added_percent_is_replaced(
    text: Seq<char>,
    place: int,
    rating: u32,
    before: u32,
    percent: u32,
)
    requires
        0 <= place <= text.len(),
        forall|j: int| 0 <= j ==> !spec_matches_at(text, j, spec_percent_prefix()),
    ensures
        spec_set_attribute(
            spec_splice(
                text,
                place,
                place,
                spec_added_rating(rating) + spec_added_percent(before),
            ),
            spec_percent_prefix(),
            percent,
        ) == Some(
            spec_splice(
                text,
                place,
                place,
                spec_added_rating(rating) + spec_added_percent(percent),
            ),
        ),
{
    let prefix = spec_percent_prefix();
    let first = spec_added_rating(rating);
    let old_second = spec_added_percent(before);
    let rated = spec_splice(text, place, place, first + old_second);
    let next = place + first.len();
    assert forall|i: int| 0 <= i < first.len() implies rated[place + i] == #[trigger] first[i] by {}
    assert forall|i: int| 0 <= i < old_second.len() implies rated[place + first.len() + i]
        == #[trigger] old_second[i] by {}
    assert forall|k: int| 0 <= k && k + prefix.len() <= place implies !spec_matches_at(
        rated,
        k,
        prefix,
    ) by {
        assert(rated.subrange(k, k + prefix.len()) =~= text.subrange(k, k + prefix.len()));
        assert(!spec_matches_at(text, k, prefix));
    }
    lemma_added_percent_is_found(rated, place, rating, before);
    let done = spec_splice(rated, next + 1, next + old_second.len(), spec_attribute(prefix, percent));
    assert(spec_set_attribute(rated, prefix, percent) == Some(done));
    assert(done =~= spec_splice(text, place, place, first + spec_added_percent(percent)));
}

/// After a first update of a packet that named neither attribute, a second
/// update leaves what an update of the packet itself would have left: the
/// two attributes are replaced where they were added, so the packet holds
/// the last rating alone, and reads back as it where it is at most five.
pub proof fn lemma_update_follows_update(text: Seq<char>, before: u32, rating: u32)
    requires
        spec_insertion_point(text) is Some,
        spec_find(text, spec_rating_prefix(), 0) is None,
        spec_find(text, spec_percent_prefix(), 0) is None,
    ensures
        spec_update_rating_in_xmp(spec_update_rating_in_xmp(text, before), rating)
            == spec_update_rating_in_xmp(text, rating),
        rating <= MAX_RATING ==> spec_parse_xmp_rating(
            spec_update_rating_in_xmp(spec_update_rating_in_xmp(text, before), rating),
        ) == Some(rating as u8),
{
    let place = spec_insertion_point(text)->0;
    lemma_insertion_point_bounds(text);
    lemma_update_adds_both_attributes(text, before);
    lemma_update_adds_both_attributes(text, rating);
    lemma_find_is_first(text, spec_rating_prefix(), 0);
    lemma_find_is_first(text, spec_percent_prefix(), 0);
    lemma_added_rating_is_replaced(
        text,
        place,
        before,
        rating,
        spec_added_percent(spec_rating_to_percent(before)),
    );
    lemma_added_percent_is_replaced(
        text,
        place,
        rating,
        spec_rating_to_percent(before),
        spec_rating_to_percent(rating),
    );
    if rating <= MAX_RATING {
        lemma_added_rating_is_read(text, rating);
    }
}

} // verus!
