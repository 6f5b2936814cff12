//! Character-level helpers shared by the text parsers: conversion between
//! bytes, strings and character vectors, whitespace trimming, pattern search
//! and unsigned decimal numbers.

use vstd::prelude::*;
use vstd::utf8::encode_utf8;
use vstd::utf8::valid_utf8;

verus! {

/// `String::push` appends one character to the end of the string.
pub assume_specification[ String::push ](s: &mut String, c: char)
    ensures
        final(s)@ == old(s)@.push(c),
;

/// `String::from_utf8` turns bytes into the string that they encode, and
/// fails exactly where they are not valid UTF-8.
#[verifier::external_body]
pub(crate) fn string_from_utf8(bytes: Vec<u8>) -> (text: Option<String>)
    ensures
        text is Some == valid_utf8(bytes@),
        text is Some ==> encode_utf8(text->0@) == bytes@,
{
    String::from_utf8(bytes).ok()
}

/// The characters of a string, in order.
pub fn chars_of(s: &str) -> (v: Vec<char>)
    ensures
        v@ == s@,
{
    let mut v: Vec<char> = Vec::new();
    for c in it: s.chars()
        invariant
            it.seq() == s@,
            v@ == it.seq().take(it.index() as int),
    {
        v.push(c);
        assert(it.seq().take(it.index() + 1) =~= it.seq().take(it.index() as int).push(c));
    }
    assert(v@ =~= s@);
    v
}

/// The string made of the characters `v[from..to]`.
pub fn string_of_range(v: &Vec<char>, from: usize, to: usize) -> (s: String)
    requires
        from <= to <= v.len(),
    ensures
        s@ == v@.subrange(from as int, to as int),
{
    let mut s = String::new();
    let mut i: usize = from;
    while i < to
        invariant
            from <= i <= to <= v.len(),
            s@ == v@.subrange(from as int, i as int),
        decreases to - i,
    {
        s.push(v[i]);
        assert(v@.subrange(from as int, i + 1) =~= v@.subrange(from as int, i as int).push(
            v@[i as int],
        ));
        i += 1;
    }
    s
}

/// The string made of all the characters of `v`.
pub fn string_of(v: &Vec<char>) -> (s: String)
    ensures
        s@ == v@,
{
    let s = string_of_range(v, 0, v.len());
    assert(v@.subrange(0, v.len() as int) =~= v@);
    s
}

/// Appends the characters of `tail` to `v`.
pub fn append_chars(v: &mut Vec<char>, tail: &Vec<char>)
    ensures
        final(v)@ == old(v)@ + tail@,
{
    let mut i: usize = 0;
    while i < tail.len()
        invariant
            i <= tail.len(),
            v@ == old(v)@ + tail@.take(i as int),
        decreases tail.len() - i,
    {
        v.push(tail[i]);
        assert(tail@.take(i + 1) =~= tail@.take(i as int).push(tail@[i as int]));
        assert(v@ =~= old(v)@ + tail@.take(i + 1));
        i += 1;
    }
    assert(tail@.take(tail.len() as int) =~= tail@);
}

/// Appends the characters `src[from..to]` to `v`.
pub fn append_range(v: &mut Vec<char>, src: &Vec<char>, from: usize, to: usize)
    requires
        from <= to <= src.len(),
    ensures
        final(v)@ == old(v)@ + src@.subrange(from as int, to as int),
{
    let mut i: usize = from;
    while i < to
        invariant
            from <= i <= to <= src.len(),
            v@ == old(v)@ + src@.subrange(from as int, i as int),
        decreases to - i,
    {
        v.push(src[i]);
        assert(src@.subrange(from as int, i + 1) =~= src@.subrange(from as int, i as int).push(
            src@[i as int],
        ));
        assert(v@ =~= old(v)@ + src@.subrange(from as int, i + 1));
        i += 1;
    }
}

/// Whether two character vectors hold the same characters.
pub fn chars_equal(a: &Vec<char>, b: &Vec<char>) -> (same: bool)
    ensures
        same == (a@ == b@),
{
    if a.len() != b.len() {
        return false;
    }
    let mut i: usize = 0;
    while i < a.len()
        invariant
            i <= a.len(),
            a.len() == b.len(),
            a@.take(i as int) == b@.take(i as int),
        decreases a.len() - i,
    {
        if a[i] != b[i] {
            return false;
        }
        assert(a@.take(i + 1) =~= a@.take(i as int).push(a@[i as int]));
        assert(b@.take(i + 1) =~= b@.take(i as int).push(b@[i as int]));
        i += 1;
    }
    assert(a@.take(a.len() as int) =~= a@);
    assert(b@.take(b.len() as int) =~= b@);
    true
}

/// White space as Unicode defines it: the characters that trimming removes.
pub open spec fn spec_is_whitespace(c: char) -> bool {
    let u = c as u32;
    (0x09 <= u <= 0x0D) || u == 0x20 || u == 0x85 || u == 0xA0 || u == 0x1680 || (0x2000 <= u
        <= 0x200A) || u == 0x2028 || u == 0x2029 || u == 0x202F || u == 0x205F || u == 0x3000
}

pub fn is_whitespace(c: char) -> (b: bool)
    ensures
        b == spec_is_whitespace(c),
{
    let u: u32 = c as u32;
    (0x09 <= u && u <= 0x0D) || u == 0x20 || u == 0x85 || u == 0xA0 || u == 0x1680 || (0x2000 <= u
        && u <= 0x200A) || u == 0x2028 || u == 0x2029 || u == 0x202F || u == 0x205F || u == 0x3000
}

/// `s` without its leading white space.
pub open spec fn spec_trim_start(s: Seq<char>) -> Seq<char>
    decreases s.len(),
{
    if s.len() > 0 && spec_is_whitespace(s[0]) {
        spec_trim_start(s.subrange(1, s.len() as int))
    } else {
        s
    }
}

/// `s` without its trailing white space.
pub open spec fn spec_trim_end(s: Seq<char>) -> Seq<char>
    decreases s.len(),
{
    if s.len() > 0 && spec_is_whitespace(s[s.len() - 1]) {
        spec_trim_end(s.subrange(0, s.len() - 1))
    } else {
        s
    }
}

/// `s` without leading and trailing white space.
pub open spec fn spec_trim(s: Seq<char>) -> Seq<char> {
    spec_trim_end(spec_trim_start(s))
}

/// The bounds of `v[from..to]` once its leading and trailing white space is
/// removed.
pub fn trim_range(v: &Vec<char>, from: usize, to: usize) -> (r: (usize, usize))
    requires
        from <= to <= v.len(),
    ensures
        from <= r.0 <= r.1 <= to,
        v@.subrange(r.0 as int, r.1 as int) == spec_trim(v@.subrange(from as int, to as int)),
{
    let mut a: usize = from;
    while a < to && is_whitespace(v[a])
        invariant
            from <= a <= to <= v.len(),
            spec_trim_start(v@.subrange(from as int, to as int)) == spec_trim_start(
                v@.subrange(a as int, to as int),
            ),
        decreases to - a,
    {
        assert(v@.subrange(a as int, to as int).subrange(1, to - a) =~= v@.subrange(
            a + 1,
            to as int,
        ));
        a += 1;
    }
    let mut b: usize = to;
    while a < b && is_whitespace(v[b - 1])
        invariant
            a <= b <= to <= v.len(),
            spec_trim_end(v@.subrange(a as int, to as int)) == spec_trim_end(
                v@.subrange(a as int, b as int),
            ),
        decreases b - a,
    {
        assert(v@.subrange(a as int, b as int).subrange(0, b - a - 1) =~= v@.subrange(
            a as int,
            b - 1,
        ));
        b -= 1;
    }
    (a, b)
}

/// Whether `pat` stands in `text` at index `at`.
pub open spec fn spec_matches_at(text: Seq<char>, at: int, pat: Seq<char>) -> bool {
    0 <= at && at + pat.len() <= text.len() && text.subrange(at, at + pat.len()) == pat
}

pub fn matches_at(text: &Vec<char>, at: usize, pat: &Vec<char>) -> (b: bool)
    ensures
        b == spec_matches_at(text@, at as int, pat@),
{
    if at > text.len() || pat.len() > text.len() - at {
        return false;
    }
    let mut i: usize = 0;
    while i < pat.len()
        invariant
            i <= pat.len(),
            at + pat.len() <= text.len(),
            text@.subrange(at as int, at + i) == pat@.take(i as int),
        decreases pat.len() - i,
    {
        if text[at + i] != pat[i] {
            assert(text@.subrange(at as int, at + pat.len())[i as int] != pat@[i as int]);
            return false;
        }
        assert(text@.subrange(at as int, at + i + 1) =~= text@.subrange(at as int, at + i).push(
            text@[at + i],
        ));
        assert(pat@.take(i + 1) =~= pat@.take(i as int).push(pat@[i as int]));
        i += 1;
    }
    assert(pat@.take(pat.len() as int) =~= pat@);
    true
}

/// The first index at or after `from` where `pat` stands in `text`.
pub open spec fn spec_find(text: Seq<char>, pat: Seq<char>, from: int) -> Option<int>
    decreases text.len() + 1 - from,
{
    if from < 0 || from + pat.len() > text.len() {
        None
    } else if spec_matches_at(text, from, pat) {
        Some(from)
    } else {
        spec_find(text, pat, from + 1)
    }
}

pub fn find(text: &Vec<char>, pat: &Vec<char>, from: usize) -> (r: Option<usize>)
    ensures
        r is Some == spec_find(text@, pat@, from as int) is Some,
        r is Some ==> r->0 as int == spec_find(text@, pat@, from as int)->0,
        r is Some ==> from <= r->0 && spec_matches_at(text@, r->0 as int, pat@),
{
    if from > text.len() || pat.len() > text.len() - from {
        return None;
    }
    let last: usize = text.len() - pat.len();
    let mut i: usize = from;
    loop
        invariant
            from <= i <= last,
            last == text.len() - pat.len(),
            spec_find(text@, pat@, from as int) == spec_find(text@, pat@, i as int),
        decreases last - i,
    {
        if matches_at(text, i, pat) {
            return Some(i);
        }
        if i == last {
            assert(spec_find(text@, pat@, i + 1) is None);
            return None;
        }
        i += 1;
    }
}

/// What `spec_find` returns is the first match, and `None` means that there is
/// none at or after `from`.
pub proof fn lemma_find_is_first(text: Seq<char>, pat: Seq<char>, from: int)
    requires
        0 <= from,
    ensures
        match spec_find(text, pat, from) {
            Some(i) => from <= i && spec_matches_at(text, i, pat) && forall|j: int|
                from <= j < i ==> !spec_matches_at(text, j, pat),
            None => forall|j: int| from <= j ==> !spec_matches_at(text, j, pat),
        },
    decreases text.len() + 1 - from,
{
    if from + pat.len() > text.len() {
    } else if spec_matches_at(text, from, pat) {
    } else {
        lemma_find_is_first(text, pat, from + 1);
    }
}

/// The first index in `from..to` that holds the character `c`, or `to`.
pub open spec fn spec_index_of(text: Seq<char>, c: char, from: int, to: int) -> int
    decreases to - from,
{
    if from >= to {
        to
    } else if text[from] == c {
        from
    } else {
        spec_index_of(text, c, from + 1, to)
    }
}

pub fn index_of(text: &Vec<char>, c: char, from: usize, to: usize) -> (r: usize)
    requires
        from <= to <= text.len(),
    ensures
        r as int == spec_index_of(text@, c, from as int, to as int),
        from <= r <= to,
{
    let mut i: usize = from;
    while i < to && text[i] != c
        invariant
            from <= i <= to <= text.len(),
            spec_index_of(text@, c, from as int, to as int) == spec_index_of(
                text@,
                c,
                i as int,
                to as int,
            ),
        decreases to - i,
    {
        i += 1;
    }
    i
}

/// What `spec_index_of` returns lies in `from..=to`, holds `c` unless it is
/// `to`, and no earlier index in the range holds `c`.
pub proof fn lemma_index_of(text: Seq<char>, c: char, from: int, to: int)
    requires
        from <= to,
    ensures
        from <= spec_index_of(text, c, from, to) <= to,
        spec_index_of(text, c, from, to) < to ==> text[spec_index_of(text, c, from, to)] == c,
        forall|j: int| from <= j < spec_index_of(text, c, from, to) ==> text[j] != c,
    decreases to - from,
{
    if from < to && text[from] != c {
        lemma_index_of(text, c, from + 1, to);
    }
}

/// An ASCII decimal digit.
pub open spec fn spec_is_digit(c: char) -> bool {
    48 <= c as u32 <= 57
}

pub fn is_digit(c: char) -> (b: bool)
    ensures
        b == spec_is_digit(c),
{
    let u: u32 = c as u32;
    48 <= u && u <= 57
}

/// Where the digits that follow `from` end: the first index at or after
/// `from` that holds no digit, or the length.
pub open spec fn spec_digits_end(text: Seq<char>, from: int) -> int
    decreases text.len() - from,
{
    if from < 0 || from >= text.len() || !spec_is_digit(text[from]) {
        from
    } else {
        spec_digits_end(text, from + 1)
    }
}

pub fn digits_end(text: &Vec<char>, from: usize) -> (end: usize)
    requires
        from <= text.len(),
    ensures
        end as int == spec_digits_end(text@, from as int),
        from <= end <= text.len(),
{
    let mut i: usize = from;
    while i < text.len() && is_digit(text[i])
        invariant
            from <= i <= text.len(),
            spec_digits_end(text@, from as int) == spec_digits_end(text@, i as int),
        decreases text.len() - i,
    {
        i += 1;
    }
    i
}

/// Whether every character of `s` is an ASCII decimal digit.
pub open spec fn spec_all_digits(s: Seq<char>) -> bool {
    forall|i: int| 0 <= i < s.len() ==> spec_is_digit(#[trigger] s[i])
}

/// The number that the decimal digits `s` write.
pub open spec fn spec_decimal_value(s: Seq<char>) -> nat
    decreases s.len(),
{
    if s.len() == 0 {
        0
    } else {
        (spec_decimal_value(s.subrange(0, s.len() - 1)) * 10 + (s[s.len() - 1] as u32 - 48)) as nat
    }
}

/// The digits of `s` once an optional leading `+` is taken away.
pub open spec fn spec_unsigned_digits(s: Seq<char>) -> Seq<char> {
    if s.len() > 0 && s[0] == '+' {
        s.subrange(1, s.len() as int)
    } else {
        s
    }
}

/// `s` read as an unsigned decimal number no greater than `max`: an optional
/// `+`, then at least one digit and nothing else.
pub open spec fn spec_parse_unsigned(s: Seq<char>, max: nat) -> Option<nat> {
    let digits = spec_unsigned_digits(s);
    if digits.len() > 0 && spec_all_digits(digits) && spec_decimal_value(digits) <= max {
        Some(spec_decimal_value(digits))
    } else {
        None
    }
}

proof fn lemma_decimal_value_prefix(s: Seq<char>, n: int)
    requires
        0 <= n <= s.len(),
        spec_all_digits(s),
    ensures
        spec_decimal_value(s.subrange(0, n)) <= spec_decimal_value(s),
    decreases s.len() - n,
{
    if n < s.len() {
        let longer = s.subrange(0, n + 1);
        assert(longer.subrange(0, longer.len() - 1) =~= s.subrange(0, n));
        assert(spec_is_digit(s[n]));
        assert(longer[longer.len() - 1] == s[n]);
        lemma_decimal_value_prefix(s, n + 1);
    } else {
        assert(s.subrange(0, n) =~= s);
    }
}

/// Reads `v[from..to]` as an unsigned decimal number no greater than `max`.
pub fn parse_unsigned(v: &Vec<char>, from: usize, to: usize, max: u32) -> (r: Option<u32>)
    requires
        from <= to <= v.len(),
    ensures
        r is Some == spec_parse_unsigned(v@.subrange(from as int, to as int), max as nat) is Some,
        r is Some ==> r->0 as nat == spec_parse_unsigned(
            v@.subrange(from as int, to as int),
            max as nat,
        )->0,
{
    let ghost s = v@.subrange(from as int, to as int);
    let start: usize = if from < to && v[from] == '+' {
        from + 1
    } else {
        from
    };
    let ghost digits = spec_unsigned_digits(s);
    assert(digits =~= v@.subrange(start as int, to as int));
    if start == to {
        return None;
    }
    let mut acc: u32 = 0;
    let mut i: usize = start;
    while i < to
        invariant
            start <= i <= to <= v.len(),
            digits == v@.subrange(start as int, to as int),
            digits == spec_unsigned_digits(v@.subrange(from as int, to as int)),
            spec_all_digits(digits.subrange(0, i - start)),
            acc as nat == spec_decimal_value(digits.subrange(0, i - start)),
            acc <= max,
        decreases to - i,
    {
        let c = v[i];
        let ghost longer = digits.subrange(0, i + 1 - start);
        assert(longer.subrange(0, longer.len() - 1) =~= digits.subrange(0, i - start));
        assert(longer[longer.len() - 1] == c);
        if !is_digit(c) {
            assert(!spec_is_digit(digits[i - start]));
            return None;
        }
        let d: u32 = c as u32 - 48;
        assert forall|k: int| 0 <= k < longer.len() implies spec_is_digit(#[trigger] longer[k]) by {
            if k < longer.len() - 1 {
                assert(longer[k] == digits.subrange(0, i - start)[k]);
            }
        }
        if d > max || acc > (max - d) / 10 {
            proof {
                assert(spec_decimal_value(longer) > max);
                if spec_all_digits(digits) {
                    lemma_decimal_value_prefix(digits, i + 1 - start);
                }
            }
            return None;
        }
        acc = acc * 10 + d;
        i += 1;
    }
    assert(digits.subrange(0, to - start) =~= digits);
    Some(acc)
}

/// The ASCII lower-case form of a character; other characters stay.
pub open spec fn spec_ascii_lower(c: char) -> char {
    if 65 <= c as u32 <= 90 {
        ((c as u32 + 32) as u8) as char
    } else {
        c
    }
}

pub fn ascii_lower(c: char) -> (r: char)
    ensures
        r == spec_ascii_lower(c),
{
    let u: u32 = c as u32;
    if 65 <= u && u <= 90 {
        ((u + 32) as u8) as char
    } else {
        c
    }
}

/// `s` with each ASCII upper-case letter replaced by its lower-case form.
pub open spec fn spec_ascii_lowercase(s: Seq<char>) -> Seq<char> {
    Seq::new(s.len(), |i: int| spec_ascii_lower(s[i]))
}

/// The characters `v[from..to]` in ASCII lower case.
pub fn ascii_lowercase_range(v: &Vec<char>, from: usize, to: usize) -> (r: Vec<char>)
    requires
        from <= to <= v.len(),
    ensures
        r@ == spec_ascii_lowercase(v@.subrange(from as int, to as int)),
{
    let mut r: Vec<char> = Vec::new();
    let mut i: usize = from;
    while i < to
        invariant
            from <= i <= to <= v.len(),
            r@ == spec_ascii_lowercase(v@.subrange(from as int, i as int)),
        decreases to - i,
    {
        r.push(ascii_lower(v[i]));
        assert(r@ =~= spec_ascii_lowercase(v@.subrange(from as int, i + 1)));
        i += 1;
    }
    r
}

} // verus!
