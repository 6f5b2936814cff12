//! Rating and percent read from and written into an XMP packet through the
//! XMP engine, and the packet written into an image file.
//!
//! What the engine returns depends on more than its arguments (it keeps a
//! register of namespaces for the whole process), so nothing is claimed of
//! it. The rules applied to what it returns are verified for every value.

use vstd::prelude::*;
use vstd::utf8::encode_utf8;
use vstd::utf8::valid_utf8;
use crate::error::AppError;
use crate::error::InvalidInput;
use crate::format::ImageFormat;
use crate::jpeg::embed_xmp_in_jpeg_vec;
use crate::jpeg::extract_xmp_from_jpeg;
use crate::jpeg::spec_embed_xmp_in_jpeg;
use crate::jpeg::spec_jpeg_xmp_bytes;
use crate::png::extract_xmp_from_png;
use crate::png::spec_png_xmp_bytes;
use crate::png_xmp::embed_xmp_in_png_chunks;
use crate::png_xmp::spec_embed_xmp_in_png;
use crate::rating::percent_to_rating;
use crate::rating::rating_to_percent;
use crate::rating::settle_rating_write;
use crate::rating::spec_percent_to_rating;
use crate::rating::spec_rating_to_percent;
use crate::rating::spec_settle_rating_write;
use crate::rating::MAX_RATING;
use crate::text::chars_equal;
use crate::text::chars_of;
use crate::text::parse_unsigned;
use crate::text::spec_parse_unsigned;
use crate::text::string_of;
use crate::xmp::lemma_decimal_round_trip;
use crate::xmp::parse_xmp_rating;
use crate::xmp::push_decimal;
use crate::xmp::spec_decimal_text;
use crate::xmp::spec_parse_xmp_rating;
use std::str::FromStr;

verus! {

/// `xmp_toolkit::XmpMeta`, a packet as the engine holds it. Nothing of what
/// it holds is visible here.
#[verifier::external_type_specification]
#[verifier::external_body]
pub struct ExXmpMeta(xmp_toolkit::XmpMeta);

/// `xmp_toolkit::XmpError`, the error of the engine.
#[verifier::external_type_specification]
#[verifier::external_body]
pub struct ExXmpError(xmp_toolkit::XmpError);

/// One property of a packet, as the engine lists it.
#[derive(Clone, Debug, PartialEq, Eq)]
pub struct XmpProperty {
    /// The namespace of the schema that the property belongs to.
    pub schema_ns: String,
    /// The path of the property.
    pub name: String,
    pub value: String,
}

/// `XmpMeta::from_str` parses a packet; nothing is claimed of the outcome.
#[verifier::external_body]
fn engine_parse(xmp_str: &str) -> Result<xmp_toolkit::XmpMeta, xmp_toolkit::XmpError> {
    xmp_toolkit::XmpMeta::from_str(xmp_str)
}

/// `XmpMeta::new` makes an empty packet; nothing is claimed of the outcome.
#[verifier::external_body]
fn engine_new() -> Result<xmp_toolkit::XmpMeta, xmp_toolkit::XmpError> {
    xmp_toolkit::XmpMeta::new()
}

/// `XmpMeta::iter` lists the properties of a packet, here each with its
/// namespace, path and value; nothing is claimed of the list.
#[verifier::external_body]
fn engine_properties(meta: &xmp_toolkit::XmpMeta) -> Vec<XmpProperty> {
    meta.iter(xmp_toolkit::IterOptions::default()).map(
        |p| XmpProperty { schema_ns: p.schema_ns, name: p.name, value: p.value.value },
    ).collect()
}

/// `XmpMeta::set_property` sets a simple property; nothing is claimed of the
/// outcome.
#[verifier::external_body]
fn engine_set_property(
    meta: &mut xmp_toolkit::XmpMeta,
    namespace: &str,
    path: &str,
    value: String,
) -> Result<(), xmp_toolkit::XmpError> {
    meta.set_property(namespace, path, &xmp_toolkit::XmpValue::new(value))
}

/// `XmpMeta::to_string_with_options`, with the options of `Default`, writes a
/// packet as text; nothing is claimed of the outcome.
#[verifier::external_body]
fn engine_serialize(meta: &xmp_toolkit::XmpMeta) -> Result<String, xmp_toolkit::XmpError> {
    meta.to_string_with_options(xmp_toolkit::ToStringOptions::default())
}

/// The text with which an `XmpError` describes itself.
#[verifier::external_body]
fn engine_error_text(error: &xmp_toolkit::XmpError) -> String {
    error.to_string()
}

/// The namespace `http://ns.adobe.com/xap/1.0/` of the rating.
pub open spec fn spec_xmp_namespace() -> Seq<char> {
    "http://ns.adobe.com/xap/1.0/"@
}

/// Whether a property lies in the namespace of the rating under the path
/// `name`, written with or without the prefix `xmp:`.
pub open spec fn spec_is_named(property: XmpProperty, name: Seq<char>) -> bool {
    property.schema_ns@ == spec_xmp_namespace() && (property.name@ == name || property.name@
        == "xmp:"@ + name)
}

/// The rating that one property states: it is named `Rating` and its value
/// is a decimal number of at most five.
pub open spec fn spec_property_rating(property: XmpProperty) -> Option<u32> {
    if spec_is_named(property, "Rating"@) {
        match spec_parse_unsigned(property.value@, MAX_RATING as nat) {
            Some(n) => Some(n as u32),
            None => None,
        }
    } else {
        None
    }
}

/// The percent that one property states: it is named `RatingPercent` and its
/// value is a decimal number.
pub open spec fn spec_property_percent(property: XmpProperty) -> Option<u32> {
    if spec_is_named(property, "RatingPercent"@) {
        match spec_parse_unsigned(property.value@, u32::MAX as nat) {
            Some(n) => Some(n as u32),
            None => None,
        }
    } else {
        None
    }
}

/// The rating of the last property that states one.
pub open spec fn spec_last_rating(properties: Seq<XmpProperty>) -> Option<u32>
    decreases properties.len(),
{
    if properties.len() == 0 {
        None
    } else {
        match spec_property_rating(properties[properties.len() - 1]) {
            Some(r) => Some(r),
            None => spec_last_rating(properties.subrange(0, properties.len() - 1)),
        }
    }
}

/// The percent of the last property that states one.
pub open spec fn spec_last_percent(properties: Seq<XmpProperty>) -> Option<u32>
    decreases properties.len(),
{
    if properties.len() == 0 {
        None
    } else {
        match spec_property_percent(properties[properties.len() - 1]) {
            Some(p) => Some(p),
            None => spec_last_percent(properties.subrange(0, properties.len() - 1)),
        }
    }
}

/// The rating that a list of properties states: the rating itself where a
/// property states one, else the rating that the percent stands for.
pub open spec fn spec_rating_from_properties(properties: Seq<XmpProperty>) -> Option<u32> {
    match spec_last_rating(properties) {
        Some(r) => Some(r),
        None => match spec_last_percent(properties) {
            Some(p) => Some(spec_percent_to_rating(p) as u32),
            None => None,
        },
    }
}

/// A list of properties in which the last property that states a rating is
/// named `Rating` and holds the digits of `rating` reads back as `rating`.
pub proof fn lemma_rating_property_reads_back(properties: Seq<XmpProperty>, at: int, rating: u32)
    requires
        rating <= MAX_RATING,
        0 <= at < properties.len(),
        spec_is_named(properties[at], "Rating"@),
        properties[at].value@ == spec_decimal_text(rating as nat),
        forall|k: int|
            at < k < properties.len() ==> spec_property_rating(#[trigger] properties[k]) is None,
    ensures
        spec_rating_from_properties(properties) == Some(rating),
{
    lemma_last_rating(properties, at, rating);
}

proof fn lemma_last_rating(properties: Seq<XmpProperty>, at: int, rating: u32)
    requires
        rating <= MAX_RATING,
        0 <= at < properties.len(),
        spec_is_named(properties[at], "Rating"@),
        properties[at].value@ == spec_decimal_text(rating as nat),
        forall|k: int|
            at < k < properties.len() ==> spec_property_rating(#[trigger] properties[k]) is None,
    ensures
        spec_last_rating(properties) == Some(rating),
    decreases properties.len(),
{
    let last = properties.len() - 1;
    if at == last {
        lemma_decimal_round_trip(rating as nat, MAX_RATING as nat);
    } else {
        let shorter = properties.subrange(0, last);
        assert(spec_property_rating(properties[last]) is None);
        assert(shorter[at] == properties[at]);
        assert forall|k: int| at < k < shorter.len() implies spec_property_rating(
            #[trigger] shorter[k],
        ) is None by {
            assert(shorter[k] == properties[k]);
        }
        lemma_last_rating(shorter, at, rating);
    }
}

/// A list of properties that states no rating, and in which the last
/// property that states a percent holds the digits of the percent of
/// `rating`, reads back as `rating`.
pub proof fn lemma_percent_property_reads_back(
    properties: Seq<XmpProperty>,
    at: int,
    rating: u32,
)
    requires
        rating <= MAX_RATING,
        0 <= at < properties.len(),
        spec_is_named(properties[at], "RatingPercent"@),
        properties[at].value@ == spec_decimal_text(spec_rating_to_percent(rating) as nat),
        forall|k: int|
            at < k < properties.len() ==> spec_property_percent(#[trigger] properties[k]) is None,
        forall|k: int|
            0 <= k < properties.len() ==> spec_property_rating(#[trigger] properties[k]) is None,
    ensures
        spec_rating_from_properties(properties) == Some(rating),
{
    lemma_no_rating(properties);
    lemma_last_percent(properties, at, spec_rating_to_percent(rating));
    crate::rating::lemma_percent_round_trip(rating);
}

proof fn lemma_no_rating(properties: Seq<XmpProperty>)
    requires
        forall|k: int|
            0 <= k < properties.len() ==> spec_property_rating(#[trigger] properties[k]) is None,
    ensures
        spec_last_rating(properties) is None,
    decreases properties.len(),
{
    if properties.len() > 0 {
        let shorter = properties.subrange(0, properties.len() - 1);
        assert(spec_property_rating(properties[properties.len() - 1]) is None);
        assert forall|k: int| 0 <= k < shorter.len() implies spec_property_rating(
            #[trigger] shorter[k],
        ) is None by {
            assert(shorter[k] == properties[k]);
        }
        lemma_no_rating(shorter);
    }
}

proof fn lemma_last_percent(properties: Seq<XmpProperty>, at: int, percent: u32)
    requires
        0 <= at < properties.len(),
        spec_is_named(properties[at], "RatingPercent"@),
        properties[at].value@ == spec_decimal_text(percent as nat),
        forall|k: int|
            at < k < properties.len() ==> spec_property_percent(#[trigger] properties[k]) is None,
    ensures
        spec_last_percent(properties) == Some(percent),
    decreases properties.len(),
{
    let last = properties.len() - 1;
    if at == last {
        lemma_decimal_round_trip(percent as nat, u32::MAX as nat);
    } else {
        let shorter = properties.subrange(0, last);
        assert(spec_property_percent(properties[last]) is None);
        assert(shorter[at] == properties[at]);
        assert forall|k: int| at < k < shorter.len() implies spec_property_percent(
            #[trigger] shorter[k],
        ) is None by {
            assert(shorter[k] == properties[k]);
        }
        lemma_last_percent(shorter, at, percent);
    }
}

fn is_named(property: &XmpProperty, name: &str) -> (b: bool)
    ensures
        b == spec_is_named(*property, name@),
{
    if !chars_equal(
        &chars_of(property.schema_ns.as_str()),
        &chars_of("http://ns.adobe.com/xap/1.0/"),
    ) {
        return false;
    }
    let path = chars_of(property.name.as_str());
    let plain = chars_of(name);
    let mut prefixed = chars_of("xmp:");
    crate::text::append_chars(&mut prefixed, &plain);
    chars_equal(&path, &plain) || chars_equal(&path, &prefixed)
}

fn property_number(property: &XmpProperty, max: u32) -> (r: Option<u32>)
    ensures
        r is Some == spec_parse_unsigned(property.value@, max as nat) is Some,
        r is Some ==> r->0 as nat == spec_parse_unsigned(property.value@, max as nat)->0,
{
    let digits = chars_of(property.value.as_str());
    assert(digits@.subrange(0, digits.len() as int) =~= digits@);
    parse_unsigned(&digits, 0, digits.len(), max)
}

/// The rating that the properties of a packet state.
pub fn rating_from_properties(properties: &Vec<XmpProperty>) -> (rating: Option<u32>)
    ensures
        rating == spec_rating_from_properties(properties@),
        rating is Some ==> rating->0 <= MAX_RATING,
{
    let mut found_rating: Option<u32> = None;
    let mut found_percent: Option<u32> = None;
    let mut i: usize = 0;
    assert(properties@.take(0).len() == 0);
    while i < properties.len()
        invariant
            i <= properties.len(),
            found_rating == spec_last_rating(properties@.take(i as int)),
            found_percent == spec_last_percent(properties@.take(i as int)),
            found_rating is Some ==> found_rating->0 <= MAX_RATING,
        decreases properties.len() - i,
    {
        let property = &properties[i];
        proof {
            let longer = properties@.take(i + 1);
            assert(longer.subrange(0, longer.len() - 1) =~= properties@.take(i as int));
            assert(longer[longer.len() - 1] == *property);
        }
        if is_named(property, "Rating") {
            match property_number(property, MAX_RATING) {
                Some(r) => {
                    found_rating = Some(r);
                },
                None => {},
            }
        }
        if is_named(property, "RatingPercent") {
            match property_number(property, u32::MAX) {
                Some(p) => {
                    found_percent = Some(p);
                },
                None => {},
            }
        }
        i += 1;
    }
    assert(properties@.take(properties.len() as int) =~= properties@);
    match found_rating {
        Some(r) => Some(r),
        None => match found_percent {
            Some(p) => Some(percent_to_rating(p) as u32),
            None => None,
        },
    }
}

/// Reads the rating of a packet through the engine. A packet that the engine
/// cannot parse has none.
pub fn extract_rating_from_xmp_toolkit(xmp_str: &str) -> (rating: Option<u32>)
    ensures
        rating is Some ==> rating->0 <= MAX_RATING,
{
    match engine_parse(xmp_str) {
        Ok(meta) => rating_from_properties(&engine_properties(&meta)),
        Err(_) => None,
    }
}

/// The rating of a packet, given what the engine read from it: that rating
/// where there is one, else the rating that the text states by its pattern.
pub open spec fn spec_choose_xmp_rating(engine: Option<u32>, text: Seq<char>) -> Option<u8> {
    match engine {
        Some(r) => if r <= MAX_RATING {
            Some(r as u8)
        } else {
            spec_parse_xmp_rating(text)
        },
        None => spec_parse_xmp_rating(text),
    }
}

/// Settles the rating of a packet from what the engine read and, failing
/// that, from the text of the packet.
pub fn choose_xmp_rating(engine: Option<u32>, xmp_content: &str) -> (rating: Option<u8>)
    ensures
        rating == spec_choose_xmp_rating(engine, xmp_content@),
        rating is Some ==> rating->0 <= MAX_RATING,
{
    match engine {
        Some(r) => {
            if r <= MAX_RATING {
                Some(r as u8)
            } else {
                parse_xmp_rating(xmp_content)
            }
        },
        None => parse_xmp_rating(xmp_content),
    }
}

/// Reads the rating of a packet: through the engine, and by the pattern of
/// the attribute where the engine finds none.
pub fn read_xmp_rating(xmp_content: &str) -> (rating: Option<u8>)
    ensures
        rating is Some ==> rating->0 <= MAX_RATING,
        exists|engine: Option<u32>| rating == spec_choose_xmp_rating(engine, xmp_content@),
{
    let engine = extract_rating_from_xmp_toolkit(xmp_content);
    choose_xmp_rating(engine, xmp_content)
}

fn decimal_string(n: u32) -> (text: String)
    ensures
        text@ == spec_decimal_text(n as nat),
{
    let mut digits: Vec<char> = Vec::new();
    push_decimal(&mut digits, n);
    assert(digits@ =~= spec_decimal_text(n as nat));
    string_of(&digits)
}

fn engine_failure(error: &xmp_toolkit::XmpError) -> (e: AppError)
    ensures
        e is MetadataDecodeError,
{
    AppError::MetadataDecodeError(engine_error_text(error))
}

/// The two properties to set in a packet for `rating`: `Rating` with the
/// digits of the rating and `RatingPercent` with the digits of its percent,
/// both in the namespace of the rating.
pub fn rating_properties(rating: u32) -> (pair: (XmpProperty, XmpProperty))
    ensures
        pair.0.schema_ns@ == spec_xmp_namespace(),
        pair.0.name@ == "Rating"@,
        pair.0.value@ == spec_decimal_text(rating as nat),
        pair.1.schema_ns@ == spec_xmp_namespace(),
        pair.1.name@ == "RatingPercent"@,
        pair.1.value@ == spec_decimal_text(spec_rating_to_percent(rating) as nat),
{
    (
        XmpProperty {
            schema_ns: "http://ns.adobe.com/xap/1.0/".to_string(),
            name: "Rating".to_string(),
            value: decimal_string(rating),
        },
        XmpProperty {
            schema_ns: "http://ns.adobe.com/xap/1.0/".to_string(),
            name: "RatingPercent".to_string(),
            value: decimal_string(rating_to_percent(rating)),
        },
    )
}

/// The properties that are set for a rating of at most five read back as
/// that rating, each of the two alone and both together; and the first one
/// is a property named `Rating` with the digits of the rating, so that it
/// reads back as the rating in every list of properties in which no later
/// property states a rating (`lemma_rating_property_reads_back`).
pub proof fn lemma_rating_properties_read_back(pair: (XmpProperty, XmpProperty), rating: u32)
    requires
        rating <= MAX_RATING,
        pair.0.schema_ns@ == spec_xmp_namespace(),
        pair.0.name@ == "Rating"@,
        pair.0.value@ == spec_decimal_text(rating as nat),
        pair.1.schema_ns@ == spec_xmp_namespace(),
        pair.1.name@ == "RatingPercent"@,
        pair.1.value@ == spec_decimal_text(spec_rating_to_percent(rating) as nat),
    ensures
        spec_is_named(pair.0, "Rating"@),
        spec_is_named(pair.1, "RatingPercent"@),
        spec_property_rating(pair.0) == Some(rating),
        spec_property_rating(pair.1) is None,
        spec_property_percent(pair.1) == Some(spec_rating_to_percent(rating)),
        spec_rating_from_properties(seq![pair.0]) == Some(rating),
        spec_rating_from_properties(seq![pair.1]) == Some(rating),
        spec_rating_from_properties(seq![pair.0, pair.1]) == Some(rating),
        spec_rating_from_properties(seq![pair.1, pair.0]) == Some(rating),
{
    lemma_decimal_round_trip(rating as nat, MAX_RATING as nat);
    lemma_decimal_round_trip(spec_rating_to_percent(rating) as nat, u32::MAX as nat);
    lemma_names_differ();
    assert(spec_property_rating(pair.1) is None);
    lemma_rating_property_reads_back(seq![pair.0], 0, rating);
    lemma_rating_property_reads_back(seq![pair.0, pair.1], 0, rating);
    lemma_rating_property_reads_back(seq![pair.1, pair.0], 1, rating);
    lemma_percent_property_reads_back(seq![pair.1], 0, rating);
}

/// `Rating` and `RatingPercent` are different names, with and without the
/// prefix.
proof fn lemma_names_differ()
    ensures
        "RatingPercent"@ != "Rating"@,
        "RatingPercent"@ != "xmp:"@ + "Rating"@,
{
    reveal_strlit("RatingPercent");
    reveal_strlit("Rating");
    reveal_strlit("xmp:");
    assert("RatingPercent"@.len() == 13);
    assert("Rating"@.len() == 6);
    assert(("xmp:"@ + "Rating"@).len() == 10);
}

/// Makes the packet to write for `rating` through the engine: the existing
/// packet, or an empty one where there is none or it cannot be parsed, with
/// the two properties of `rating_properties` set, each under its namespace
/// and name with its value. A rating above five is written with the percent
/// 0. A failure of the engine is reported as a metadata error.
pub fn create_xmp_with_rating_toolkit(existing_xmp: Option<String>, rating: u32) -> (r: Result<
    String,
    AppError,
>)
    ensures
        r is Err ==> r->Err_0 is MetadataDecodeError,
{
    let parsed = match existing_xmp {
        Some(text) => match engine_parse(text.as_str()) {
            Ok(meta) => Some(meta),
            Err(_) => None,
        },
        None => None,
    };
    let mut meta = match parsed {
        Some(meta) => meta,
        None => match engine_new() {
            Ok(meta) => meta,
            Err(e) => {
                return Err(engine_failure(&e));
            },
        },
    };
    let (stars, percent) = rating_properties(rating);
    match engine_set_property(
        &mut meta,
        stars.schema_ns.as_str(),
        stars.name.as_str(),
        stars.value,
    ) {
        Ok(_) => {},
        Err(e) => {
            return Err(engine_failure(&e));
        },
    }
    match engine_set_property(
        &mut meta,
        percent.schema_ns.as_str(),
        percent.name.as_str(),
        percent.value,
    ) {
        Ok(_) => {},
        Err(e) => {
            return Err(engine_failure(&e));
        },
    }
    match engine_serialize(&meta) {
        Ok(text) => Ok(text),
        Err(e) => Err(engine_failure(&e)),
    }
}

/// The format that carries XMP and is named by exactly this extension:
/// `jpg` or `jpeg`, or `png`.
pub open spec fn spec_xmp_format(file_extension: Seq<char>) -> Option<ImageFormat> {
    if file_extension == "jpg"@ || file_extension == "jpeg"@ {
        Some(ImageFormat::Jpeg)
    } else if file_extension == "png"@ {
        Some(ImageFormat::Png)
    } else {
        None
    }
}

pub fn xmp_format(file_extension: &str) -> (format: Option<ImageFormat>)
    ensures
        format == spec_xmp_format(file_extension@),
{
    let extension = chars_of(file_extension);
    if chars_equal(&extension, &chars_of("jpg")) || chars_equal(&extension, &chars_of("jpeg")) {
        Some(ImageFormat::Jpeg)
    } else if chars_equal(&extension, &chars_of("png")) {
        Some(ImageFormat::Png)
    } else {
        None
    }
}

/// The bytes of the XMP packet of a file with the given extension.
pub open spec fn spec_existing_xmp_bytes(file_data: Seq<u8>, file_extension: Seq<char>) -> Option<
    Seq<u8>,
> {
    match spec_xmp_format(file_extension) {
        Some(ImageFormat::Jpeg) => spec_jpeg_xmp_bytes(file_data),
        Some(ImageFormat::Png) => spec_png_xmp_bytes(file_data),
        _ => None,
    }
}

/// Reads the XMP packet of a file: that of a JPEG file for the extensions
/// `jpg` and `jpeg`, that of a PNG file for `png`, none for any other
/// extension. A packet that is not valid UTF-8 is not read.
pub fn extract_existing_xmp(file_data: &[u8], file_extension: &str) -> (xmp: Option<String>)
    ensures
        xmp is Some == (spec_existing_xmp_bytes(file_data@, file_extension@) is Some
            && vstd::utf8::valid_utf8(spec_existing_xmp_bytes(file_data@, file_extension@)->0)),
        xmp is Some ==> encode_utf8(xmp->0@) == spec_existing_xmp_bytes(
            file_data@,
            file_extension@,
        )->0,
{
    match xmp_format(file_extension) {
        Some(ImageFormat::Jpeg) => extract_xmp_from_jpeg(file_data),
        Some(ImageFormat::Png) => extract_xmp_from_png(file_data),
        _ => None,
    }
}

/// The file that results from writing `packet` into `file_data`, a file with
/// the given extension. A file of an extension that carries no XMP stays as
/// it is.
pub open spec fn spec_embed_xmp_packet(
    file_data: Seq<u8>,
    file_extension: Seq<char>,
    packet: Seq<u8>,
) -> Result<Seq<u8>, AppError> {
    match spec_xmp_format(file_extension) {
        Some(ImageFormat::Jpeg) => spec_embed_xmp_in_jpeg(file_data, packet),
        Some(ImageFormat::Png) => spec_embed_xmp_in_png(file_data, packet),
        _ => Ok(file_data),
    }
}

/// Writes a packet into a file with the given extension.
pub fn embed_xmp_packet(file_data: &[u8], file_extension: &str, xmp_data: &str) -> (r: Result<
    Vec<u8>,
    AppError,
>)
    ensures
        r is Ok == spec_embed_xmp_packet(
            file_data@,
            file_extension@,
            encode_utf8(xmp_data@),
        ) is Ok,
        r is Ok ==> r->Ok_0@ == spec_embed_xmp_packet(
            file_data@,
            file_extension@,
            encode_utf8(xmp_data@),
        )->Ok_0,
        r is Err ==> r->Err_0 == spec_embed_xmp_packet(
            file_data@,
            file_extension@,
            encode_utf8(xmp_data@),
        )->Err_0,
{
    match xmp_format(file_extension) {
        Some(ImageFormat::Jpeg) => embed_xmp_in_jpeg_vec(file_data, xmp_data),
        Some(ImageFormat::Png) => embed_xmp_in_png_chunks(file_data, xmp_data),
        _ => {
            let copy = crate::bytes::copy_range(file_data, 0, file_data.len());
            assert(file_data@.subrange(0, file_data.len() as int) =~= file_data@);
            Ok(copy)
        },
    }
}

/// Writes a packet into a PNG file.
pub fn embed_xmp_in_png_vec(file_data: &[u8], xmp_data: &str) -> (r: Result<Vec<u8>, AppError>)
    ensures
        r is Ok == spec_embed_xmp_in_png(file_data@, encode_utf8(xmp_data@)) is Ok,
        r is Ok ==> r->Ok_0@ == spec_embed_xmp_in_png(file_data@, encode_utf8(xmp_data@))->Ok_0,
        r is Err ==> r->Err_0 == spec_embed_xmp_in_png(
            file_data@,
            encode_utf8(xmp_data@),
        )->Err_0,
{
    embed_xmp_in_png_chunks(file_data, xmp_data)
}

/// A non-empty packet of valid UTF-8 that was written into a file of a
/// format that carries XMP is the packet that is read from the file.
pub proof fn lemma_written_packet_is_read(
    file_data: Seq<u8>,
    file_extension: Seq<char>,
    packet: Seq<u8>,
)
    requires
        spec_xmp_format(file_extension) is Some,
        spec_embed_xmp_packet(file_data, file_extension, packet) is Ok,
        0 < packet.len(),
        valid_utf8(packet),
    ensures
        spec_existing_xmp_bytes(
            spec_embed_xmp_packet(file_data, file_extension, packet)->Ok_0,
            file_extension,
        ) == Some(packet),
{
    match spec_xmp_format(file_extension) {
        Some(ImageFormat::Jpeg) => {
            crate::jpeg::lemma_embedded_packet_is_read(file_data, packet);
        },
        Some(ImageFormat::Png) => {
            crate::png_xmp::lemma_embedded_packet_is_read(file_data, packet);
        },
        _ => {},
    }
}

/// Writing one non-empty packet into a file and then another gives the file
/// that writing the second alone gives: nothing of the first write is left.
/// With the same packet twice, the second write changes nothing.
pub proof fn lemma_write_twice(
    file_data: Seq<u8>,
    file_extension: Seq<char>,
    first: Seq<u8>,
    second: Seq<u8>,
)
    requires
        spec_embed_xmp_packet(file_data, file_extension, first) is Ok,
        spec_embed_xmp_packet(file_data, file_extension, second) is Ok,
        0 < first.len(),
    ensures
        spec_embed_xmp_packet(
            spec_embed_xmp_packet(file_data, file_extension, first)->Ok_0,
            file_extension,
            second,
        ) == spec_embed_xmp_packet(file_data, file_extension, second),
{
    match spec_xmp_format(file_extension) {
        Some(ImageFormat::Jpeg) => {
            crate::jpeg::lemma_embed_twice(file_data, first, second);
        },
        Some(ImageFormat::Png) => {
            crate::png_xmp::lemma_embed_twice(file_data, first, second);
        },
        _ => {},
    }
}

/// What the rating embed owes for a rating in range and an extension that
/// carries XMP: an output that is some packet written into the file, or the
/// error of writing some packet into the file, or a metadata error where the
/// engine failed.
pub open spec fn spec_is_rating_embed(
    file_data: Seq<u8>,
    file_extension: Seq<char>,
    r: Result<Vec<u8>, AppError>,
) -> bool {
    match r {
        Ok(out) => exists|packet: Seq<char>|
            spec_embed_xmp_packet(file_data, file_extension, encode_utf8(packet)) == Ok::<
                Seq<u8>,
                AppError,
            >(out@),
        Err(e) => e is MetadataDecodeError || exists|packet: Seq<char>|
            spec_embed_xmp_packet(file_data, file_extension, encode_utf8(packet)) == Err::<
                Seq<u8>,
                AppError,
            >(e),
    }
}

/// Writes `rating` into the XMP packet of a file and the packet into the
/// file. A rating above five is out of range, and nothing is done for it. A
/// file whose extension is none of `jpg`, `jpeg` and `png` comes back
/// unchanged. For the others the packet comes from the engine, which reads
/// the packet that the file holds; a failure of the engine is a metadata
/// error, and the packet that it made is written as `embed_xmp_packet` says.
pub fn embed_xmp_rating_in_vec(file_data: &[u8], file_extension: &str, rating: u32) -> (r: Result<
    Vec<u8>,
    AppError,
>)
    ensures
        r == Err::<Vec<u8>, AppError>(AppError::InvalidInput(InvalidInput::OutOfRange)) <==> rating
            > MAX_RATING,
        rating <= MAX_RATING && spec_xmp_format(file_extension@) is None ==> r is Ok && r->Ok_0@
            == file_data@,
        rating <= MAX_RATING && spec_xmp_format(file_extension@) is Some ==> spec_is_rating_embed(
            file_data@,
            file_extension@,
            r,
        ),
{
    if rating > MAX_RATING {
        return Err(AppError::InvalidInput(InvalidInput::OutOfRange));
    }
    if xmp_format(file_extension).is_none() {
        let copy = crate::bytes::copy_range(file_data, 0, file_data.len());
        assert(file_data@.subrange(0, file_data.len() as int) =~= file_data@);
        return Ok(copy);
    }
    let existing_xmp = extract_existing_xmp(file_data, file_extension);
    let xmp_data = match create_xmp_with_rating_toolkit(existing_xmp, rating) {
        Ok(text) => text,
        Err(e) => {
            return Err(e);
        },
    };
    let r = embed_xmp_packet(file_data, file_extension, xmp_data.as_str());
    proof {
        let written = spec_embed_xmp_packet(
            file_data@,
            file_extension@,
            encode_utf8(xmp_data@),
        );
        lemma_packet_errors(file_data@, file_extension@, encode_utf8(xmp_data@));
        if r is Ok {
            assert(written == Ok::<Seq<u8>, AppError>(r->Ok_0@));
        } else {
            assert(written == Err::<Seq<u8>, AppError>(r->Err_0));
        }
    }
    r
}

/// Writing a packet into a file fails only with a malformed header, a
/// segment that is not found, or a packet that is too large.
pub proof fn lemma_packet_errors(file_data: Seq<u8>, file_extension: Seq<char>, packet: Seq<u8>)
    ensures
        match spec_embed_xmp_packet(file_data, file_extension, packet) {
            Ok(_) => true,
            Err(e) => e == AppError::MalformedHeader || e == AppError::SegmentNotFound || e
                == AppError::InvalidInput(InvalidInput::PacketTooLarge),
        },
{
}

/// Writes `rating` into a file, as `embed_xmp_rating_in_vec` does: a rating
/// above five is out of range and nothing else is done.
pub fn write_xmp_image_rating(file_data: &[u8], file_extension: &str, rating: u32) -> (r: Result<
    Vec<u8>,
    AppError,
>)
    ensures
        r == Err::<Vec<u8>, AppError>(AppError::InvalidInput(InvalidInput::OutOfRange)) <==> rating
            > MAX_RATING,
        rating <= MAX_RATING && spec_xmp_format(file_extension@) is None ==> r is Ok && r->Ok_0@
            == file_data@,
        rating <= MAX_RATING && spec_xmp_format(file_extension@) is Some ==> spec_is_rating_embed(
            file_data@,
            file_extension@,
            r,
        ),
{
    embed_xmp_rating_in_vec(file_data, file_extension, rating)
}

/// What `write_xmp_image_rating` owes for a file, an extension and a
/// rating.
pub open spec fn spec_is_rating_write(
    file_data: Seq<u8>,
    file_extension: Seq<char>,
    rating: u32,
    r: Result<Vec<u8>, AppError>,
) -> bool {
    if rating > MAX_RATING {
        r == Err::<Vec<u8>, AppError>(AppError::InvalidInput(InvalidInput::OutOfRange))
    } else if spec_xmp_format(file_extension) is None {
        r is Ok && r->Ok_0@ == file_data
    } else {
        spec_is_rating_embed(file_data, file_extension, r) && r != Err::<Vec<u8>, AppError>(
            AppError::InvalidInput(InvalidInput::OutOfRange),
        )
    }
}

/// Finishes the write of a rating, given the file with the tags of the
/// rating written, or the error of that write. A rating above five is out of
/// range. The error of the tags is the error of the whole, and no packet is
/// made. Else the packet is written into the file that has the tags, and
/// `spec_settle_rating_write` says which bytes go to the file: those with
/// the packet, or, with a warning, those with the tags alone.
pub fn write_rating_after_tags(
    tagged: Result<Vec<u8>, AppError>,
    file_extension: &str,
    rating: u32,
) -> (r: Result<(Vec<u8>, Option<AppError>), AppError>)
    ensures
        rating > MAX_RATING ==> r == Err::<(Vec<u8>, Option<AppError>), AppError>(
            AppError::InvalidInput(InvalidInput::OutOfRange),
        ),
        rating <= MAX_RATING && tagged is Err ==> r == Err::<(Vec<u8>, Option<AppError>), AppError>(
            tagged->Err_0,
        ),
        rating <= MAX_RATING && tagged is Ok ==> r is Ok && exists|packed: Result<Vec<u8>, AppError>|
            spec_is_rating_write(tagged->Ok_0@, file_extension@, rating, packed) && r
                == #[trigger] spec_settle_rating_write(tagged, packed),
{
    if rating > MAX_RATING {
        return Err(AppError::InvalidInput(InvalidInput::OutOfRange));
    }
    match tagged {
        Err(e) => Err(e),
        Ok(with_tags) => {
            let packed = write_xmp_image_rating(with_tags.as_slice(), file_extension, rating);
            let ghost written = packed;
            let r = settle_rating_write(Ok(with_tags), packed);
            assert(spec_is_rating_write(with_tags@, file_extension@, rating, written));
            assert(r == spec_settle_rating_write(tagged, written));
            r
        },
    }
}

} // verus!
