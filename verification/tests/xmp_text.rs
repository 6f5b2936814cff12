use image_meta::rating::rating_to_percent;
use image_meta::xmp::create_xmp_with_rating;
use image_meta::xmp::merge_rating_to_xmp;
use image_meta::xmp::parse_xmp_rating;
use image_meta::xmp::update_rating_in_xmp;
use image_meta::xmp_engine::choose_xmp_rating;
use image_meta::xmp_engine::extract_rating_from_xmp_toolkit;
use image_meta::xmp_engine::rating_from_properties;
use image_meta::xmp_engine::read_xmp_rating;
use image_meta::xmp_engine::XmpProperty;
use regex::Regex;

const TEMPLATE_3: &str = "<?xml version=\"1.0\" encoding=\"UTF-8\"?>\n<x:xmpmeta xmlns:x=\"adobe:ns:meta/\" x:xmptk=\"XMP Core 6.0.0\">\n <rdf:RDF xmlns:rdf=\"http://www.w3.org/1999/02/22-rdf-syntax-ns#\">\n  <rdf:Description rdf:about=\"\"\n    xmlns:xmp=\"http://ns.adobe.com/xap/1.0/\"\n    xmp:Rating=\"3\"\n    xmp:RatingPercent=\"50\"/>\n </rdf:RDF>\n</x:xmpmeta>";

#[test]
fn template_packet() {
    assert_eq!(create_xmp_with_rating(3, 50), TEMPLATE_3);
    assert_eq!(merge_rating_to_xmp(None, 3), TEMPLATE_3);
    assert!(create_xmp_with_rating(4_294_967_295, 0).contains("xmp:Rating=\"4294967295\""));
    assert!(create_xmp_with_rating(0, 10).contains("xmp:Rating=\"0\"\n    xmp:RatingPercent=\"10\""));
}

/// Where the start tag of the first `rdf:Description` element closes, by
/// patterns: before its `>`, or before its `/>`.
fn close_by_pattern(text: &str) -> Option<usize> {
    let open = Regex::new("<rdf:Description[\\s>/]").unwrap();
    let rest = Regex::new("^(?:[^>\"']|\"[^\"]*\"|'[^']*')*>").unwrap();
    let after = open.find(text)?.start() + "<rdf:Description".len();
    let close = after + rest.find(&text[after..])?.end() - 1;
    if close > after && text.as_bytes()[close - 1] == b'/' {
        Some(close - 1)
    } else {
        Some(close)
    }
}

/// `text` with the attribute of `pattern` replaced by `fresh`, or with
/// `fresh` added to the start tag of the first `rdf:Description` element.
fn set_by_pattern(pattern: &Regex, text: &str, fresh: &str) -> Option<String> {
    if pattern.is_match(text) {
        Some(pattern.replace(text, fresh).to_string())
    } else {
        let close = close_by_pattern(text)?;
        Some(format!("{} {}{}", &text[..close], fresh, &text[close..]))
    }
}

/// The text of a packet with rating and percent set by the two patterns of
/// the attributes.
fn update_by_pattern(xmp_content: &str, rating: u32) -> String {
    let rating_pattern = Regex::new("xmp:Rating=\"[^\"]*\"").unwrap();
    let percent_pattern = Regex::new("xmp:RatingPercent=\"[^\"]*\"").unwrap();
    let percent = rating_to_percent(rating);
    let new_rating = format!("xmp:Rating=\"{}\"", rating);
    let new_percent = format!("xmp:RatingPercent=\"{}\"", percent);
    let rated = match set_by_pattern(&rating_pattern, xmp_content, &new_rating) {
        Some(rated) => rated,
        None => return create_xmp_with_rating(rating, percent),
    };
    match set_by_pattern(&percent_pattern, &rated, &new_percent) {
        Some(done) => done,
        None => rated,
    }
}

#[test]
fn update_agrees_with_the_patterns() {
    let packets = [
        TEMPLATE_3,
        "<rdf:Description xmp:Rating=\"1\" other=\"x\"/>",
        "<rdf:Description xmp:RatingPercent=\"7\" xmp:Rating=\"\"/>",
        "<rdf:Description rdf:about=\"\" xmlns:xmp=\"http://ns.adobe.com/xap/1.0/\"><xmp:Label>A</xmp:Label></rdf:Description>",
        "<x:xmpmeta><rdf:RDF><rdf:Description/></rdf:RDF></x:xmpmeta>",
        "no markup at all",
        "rdf:Description without close",
        "",
        "<rdf:Description xmp:Rating=\"5 unterminated",
        "xmp:Rating=\"2\" xmp:Rating=\"3\" xmp:RatingPercent=\"1\" xmp:RatingPercent=\"2\">",
        "<rdf:Description t\u{00e9}l\u{00e9}=\"\u{3042}\" xmp:Rating=\"\u{0663}\">",
        "<a>rdf:Description xmp:Rating=\"1\"</a>",
        "<rdf:Description xmp:RatingPercent=\"50\">",
        "<?xml version=\"1.0\"?><x:xmpmeta xmlns:x=\"adobe:ns:meta/\"><rdf:RDF><rdf:Description dc:format=\"image/png\"/></rdf:RDF></x:xmpmeta>",
        "<rdf:Descriptions a=\"1\"><rdf:Description\n b='>' c=\"/>\" ></rdf:Description>",
        "</rdf:Description><rdf:Description>",
        "<rdf:Description a=\"unclosed>",
        "<rdf:Description",
        "<rdf:Description/>",
    ];
    for packet in packets {
        for rating in [0u32, 1, 2, 3, 4, 5, 9] {
            assert_eq!(
                update_rating_in_xmp(packet, rating),
                update_by_pattern(packet, rating),
                "packet {:?}, rating {}",
                packet,
                rating
            );
            assert_eq!(
                merge_rating_to_xmp(Some(packet.to_string()), rating),
                update_by_pattern(packet, rating)
            );
        }
    }
}

#[test]
fn update_keeps_the_rest_of_the_packet() {
    let packet = "<rdf:Description a=\"1\" xmp:Rating=\"2\" b=\"2\" xmp:RatingPercent=\"25\" c=\"3\"/>";
    assert_eq!(
        update_rating_in_xmp(packet, 5),
        "<rdf:Description a=\"1\" xmp:Rating=\"5\" b=\"2\" xmp:RatingPercent=\"99\" c=\"3\"/>"
    );
    let bare = "<rdf:Description a=\"1\"/>";
    assert_eq!(
        update_rating_in_xmp(bare, 4),
        "<rdf:Description a=\"1\" xmp:Rating=\"4\" xmp:RatingPercent=\"75\"/>"
    );
}

#[test]
fn rating_is_added_to_the_description_of_a_whole_packet() {
    let packet = "<x:xmpmeta xmlns:x=\"adobe:ns:meta/\">\n <rdf:RDF xmlns:rdf=\"http://www.w3.org/1999/02/22-rdf-syntax-ns#\">\n  <rdf:Description rdf:about=\"\" xmlns:dc=\"http://purl.org/dc/elements/1.1/\" dc:format=\"image/png\"/>\n </rdf:RDF>\n</x:xmpmeta>";
    let expected = "<x:xmpmeta xmlns:x=\"adobe:ns:meta/\">\n <rdf:RDF xmlns:rdf=\"http://www.w3.org/1999/02/22-rdf-syntax-ns#\">\n  <rdf:Description rdf:about=\"\" xmlns:dc=\"http://purl.org/dc/elements/1.1/\" dc:format=\"image/png\" xmp:Rating=\"3\" xmp:RatingPercent=\"50\"/>\n </rdf:RDF>\n</x:xmpmeta>";
    assert_eq!(merge_rating_to_xmp(Some(packet.to_string()), 3), expected);
    assert_eq!(update_rating_in_xmp(packet, 3), expected);
    assert_eq!(parse_xmp_rating(expected), Some(3));
    assert_eq!(update_rating_in_xmp(expected, 3), expected);
    let open = "<rdf:RDF><rdf:Description dc:format=\"image/png\"><dc:title>t</dc:title></rdf:Description></rdf:RDF>";
    assert_eq!(
        update_rating_in_xmp(open, 0),
        "<rdf:RDF><rdf:Description dc:format=\"image/png\" xmp:Rating=\"0\" xmp:RatingPercent=\"0\"><dc:title>t</dc:title></rdf:Description></rdf:RDF>"
    );
    let quoted = "<rdf:Description a='>' b=\"/>\">";
    assert_eq!(
        update_rating_in_xmp(quoted, 1),
        "<rdf:Description a='>' b=\"/>\" xmp:Rating=\"1\" xmp:RatingPercent=\"1\">"
    );
}

#[test]
fn packet_without_a_description_gives_way_to_the_template() {
    for packet in ["", "<x:xmpmeta></x:xmpmeta>", "</rdf:Description>", "<rdf:Description a=\"1\"", "<rdf:Descriptions>"] {
        assert_eq!(update_rating_in_xmp(packet, 3), TEMPLATE_3, "packet {:?}", packet);
    }
    assert_eq!(
        update_rating_in_xmp("xmp:Rating=\"1\"", 3),
        "xmp:Rating=\"3\""
    );
}

#[test]
fn rating_is_read_by_its_pattern() {
    for rating in 0..=5u32 {
        let packet = create_xmp_with_rating(rating, rating_to_percent(rating));
        assert_eq!(parse_xmp_rating(&packet), Some(rating as u8));
        let updated = update_rating_in_xmp(TEMPLATE_3, rating);
        assert_eq!(parse_xmp_rating(&updated), Some(rating as u8));
    }
    assert_eq!(parse_xmp_rating("xmp:Rating=\"4\""), Some(4));
    assert_eq!(parse_xmp_rating("xmp:Rating=\"004\""), Some(4));
    assert_eq!(parse_xmp_rating("xmp:Rating=\"6\""), None);
    assert_eq!(parse_xmp_rating("xmp:Rating=\"\" xmp:Rating=\"2\""), Some(2));
    assert_eq!(parse_xmp_rating("xmp:Rating=\"x\" xmp:Rating=\"3\""), Some(3));
    assert_eq!(parse_xmp_rating("xmp:Rating=\"7\" xmp:Rating=\"3\""), None);
    assert_eq!(parse_xmp_rating("xmp:Rating=\"3"), None);
    assert_eq!(parse_xmp_rating("xmp:RatingPercent=\"50\""), None);
    assert_eq!(parse_xmp_rating(""), None);
    assert_eq!(parse_xmp_rating("xmp:Rating=\"99999999999999999999\""), None);
}

fn property(name: &str, value: &str) -> XmpProperty {
    XmpProperty {
        schema_ns: "http://ns.adobe.com/xap/1.0/".to_string(),
        name: name.to_string(),
        value: value.to_string(),
    }
}

#[test]
fn rating_from_a_list_of_properties() {
    assert_eq!(rating_from_properties(&vec![]), None);
    assert_eq!(rating_from_properties(&vec![property("xmp:Rating", "4")]), Some(4));
    assert_eq!(rating_from_properties(&vec![property("Rating", "2")]), Some(2));
    assert_eq!(rating_from_properties(&vec![property("xmp:Rating", "6")]), None);
    assert_eq!(rating_from_properties(&vec![property("xmp:Rating", "-1")]), None);
    assert_eq!(
        rating_from_properties(&vec![
            property("xmp:Rating", "1"),
            property("xmp:RatingPercent", "99"),
            property("xmp:Rating", "3"),
            property("xmp:Rating", "nine"),
        ]),
        Some(3)
    );
    let mut foreign = property("xmp:Rating", "5");
    foreign.schema_ns = "http://ns.example.com/".to_string();
    assert_eq!(rating_from_properties(&vec![foreign]), None);
    assert_eq!(rating_from_properties(&vec![property("exif:Rating", "5")]), None);
}

#[test]
fn percent_alone_is_quantized() {
    assert_eq!(rating_from_properties(&vec![property("xmp:RatingPercent", "62")]), Some(3));
    assert_eq!(rating_from_properties(&vec![property("xmp:RatingPercent", "24")]), Some(1));
    assert_eq!(rating_from_properties(&vec![property("RatingPercent", "0")]), Some(0));
    assert_eq!(rating_from_properties(&vec![property("RatingPercent", "100")]), Some(5));
    assert_eq!(rating_from_properties(&vec![property("RatingPercent", "101")]), Some(0));
    assert_eq!(
        rating_from_properties(&vec![
            property("xmp:RatingPercent", "1"),
            property("xmp:RatingPercent", "80"),
        ]),
        Some(4)
    );
    assert_eq!(
        rating_from_properties(&vec![
            property("xmp:Rating", "7"),
            property("xmp:RatingPercent", "50"),
        ]),
        Some(3)
    );
}

#[test]
fn percent_only_packet_reads_quantized_rating() {
    let packet = |percent: u32| {
        format!(
            "<x:xmpmeta xmlns:x=\"adobe:ns:meta/\"><rdf:RDF xmlns:rdf=\"http://www.w3.org/1999/02/22-rdf-syntax-ns#\"><rdf:Description rdf:about=\"\" xmlns:xmp=\"http://ns.adobe.com/xap/1.0/\" xmp:RatingPercent=\"{}\"/></rdf:RDF></x:xmpmeta>",
            percent
        )
    };
    assert_eq!(extract_rating_from_xmp_toolkit(&packet(62)), Some(3));
    assert_eq!(extract_rating_from_xmp_toolkit(&packet(24)), Some(1));
    assert_eq!(read_xmp_rating(&packet(62)), Some(3));
}

#[test]
fn pattern_is_the_fallback() {
    assert_eq!(choose_xmp_rating(Some(4), "xmp:Rating=\"2\""), Some(4));
    assert_eq!(choose_xmp_rating(None, "xmp:Rating=\"2\""), Some(2));
    assert_eq!(choose_xmp_rating(Some(9), "xmp:Rating=\"2\""), Some(2));
    assert_eq!(choose_xmp_rating(None, "nothing"), None);
    assert_eq!(read_xmp_rating("broken < xmp:Rating=\"5\""), Some(5));
    assert_eq!(read_xmp_rating(TEMPLATE_3), Some(3));
}

#[test]
fn later_update_replaces_what_the_first_added() {
    let packets = [
        "<rdf:Description/>",
        "<rdf:RDF><rdf:Description rdf:about=\"\" dc:format=\"image/png\"><dc:title>t</dc:title></rdf:Description></rdf:RDF>",
        "<x:xmpmeta>\n<rdf:Description\n a='>'\n/>\n</x:xmpmeta>",
    ];
    for packet in packets {
        let mut current = packet.to_string();
        for rating in [2u32, 5, 0, 0, 3] {
            current = update_rating_in_xmp(&current, rating);
            assert_eq!(current, update_rating_in_xmp(packet, rating), "packet {:?}", packet);
            assert_eq!(parse_xmp_rating(&current), Some(rating as u8));
        }
    }
    assert_eq!(
        update_rating_in_xmp(&update_rating_in_xmp("<rdf:Description/>", 2), 5),
        "<rdf:Description xmp:Rating=\"5\" xmp:RatingPercent=\"99\"/>"
    );
}
