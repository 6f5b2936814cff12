use image_meta::text::ascii_lower;
use image_meta::text::chars_equal;
use image_meta::text::chars_of;
use image_meta::text::digits_end;
use image_meta::text::find;
use image_meta::text::index_of;
use image_meta::text::is_whitespace;
use image_meta::text::matches_at;
use image_meta::text::parse_unsigned;
use image_meta::text::string_of;
use image_meta::text::string_of_range;
use image_meta::text::trim_range;
use image_meta::xmp::push_decimal;

fn trimmed(text: &str) -> String {
    let chars = chars_of(text);
    let (from, to) = trim_range(&chars, 0, chars.len());
    string_of_range(&chars, from, to)
}

fn parsed(text: &str, max: u32) -> Option<u32> {
    let chars = chars_of(text);
    parse_unsigned(&chars, 0, chars.len(), max)
}

#[test]
fn characters_and_strings() {
    let text = "a\u{e9}\u{3042}\u{1f600}z";
    let chars = chars_of(text);
    assert_eq!(chars, text.chars().collect::<Vec<char>>());
    assert_eq!(string_of(&chars), text);
    assert_eq!(string_of_range(&chars, 1, 3), "\u{e9}\u{3042}");
    assert!(chars_equal(&chars, &chars_of(text)));
    assert!(!chars_equal(&chars, &chars_of("a")));
    assert!(chars_of("").is_empty());
}

#[test]
fn white_space_is_what_trimming_removes() {
    for code in 0u32..0x3100 {
        if let Some(c) = char::from_u32(code) {
            assert_eq!(is_whitespace(c), c.is_whitespace(), "U+{:04X}", code);
        }
    }
    assert!(!is_whitespace('\u{feff}'));
    assert!(!is_whitespace('\u{200b}'));
}

#[test]
fn trimming() {
    for text in [
        "", " ", "a", " a ", "\t\n a b \r\n", "\u{3000}x\u{a0}", "  \u{2003}", "x  y", " (a:1) ",
    ] {
        assert_eq!(trimmed(text), text.trim(), "text {:?}", text);
    }
}

#[test]
fn unsigned_numbers() {
    assert_eq!(parsed("0", 5), Some(0));
    assert_eq!(parsed("5", 5), Some(5));
    assert_eq!(parsed("6", 5), None);
    assert_eq!(parsed("+4", 5), Some(4));
    assert_eq!(parsed("++4", 5), None);
    assert_eq!(parsed("-4", 5), None);
    assert_eq!(parsed("", 5), None);
    assert_eq!(parsed("+", 5), None);
    assert_eq!(parsed("0005", 5), Some(5));
    assert_eq!(parsed("4.0", 5), None);
    assert_eq!(parsed(" 4", 5), None);
    assert_eq!(parsed("\u{0664}", 5), None);
    assert_eq!(parsed("4294967295", u32::MAX), Some(4_294_967_295));
    assert_eq!(parsed("4294967296", u32::MAX), None);
    assert_eq!(parsed("99999999999999999999", u32::MAX), None);
    for text in ["0", "7", "255", "256", "+12", "012", "1e3", "", "+"] {
        assert_eq!(parsed(text, 255), text.parse::<u8>().ok().map(u32::from), "text {:?}", text);
    }
}

#[test]
fn numbers_are_written_in_decimal() {
    for value in [0u32, 1, 9, 10, 99, 100, 12345, 4_294_967_295] {
        let mut out = chars_of("n=");
        push_decimal(&mut out, value);
        assert_eq!(string_of(&out), format!("n={}", value));
        assert_eq!(parsed(&value.to_string(), u32::MAX), Some(value));
    }
}

#[test]
fn searching() {
    let text = chars_of("abcabcabd");
    assert_eq!(find(&text, &chars_of("abd"), 0), Some(6));
    assert_eq!(find(&text, &chars_of("abc"), 0), Some(0));
    assert_eq!(find(&text, &chars_of("abc"), 1), Some(3));
    assert_eq!(find(&text, &chars_of("abc"), 4), None);
    assert_eq!(find(&text, &chars_of(""), 9), Some(9));
    assert_eq!(find(&text, &chars_of(""), 10), None);
    assert_eq!(find(&text, &chars_of("abcabcabdx"), 0), None);
    assert!(matches_at(&text, 6, &chars_of("abd")));
    assert!(!matches_at(&text, 7, &chars_of("abd")));
    assert!(!matches_at(&text, 100, &chars_of("")));
    assert_eq!(index_of(&text, 'c', 0, 9), 2);
    assert_eq!(index_of(&text, 'c', 3, 9), 5);
    assert_eq!(index_of(&text, 'c', 6, 9), 9);
    assert_eq!(index_of(&text, 'c', 0, 2), 2);
    assert_eq!(digits_end(&chars_of("12a3"), 0), 2);
    assert_eq!(digits_end(&chars_of("12a3"), 2), 2);
    assert_eq!(digits_end(&chars_of("12a3"), 3), 4);
    assert_eq!(ascii_lower('Q'), 'q');
    assert_eq!(ascii_lower('q'), 'q');
    assert_eq!(ascii_lower('\u{c9}'), '\u{c9}');
    assert_eq!(ascii_lower('['), '[');
    assert_eq!(ascii_lower('@'), '@');
}
