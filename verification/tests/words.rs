//! Text, numbers and lines.

use riscbox::bytes;
use riscbox::listing;
use riscbox::text;

#[test]
fn numbers_are_written() {
    assert_eq!(text::decimal_text(0), "0");
    assert_eq!(text::decimal_text(u64::MAX), "18446744073709551615");
    assert_eq!(text::hexadecimal_text(0xdead_beef), "deadbeef");
    assert_eq!(text::signed_text(-40), "-40");
    assert_eq!(text::signed_text(i32::MIN), "-2147483648");
    assert_eq!(text::padded_text(42, 5), "00042");
    assert_eq!(text::padded_hexadecimal_text(0x2a, 16), "000000000000002a");
}

#[test]
fn characters_and_bytes_convert() {
    assert_eq!(text::chars_of("aé"), ['a', 'é']);
    assert_eq!(text::text_of(&['x', 'ß']), "xß");
    assert_eq!(text::bytes_of("é"), [0xc3, 0xa9]);
    assert_eq!(text::joined("a", "b"), "ab");
    assert!(text::same("ab", "ab") && !text::same("ab", "ac"));
    assert_eq!(text::trim_end("a//", '/'), "a");
    assert!(text::has_char("abc", 'b') && !text::has_char("abc", 'd'));
    assert_eq!(bytes::load_le(&[1, 2, 3, 4], 1, 2), 0x0302);
    assert_eq!(bytes::to_le(0x0102, 4), [2, 1, 0, 0]);
}

#[test]
fn lines_end_as_they_should() {
    assert_eq!(listing::split_lines("a\r\nb\nc\r"), ["a", "b", "c\r"]);
    assert_eq!(listing::split_lines("a\n"), ["a"]);
    assert_eq!(listing::split_lines("\n\n"), ["", ""]);
    assert!(listing::split_lines("").is_empty());
    assert_eq!(listing::trim(" \u{a0}x y\u{3000}\t"), "x y");
}

#[test]
fn fields_are_words_or_quoted() {
    assert_eq!(
        listing::split_fields(" a  \"b \\\"c\\n\"d \\x ").unwrap(),
        ["a", "b \"c\n", "d", "\\x"]
    );
    assert_eq!(listing::split_fields("\"\\x41\\x62\"").unwrap(), ["Ab"]);
    assert!(listing::split_fields("").unwrap().is_empty());
    assert_eq!(listing::split_fields("\"abc"), None);
    assert_eq!(listing::split_fields("\"\\q\""), None);
    assert_eq!(listing::split_fields("\"\\xff\""), None);
    assert_eq!(listing::split_fields("\"a\nb\""), None);
}

#[test]
fn numbers_are_read() {
    assert_eq!(listing::parse_number("755", 8, 0xffff_ffff), Some(0o755));
    assert_eq!(listing::parse_number("+7", 10, 10), Some(7));
    assert_eq!(listing::parse_number("Ff", 16, 255), Some(255));
    assert_eq!(listing::parse_number("100", 16, 255), None);
    assert_eq!(listing::parse_number("", 10, 255), None);
    assert_eq!(listing::parse_number("+", 10, 255), None);
    assert_eq!(listing::parse_number("-1", 10, 255), None);
    assert_eq!(listing::parse_number("8", 8, 255), None);
    assert_eq!(listing::parse_number("18446744073709551615", 10, u64::MAX), Some(u64::MAX));
    assert_eq!(listing::parse_number("18446744073709551616", 10, u64::MAX), None);
}

#[test]
fn texts_are_searched_and_ordered() {
    assert!(listing::text_holds("xx Version: 1", "Version: 1"));
    assert!(!listing::text_holds("Version", "Version: 1"));
    assert_eq!(listing::strip_start("RootID: 5", "RootID:"), Some(" 5".into()));
    assert_eq!(listing::strip_start("Root", "RootID:"), None);
    assert_eq!(listing::part_before("12.5", '.'), "12");
    assert_eq!(listing::part_before("12", '.'), "12");
    assert!(text::text_precedes("a", "b") && text::text_precedes("a", "aa"));
    assert!(!text::text_precedes("b", "a") && !text::text_precedes("a", "a"));
    assert!(listing::valid_name("a b") && !listing::valid_name("..") && !listing::valid_name("a/b"));
}
