use fortuner::count::{count, format_field, is_space_char, FileInfo};
use fortuner::decimal::decimal_string;

#[test]
fn test_count() {
    let text = "I don't want the world. I just want your half.\r\n";
    let info = count(text);
    let expected = FileInfo {
        num_lines: 1,
        num_words: 10,
        num_bytes: 48,
        num_chars: 48,
    };
    assert_eq!(info, expected);
}

#[test]
fn test_format_field() {
    assert_eq!(format_field(1, false), "");
    assert_eq!(format_field(3, true), "       3");
    assert_eq!(format_field(10, true), "      10");
}

#[test]
fn counts_agree_with_the_standard_library() {
    for text in ["", "\n", "one", "one\n", "a b\n\nc  d\te\n", " lead", "trail \n x",
        "\u{e9}t\u{e9} na\u{ef}ve\u{a0}caf\u{e9}\u{3000}x\n", "\r\n\r\n", "a\u{2028}b"]
    {
        let info = count(text);
        let lines = text.split_inclusive('\n').count();
        assert_eq!(info.num_lines, lines, "{:?}", text);
        assert_eq!(info.num_words, text.split_whitespace().count(), "{:?}", text);
        assert_eq!(info.num_bytes, text.len(), "{:?}", text);
        assert_eq!(info.num_chars, text.chars().count(), "{:?}", text);
    }
}

#[test]
fn white_space_is_the_unicode_property() {
    for code in 0u32..0x3100 {
        if let Some(c) = char::from_u32(code) {
            assert_eq!(is_space_char(c), c.is_whitespace(), "{:x}", code);
        }
    }
}

#[test]
fn wide_counts_are_not_cut() {
    assert_eq!(format_field(0, true), "       0");
    assert_eq!(format_field(12345678, true), "12345678");
    assert_eq!(format_field(123456789, true), "123456789");
    assert_eq!(format_field(usize::MAX, true), format!("{:>8}", usize::MAX));
    assert_eq!(decimal_string(0), "0");
    assert_eq!(decimal_string(9), "9");
    assert_eq!(decimal_string(10), "10");
    assert_eq!(decimal_string(90210), "90210");
}
