use fhc::text::{chars_of, count_lines, count_words, decimal_string, is_whitespace, parse_u64, parse_unsigned_at, string_of, trim_bounds};

#[test]
fn numbers_are_written_in_decimal() {
    assert_eq!(decimal_string(0), "0");
    assert_eq!(decimal_string(7), "7");
    assert_eq!(decimal_string(10), "10");
    assert_eq!(decimal_string(404), "404");
    assert_eq!(decimal_string(u64::MAX), u64::MAX.to_string());
}

#[test]
fn numbers_are_read_as_from_str_reads_them() {
    assert_eq!(parse_u64("1024"), Some(1024));
    assert_eq!(parse_u64("+7"), Some(7));
    assert_eq!(parse_u64("007"), Some(7));
    assert_eq!(parse_u64("18446744073709551615"), Some(u64::MAX));
    assert_eq!(parse_u64("18446744073709551616"), None);
    assert_eq!(parse_u64(""), None);
    assert_eq!(parse_u64("+"), None);
    assert_eq!(parse_u64("-1"), None);
    assert_eq!(parse_u64(" 1"), None);
    assert_eq!(parse_u64("1x"), None);
}

#[test]
fn a_range_is_read_with_its_own_limit() {
    let chars = chars_of("a65536b65535");
    assert_eq!(parse_unsigned_at(&chars, 1, 6, 65535), None);
    assert_eq!(parse_unsigned_at(&chars, 7, 12, 65535), Some(65535));
}

#[test]
fn words_are_counted_as_split_whitespace_counts_them() {
    for text in ["", " ", "one", " one  two\tthree\n", "a\u{a0}b\u{3000}c", "x\u{200b}y"] {
        assert_eq!(count_words(&chars_of(text)), text.split_whitespace().count(), "{text:?}");
    }
}

#[test]
fn lines_are_counted_as_lines_counts_them() {
    for text in ["", "\n", "a", "a\n", "a\nb", "a\r\nb\r\n", "\n\n", "a\n\nb"] {
        assert_eq!(count_lines(&chars_of(text)), text.lines().count(), "{text:?}");
    }
}

#[test]
fn whitespace_is_unicode_whitespace() {
    for c in ['\t', '\n', '\u{b}', '\u{c}', '\r', ' ', '\u{85}', '\u{a0}', '\u{1680}', '\u{2000}', '\u{200a}', '\u{2028}', '\u{2029}', '\u{202f}', '\u{205f}', '\u{3000}', 'a', '\u{200b}', '\u{feff}', '0'] {
        assert_eq!(is_whitespace(c), c.is_whitespace(), "{c:?}");
    }
}

#[test]
fn trimming_matches_str_trim() {
    for text in ["", "   ", " a ", "\u{3000}x y\u{85}", "ab"] {
        let chars = chars_of(text);
        let (start, end) = trim_bounds(&chars, 0, chars.len());
        assert_eq!(string_of(&chars, start, end), text.trim());
    }
}

#[test]
fn characters_come_out_in_order() {
    assert_eq!(chars_of("héllo"), vec!['h', 'é', 'l', 'l', 'o']);
}

