use ferrox::text::{
    contains, decimal, ends_with_char, find_bytes, floor_char_boundary, has_char, hex16, parse_unsigned,
    rest_after_last, same_text, split_text, trim, trim_end_char,
};

#[test]
fn bytes_are_found_at_their_first_place() {
    assert_eq!(find_bytes(b"abcabc", b"bc"), Some(1));
    assert_eq!(find_bytes(b"abc", b""), Some(0));
    assert_eq!(find_bytes(b"ab", b"abc"), None);
    assert!(contains("hello", "ell") && !contains("hello", "le"));
}

#[test]
fn boundaries_are_found_backwards() {
    let s = "a\u{20ac}b";
    assert_eq!(floor_char_boundary(s, 0), 0);
    assert_eq!(floor_char_boundary(s, 2), 1);
    assert_eq!(floor_char_boundary(s, 3), 1);
    assert_eq!(floor_char_boundary(s, 4), 4);
    assert_eq!(floor_char_boundary(s, 99), 5);
    assert_eq!(split_text(s.to_string(), 4), ("a\u{20ac}".to_string(), "b".to_string()));
}

#[test]
fn numbers_are_spelled_out() {
    assert_eq!(decimal(0), "0");
    assert_eq!(decimal(1024), "1024");
    assert_eq!(decimal(u64::MAX), "18446744073709551615");
    assert_eq!(hex16(0), "0000000000000000");
    assert_eq!(hex16(0x12ab), "00000000000012ab");
    assert_eq!(hex16(u64::MAX), "ffffffffffffffff");
}

#[test]
fn numbers_are_read_as_the_parser_of_the_language_reads_them() {
    for text in ["0", "+7", "0012", "255", "256", "", "+", "-1", " 1", "1 ", "++1", "1_0"] {
        assert_eq!(parse_unsigned(text, 255), text.parse::<u8>().ok().map(u64::from), "{text:?}");
    }
    assert_eq!(parse_unsigned("18446744073709551615", u64::MAX), Some(u64::MAX));
    assert_eq!(parse_unsigned("18446744073709551616", u64::MAX), None);
}

#[test]
fn white_space_is_trimmed_as_the_language_does() {
    for text in ["", "  ", " a b\n", "\u{3000}x\u{a0}", "\u{200b}x", "\u{85}\t y"] {
        assert_eq!(trim(text), text.trim(), "{text:?}");
    }
}

#[test]
fn paths_and_ends() {
    assert_eq!(trim_end_char("a//", '/'), "a");
    assert_eq!(trim_end_char("///", '/'), "");
    assert_eq!(rest_after_last("a/b/c.gguf", '/'), "c.gguf");
    assert_eq!(rest_after_last("plain", '/'), "plain");
    assert_eq!(rest_after_last("a/", '/'), "");
    assert!(has_char("a*b", '*') && !has_char("ab", '*'));
    assert!(ends_with_char("x\n", '\n') && !ends_with_char("", '\n'));
    assert!(same_text("\u{e9}", "\u{e9}") && !same_text("a", "b") && !same_text("a", "aa"));
}
