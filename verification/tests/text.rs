use rustneedle::text::{
    find_field_end, hex_digit_value, parse_index, parse_octet, same_bytes, same_text, trim_bounds,
};

#[test]
fn a_field_ends_at_its_separator_or_at_the_end() {
    let text = b"ab,c,,d";
    assert_eq!(find_field_end(text, 0, b','), 2);
    assert_eq!(find_field_end(text, 2, b','), 2);
    assert_eq!(find_field_end(text, 3, b','), 4);
    assert_eq!(find_field_end(text, 5, b','), 5);
    assert_eq!(find_field_end(text, 6, b','), 7);
    assert_eq!(find_field_end(text, 7, b','), 7);
    assert_eq!(find_field_end(text, 0, b';'), 7);
    assert_eq!(find_field_end(b"", 0, b','), 0);
}

#[test]
fn a_field_beyond_the_text_is_empty() {
    assert_eq!(find_field_end(b"ab", 3, b','), 3);
    assert_eq!(find_field_end(b"", 9, b','), 9);
}

#[test]
fn octets_in_decimal() {
    assert_eq!(parse_octet(b"0"), Some(0));
    assert_eq!(parse_octet(b"7"), Some(7));
    assert_eq!(parse_octet(b"10"), Some(10));
    assert_eq!(parse_octet(b"99"), Some(99));
    assert_eq!(parse_octet(b"100"), Some(100));
    assert_eq!(parse_octet(b"255"), Some(255));
    assert_eq!(parse_octet(b"256"), None);
    assert_eq!(parse_octet(b"999"), None);
    assert_eq!(parse_octet(b""), None);
    assert_eq!(parse_octet(b"00"), None);
    assert_eq!(parse_octet(b"01"), None);
    assert_eq!(parse_octet(b"0255"), None);
    assert_eq!(parse_octet(b"1a"), None);
    assert_eq!(parse_octet(b"+1"), None);
    assert_eq!(parse_octet(b" 1"), None);
    assert_eq!(parse_octet(b"1/"), None);
    assert_eq!(parse_octet(b"1:"), None);
}

#[test]
fn every_octet_is_read_from_its_decimal_text() {
    for value in 0..=255u8 {
        assert_eq!(parse_octet(value.to_string().as_bytes()), Some(value));
    }
    for value in 256..1000u16 {
        assert_eq!(parse_octet(value.to_string().as_bytes()), None);
    }
}

#[test]
fn hexadecimal_digits() {
    assert_eq!(hex_digit_value(b'0'), Some(0));
    assert_eq!(hex_digit_value(b'9'), Some(9));
    assert_eq!(hex_digit_value(b'a'), Some(10));
    assert_eq!(hex_digit_value(b'f'), Some(15));
    assert_eq!(hex_digit_value(b'A'), Some(10));
    assert_eq!(hex_digit_value(b'F'), Some(15));
    for other in [b'g', b'G', b'/', b':', b'@', b'`', b' ', 0, 255] {
        assert_eq!(hex_digit_value(other), None);
    }
}

#[test]
fn white_space_is_cut_from_both_ends() {
    assert_eq!(trim_bounds(b"  ab c \t\r\n"), (2, 6));
    assert_eq!(trim_bounds(b"abc"), (0, 3));
    assert_eq!(trim_bounds(b""), (0, 0));
    assert_eq!(trim_bounds(b"\x0b\x0cx"), (2, 3));
    let (lo, hi) = trim_bounds(b"   ");
    assert_eq!(lo, hi);
    assert_eq!(trim_bounds(b"\x08a\x0e"), (0, 3));
    assert_eq!(trim_bounds("\u{a0}ab\u{3000}".as_bytes()), (2, 4));
    assert_eq!(trim_bounds("\u{2003} a".as_bytes()), (4, 5));
}

#[test]
fn white_space_is_cut_as_the_standard_library_cuts_it() {
    let texts = [
        "", " ", "a", " a", "a ", " a b ", "\t\n\r a\x0b\x0c", "192.168.1.1     ",
        "\u{85}a\u{a0}", "\u{1680}a\u{3000}", "\u{2000}\u{2001}\u{2002}a\u{2008}\u{2009}\u{200a}",
        "\u{2028}a\u{2029}", "\u{202f}a\u{205f}", "a\u{a0}b", "\u{a0}", "\u{3000}\u{3000}",
        " \u{2003}\t\u{85} a \u{a0} ", "\u{200b}a", "a\u{200b}", "\u{180e}a", "\u{feff}a", "é ", " é",
        "\u{1c}a\u{1f}", "\u{c2}a", "a\u{e2}", "\u{2000}", "\u{200a}x\u{2000}",
    ];
    for text in texts {
        let (lo, hi) = trim_bounds(text.as_bytes());
        assert_eq!(&text[lo..hi], text.trim(), "{:?}", text);
    }
}

#[test]
fn texts_are_the_same_or_not() {
    assert!(same_bytes(b"", b""));
    assert!(same_bytes(b"abc", b"abc"));
    assert!(!same_bytes(b"abc", b"abd"));
    assert!(!same_bytes(b"abc", b"ab"));
    assert!(!same_bytes(b"ab", b"abc"));
    assert!(same_text("all", "all"));
    assert!(!same_text("all", "al"));
    assert!(!same_text("all", "All"));
    assert!(same_text("", ""));
}

#[test]
fn an_index_in_decimal() {
    assert_eq!(parse_index(b"0"), Some(0));
    assert_eq!(parse_index(b"42"), Some(42));
    assert_eq!(parse_index(b"+42"), Some(42));
    assert_eq!(parse_index(b"0042"), Some(42));
    assert_eq!(parse_index(usize::MAX.to_string().as_bytes()), Some(usize::MAX));
    assert_eq!(parse_index(b""), None);
    assert_eq!(parse_index(b"+"), None);
    assert_eq!(parse_index(b"-1"), None);
    assert_eq!(parse_index(b"4 2"), None);
    assert_eq!(parse_index(b"42x"), None);
    assert_eq!(parse_index(b"340282366920938463463374607431768211456"), None);
    let mut beyond = usize::MAX.to_string().into_bytes();
    let last = beyond.len() - 1;
    beyond[last] += 1;
    assert_eq!(parse_index(&beyond), None);
}
