use ufed_report::text::{
    blank, bytes_eq, char_is_whitespace, concatenate, decimal_string, decode, from_chars,
    parse_u32, parse_u64, push_str, str_eq, strip_whitespace, to_chars, trim,
};

#[test]
fn white_space_is_the_unicode_property() {
    for c in ['\t', '\n', '\u{b}', '\u{c}', '\r', ' ', '\u{85}', '\u{a0}', '\u{1680}', '\u{2000}',
        '\u{200a}', '\u{2028}', '\u{2029}', '\u{202f}', '\u{205f}', '\u{3000}'] {
        assert!(char_is_whitespace(c), "{:?}", c);
    }
    for c in ['a', '0', '\u{8}', '\u{e}', '\u{200b}', '\u{feff}', '\u{180e}'] {
        assert!(!char_is_whitespace(c), "{:?}", c);
    }
    for u in 0u32..0x11000 {
        if let Some(c) = char::from_u32(u) {
            assert_eq!(char_is_whitespace(c), c.is_whitespace(), "{:x}", u);
        }
    }
}

#[test]
fn trim_removes_only_the_ends() {
    assert_eq!(trim("  a b  "), "a b");
    assert_eq!(trim("\u{3000}x\n"), "x");
    assert_eq!(trim("   "), "");
    assert_eq!(trim(""), "");
    assert_eq!(trim("a"), "a");
    for s in ["", " ", " a", "a ", " a b ", "\t\u{a0}ü \u{2003}"] {
        assert_eq!(trim(s), s.trim());
    }
}

#[test]
fn strip_removes_every_white_space() {
    assert_eq!(strip_whitespace(" a b\tc\n"), "abc");
    assert_eq!(strip_whitespace(""), "");
    assert_eq!(strip_whitespace(" \u{2009} "), "");
    assert_eq!(strip_whitespace("äö ü"), "äöü");
}

#[test]
fn blank_texts() {
    assert!(blank(""));
    assert!(blank(" \n\t\u{a0}"));
    assert!(!blank(" x "));
}

#[test]
fn decimal_numbers() {
    assert_eq!(parse_u64("0"), Some(0));
    assert_eq!(parse_u64("11159817"), Some(11159817));
    assert_eq!(parse_u64("+5"), Some(5));
    assert_eq!(parse_u64("0005"), Some(5));
    assert_eq!(parse_u64("18446744073709551615"), Some(u64::MAX));
    assert_eq!(parse_u64("18446744073709551616"), None);
    assert_eq!(parse_u64("99999999999999999999999"), None);
    assert_eq!(parse_u64(""), None);
    assert_eq!(parse_u64("+"), None);
    assert_eq!(parse_u64("++1"), None);
    assert_eq!(parse_u64("-1"), None);
    assert_eq!(parse_u64("1 "), None);
    assert_eq!(parse_u64("1_0"), None);
    assert_eq!(parse_u64("12a"), None);
    assert_eq!(parse_u64("٣"), None);
    assert_eq!(parse_u32("4294967295"), Some(u32::MAX));
    assert_eq!(parse_u32("4294967296"), None);
    assert_eq!(parse_u32("+0"), Some(0));
    for s in ["", "+", "1", "+1", "-0", "00", "184467440737095516150", "4294967296", "x"] {
        assert_eq!(parse_u64(s), s.parse::<u64>().ok());
        assert_eq!(parse_u32(s), s.parse::<u32>().ok());
    }
}

#[test]
fn strings_and_characters() {
    assert_eq!(to_chars("aüb"), vec!['a', 'ü', 'b']);
    assert_eq!(from_chars(&vec!['a', 'ü', 'b', 'c'], 1, 3), "üb");
    assert_eq!(from_chars(&vec!['a'], 1, 1), "");
    assert_eq!(concatenate("ab", "cd"), "abcd");
    let mut s = "x".to_string();
    push_str(&mut s, "yz");
    assert_eq!(s, "xyz");
    assert!(str_eq("type", "type"));
    assert!(!str_eq("type", "Type"));
    assert!(!str_eq("type", "types"));
    assert!(bytes_eq(b"", b""));
    assert!(!bytes_eq(b"a", b"b"));
}

#[test]
fn utf8_decoding() {
    assert_eq!(decode("grüß".as_bytes()), Some("grüß".to_string()));
    assert_eq!(decode(b""), Some("".to_string()));
    assert_eq!(decode(&[0x66, 0xff]), None);
    assert_eq!(decode(&[0xc3]), None);
}

#[test]
fn numbers_are_written_in_base_ten() {
    assert_eq!(decimal_string(0), "0");
    assert_eq!(decimal_string(7), "7");
    assert_eq!(decimal_string(10), "10");
    assert_eq!(decimal_string(1090), "1090");
    assert_eq!(decimal_string(u64::MAX), "18446744073709551615");
    for n in [0u64, 9, 10, 99, 100, 12345, 4294967295, 4294967296, u64::MAX] {
        assert_eq!(parse_u64(&decimal_string(n)), Some(n));
    }
}
