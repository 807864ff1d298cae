use klickhouse::text::{
    chars_equal, is_alphabetic, is_numeric, is_whitespace, parse_usize, parse_usize_chars,
    push_decimal, push_signed_decimal, push_str, str_chars, str_equal, trim, trim_bounds,
};

#[test]
fn character_classes() {
    for c in ['a', 'z', 'A', 'Z', '\u{e9}', '\u{4e2d}', '\u{3b1}'] {
        assert!(is_alphabetic(c), "{:?}", c);
    }
    for c in ['0', '_', '$', ' ', '(', '\u{0663}', '\u{d7}', '\u{7f}', '@', '['] {
        assert!(!is_alphabetic(c), "{:?}", c);
    }
    for c in ['0', '9', '\u{0663}', '\u{bd}', '\u{2167}'] {
        assert!(is_numeric(c), "{:?}", c);
    }
    for c in ['a', '/', ':', ' ', '\u{e9}'] {
        assert!(!is_numeric(c), "{:?}", c);
    }
    for c in [' ', '\t', '\n', '\u{b}', '\u{c}', '\r', '\u{85}', '\u{a0}', '\u{2003}', '\u{3000}'] {
        assert!(is_whitespace(c), "{:?}", c);
    }
    for c in ['a', '\u{8}', '\u{e}', '\u{1c}', '\u{200b}', '_'] {
        assert!(!is_whitespace(c), "{:?}", c);
    }
}

#[test]
fn characters_of_strings() {
    assert_eq!(str_chars("a\u{e9}\u{1f600}"), vec!['a', '\u{e9}', '\u{1f600}']);
    assert_eq!(str_chars(""), Vec::<char>::new());
    assert!(chars_equal(&vec!['a', 'b'], &vec!['a', 'b']));
    assert!(!chars_equal(&vec!['a', 'b'], &vec!['a', 'c']));
    assert!(!chars_equal(&vec!['a', 'b'], &vec!['a']));
    assert!(chars_equal(&vec![], &vec![]));
    assert!(str_equal("Int8", "Int8"));
    assert!(!str_equal("Int8", "Int16"));
    assert!(!str_equal("Int8", "int8"));
    let mut out = vec!['x'];
    push_str(&mut out, "y\u{e9}");
    push_str(&mut out, "");
    assert_eq!(out, vec!['x', 'y', '\u{e9}']);
}

#[test]
fn trimming() {
    assert_eq!(trim("  a b \n"), "a b");
    assert_eq!(trim("a"), "a");
    assert_eq!(trim(""), "");
    assert_eq!(trim(" \t\r\n"), "");
    assert_eq!(trim("\u{a0}\u{e9} \u{e9}\u{2003}"), "\u{e9} \u{e9}");
    assert_eq!(trim("\u{200b}a"), "\u{200b}a");
    assert_eq!(trim_bounds(&str_chars("  ab ")), (2, 4));
    assert_eq!(trim_bounds(&str_chars("   ")), (3, 3));
    assert_eq!(trim_bounds(&str_chars("")), (0, 0));
}

#[test]
fn decimal_text() {
    let text = |n: usize| {
        let mut out = vec![];
        push_decimal(&mut out, n);
        out.into_iter().collect::<String>()
    };
    assert_eq!(text(0), "0");
    assert_eq!(text(7), "7");
    assert_eq!(text(10), "10");
    assert_eq!(text(1234567890), "1234567890");
    assert_eq!(text(usize::MAX), usize::MAX.to_string());
    let signed = |n: i32| {
        let mut out = vec!['='];
        push_signed_decimal(&mut out, n);
        out.into_iter().collect::<String>()
    };
    assert_eq!(signed(0), "=0");
    assert_eq!(signed(-1), "=-1");
    assert_eq!(signed(127), "=127");
    assert_eq!(signed(-32768), "=-32768");
    assert_eq!(signed(i32::MIN), "=-2147483648");
    assert_eq!(signed(i32::MAX), "=2147483647");
}

#[test]
fn numbers_are_read_as_the_standard_library_reads_them() {
    let cases = [
        "0", "7", "42", "+7", "007", "", "+", "-1", "1a", "a1", " 1", "1 ", "++1", "1+",
        "4294967295", "4294967296", "18446744073709551615", "18446744073709551616",
        "99999999999999999999999999", "\u{0663}", "1\u{0663}", "0000000000000000000000000001",
    ];
    for text in cases {
        assert_eq!(parse_usize(text), text.parse::<usize>().ok(), "{:?}", text);
    }
    let chars = str_chars("x12y");
    assert_eq!(parse_usize_chars(&chars, 1, 3), Some(12));
    assert_eq!(parse_usize_chars(&chars, 0, 3), None);
    assert_eq!(parse_usize_chars(&chars, 2, 2), None);
    for n in [0usize, 1, 9, 10, 99, 100, 65535, usize::MAX - 1, usize::MAX] {
        let mut out = vec![];
        push_decimal(&mut out, n);
        assert_eq!(parse_usize_chars(&out, 0, out.len()), Some(n));
    }
}
