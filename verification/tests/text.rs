use ocu::text::{has_prefix, is_white_space, parse_i64, push_decimal, text_equals, trim};

#[test]
fn white_space_agrees_with_std_on_every_char() {
    for code in 0..=0x10ffffu32 {
        if let Some(c) = char::from_u32(code) {
            assert_eq!(is_white_space(c), c.is_whitespace(), "U+{code:04X}");
        }
    }
}

#[test]
fn trim_agrees_with_std() {
    for text in ["", " ", "  a  ", "\u{3000}x\u{a0}", "a b", "\t\n", "ab", " \u{2028}é\u{85}"] {
        assert_eq!(trim(text), text.trim(), "{text:?}");
    }
}

#[test]
fn text_comparisons() {
    assert!(text_equals("--plain", "--plain"));
    assert!(!text_equals("--plain", "--plains"));
    assert!(!text_equals("é", "e"));
    assert!(has_prefix("--host=box", "--host="));
    assert!(has_prefix("--host=", "--host="));
    assert!(!has_prefix("--host", "--host="));
    assert!(has_prefix("anything", ""));
}

#[test]
fn decimal_notation() {
    for n in [0u64, 7, 10, 99, 100, 255, 65535, u64::MAX] {
        let mut out = "x".to_string();
        push_decimal(&mut out, n);
        assert_eq!(out, format!("x{n}"));
    }
}

#[test]
fn integer_parsing_round_trips() {
    for n in [0i64, 1, -1, 1781517330, i64::MAX, i64::MIN] {
        assert_eq!(parse_i64(&n.to_string()), Some(n));
    }
}
