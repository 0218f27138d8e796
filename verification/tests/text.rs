//! Numbers as text, and white space.
use custos::text::{
    chars_of, decimal_text, find_char, is_white_space, list_text, parse_i32, parse_unsigned,
    same_text, signed_decimal_text, split_text, trim,
};

#[test]
fn white_space_is_that_of_unicode() {
    for n in 0..=0x10ffffu32 {
        if let Some(c) = char::from_u32(n) {
            assert_eq!(is_white_space(c), c.is_whitespace(), "{:?}", c);
        }
    }
}

#[test]
fn texts_are_trimmed_on_both_sides() {
    for s in ["", " ", " a ", "\t\n a b \u{3000}", "ab", "\u{a0}x"] {
        let chars = trim(&chars_of(s));
        assert_eq!(chars.iter().collect::<String>(), s.trim());
    }
}

#[test]
fn numbers_as_text() {
    for n in [0, 7, 10, 99, 100, 12345, u64::MAX] {
        assert_eq!(decimal_text(n), n.to_string());
        assert_eq!(parse_unsigned(&chars_of(&decimal_text(n))), Some(n));
    }
    for n in [0, -1, 42, i64::MAX, i64::MIN] {
        assert_eq!(signed_decimal_text(n), n.to_string());
    }
    for list in [vec![], vec![1], vec![1, -3, 224]] {
        assert_eq!(list_text(&list), format!("{:?}", list));
    }
}

#[test]
fn texts_as_numbers() {
    for s in [
        "", "+", "-", "0", "+7", "-7", "007", "12a", " 1", "18446744073709551615",
        "18446744073709551616", "2147483647", "2147483648", "-2147483648", "-2147483649",
    ] {
        assert_eq!(parse_unsigned(&chars_of(s)), s.parse::<u64>().ok(), "{}", s);
        assert_eq!(parse_i32(&chars_of(s)), s.parse::<i32>().ok(), "{}", s);
    }
}

#[test]
fn texts_are_split_at_a_character() {
    for s in ["", ",", "a", "a,b", ",a,,b,", "0-3,8"] {
        let parts: Vec<String> = split_text(&chars_of(s), ',')
            .iter()
            .map(|p| p.iter().collect())
            .collect();
        let expected: Vec<String> = s.split(',').map(|p| p.to_string()).collect();
        assert_eq!(parts, expected);
    }
    assert_eq!(find_char(&chars_of("ab,c"), 0, ','), 2);
    assert_eq!(find_char(&chars_of("ab,c"), 3, ','), 4);
}

#[test]
fn texts_are_the_same_or_not() {
    assert!(same_text("", ""));
    assert!(same_text("json", "json"));
    assert!(!same_text("json", "JSON"));
    assert!(!same_text("json", "jso"));
}
