use herdr_sidebar::text::{chars_lt, last_line_of, parse_u16, push_decimal, str_eq, to_lowercase, trim};

#[test]
fn parse_u16_follows_the_standard_parser() {
    for s in ["0", "1", "+7", "65535", "00080", "65536", "", "+", "-1", "1 ", "x1", "99999999999"] {
        assert_eq!(parse_u16(s), s.parse::<u16>().ok(), "input {s:?}");
    }
}

#[test]
fn last_line_follows_str_lines() {
    for s in ["", "a", "a\n", "a\nb", "a\r\nb\r\n", "a\n\n", "x\r", "\n", "one\ntwo\r"] {
        assert_eq!(last_line_of(s), s.lines().last().map(|l| l.to_owned()), "input {s:?}");
    }
}

#[test]
fn decimal_and_comparisons() {
    let mut s = String::from("n=");
    push_decimal(&mut s, 0);
    push_decimal(&mut s, 1234567890123);
    assert_eq!(s, "n=01234567890123");
    assert!(chars_lt(&"ab".chars().collect(), &"b".chars().collect()));
    assert!(chars_lt(&"a".chars().collect(), &"ab".chars().collect()));
    assert!(!chars_lt(&"ab".chars().collect(), &"ab".chars().collect()));
    assert!(str_eq("é", "é") && !str_eq("a", "b"));
    assert_eq!(to_lowercase("ÀB"), "àb");
    assert_eq!(trim("\u{3000} x \t"), "x");
}

/// The White_Space code points the library's `trim` contract lists.
fn listed_white_space(c: char) -> bool {
    let n = c as u32;
    (9..=13).contains(&n)
        || n == 32
        || n == 0x85
        || n == 0xA0
        || n == 0x1680
        || (0x2000..=0x200A).contains(&n)
        || n == 0x2028
        || n == 0x2029
        || n == 0x202F
        || n == 0x205F
        || n == 0x3000
}

#[test]
fn trim_contract_lists_exactly_the_whitespace_characters() {
    for n in 0..=0x10FFFFu32 {
        if let Some(c) = char::from_u32(n) {
            assert_eq!(c.is_whitespace(), listed_white_space(c), "code point {n:#x}");
        }
    }
    assert_eq!(trim("\u{85}\u{a0}x\u{2028} y\u{202f}"), "x\u{2028} y");
}
