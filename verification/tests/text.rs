use sol_li_ni::text::{
    chars_of, contains_char, decimal, join, parse_number, same, starts_with, strip_prefix, trim,
    trim_end, trim_end_matches, white_space, NumberIssue,
};

#[test]
fn white_space_is_unicode_white_space() {
    for n in 0..=0x10ffff_u32 {
        if let Some(c) = char::from_u32(n) {
            assert_eq!(white_space(c), c.is_whitespace(), "U+{n:04X}");
        }
    }
}

#[test]
fn trimming_matches_the_standard_library() {
    for s in ["", " ", "a", " a ", "\t a b\n", "\u{a0}x\u{3000}", "नमस्ते ", "a\u{200b}"] {
        assert_eq!(trim(s), s.trim());
        assert_eq!(trim_end(s), s.trim_end());
        assert_eq!(trim_end_matches(s, 'a'), s.trim_end_matches('a'));
        assert_eq!(chars_of(s), s.chars().collect::<Vec<char>>());
    }
    assert_eq!(trim_end_matches("x//", '/'), "x");
}

#[test]
fn prefixes_are_compared_by_character() {
    assert!(starts_with("नमस्ते", "नम"));
    assert!(starts_with("abc", ""));
    assert!(!starts_with("ab", "abc"));
    assert!(!starts_with("abc", "abd"));
    assert_eq!(strip_prefix("Bearer é", "Bearer "), Some("é"));
    assert_eq!(strip_prefix("Basic", "Bearer "), None);
    assert!(contains_char("a?b", '?'));
    assert!(!contains_char("ab", '?'));
    assert!(same("é", "é"));
    assert!(!same("e", "é"));
}

#[test]
fn numbers_are_written_and_read_in_decimal() {
    for n in [0u64, 7, 10, 99, 100, 12_345, u64::MAX] {
        assert_eq!(decimal(n as u128), n.to_string());
        assert_eq!(parse_number(&n.to_string(), u64::MAX), Ok(n));
    }
    assert_eq!(decimal(u128::MAX), u128::MAX.to_string());
}

#[test]
fn bad_numbers_are_told_apart() {
    assert_eq!(parse_number("", 9), Err(NumberIssue::Empty));
    assert_eq!(parse_number("+", 9), Err(NumberIssue::InvalidDigit));
    assert_eq!(parse_number("++1", 9), Err(NumberIssue::InvalidDigit));
    assert_eq!(parse_number("-1", 9), Err(NumberIssue::InvalidDigit));
    assert_eq!(parse_number("10", 9), Err(NumberIssue::TooLarge));
    assert_eq!(parse_number("99x", 9), Err(NumberIssue::TooLarge));
    assert_eq!(parse_number("9x9", 9), Err(NumberIssue::InvalidDigit));
    assert_eq!(parse_number("+0009", 9), Ok(9));
    assert_eq!(parse_number("18446744073709551616", u64::MAX), Err(NumberIssue::TooLarge));
}

#[test]
fn parts_are_joined_with_a_separator() {
    let parts = |p: &[&str]| p.iter().map(|s| s.to_string()).collect::<Vec<String>>();
    assert_eq!(join(&parts(&[]), ", "), "");
    assert_eq!(join(&parts(&["a"]), ", "), "a");
    assert_eq!(join(&parts(&["a", "", "c"]), ", "), "a, , c");
}
