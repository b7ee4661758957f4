use aoc19::io::{ints_from_lines, parse_i64_str, parse_usize_str, IntsError};

#[test]
fn parse_i64_reads_signed_decimal_numerals() {
    assert_eq!(parse_i64_str("0"), Some(0));
    assert_eq!(parse_i64_str("42"), Some(42));
    assert_eq!(parse_i64_str("+42"), Some(42));
    assert_eq!(parse_i64_str("-42"), Some(-42));
    assert_eq!(parse_i64_str("007"), Some(7));
    assert_eq!(parse_i64_str("9223372036854775807"), Some(i64::MAX));
    assert_eq!(parse_i64_str("-9223372036854775808"), Some(i64::MIN));
}

#[test]
fn parse_i64_rejects_what_is_no_64_bit_numeral() {
    assert_eq!(parse_i64_str(""), None);
    assert_eq!(parse_i64_str("+"), None);
    assert_eq!(parse_i64_str("-"), None);
    assert_eq!(parse_i64_str("1a"), None);
    assert_eq!(parse_i64_str(" 1"), None);
    assert_eq!(parse_i64_str("9223372036854775808"), None);
    assert_eq!(parse_i64_str("-9223372036854775809"), None);
}

#[test]
fn parse_usize_reads_unsigned_decimal_numerals() {
    assert_eq!(parse_usize_str("0"), Some(0));
    assert_eq!(parse_usize_str("+10"), Some(10));
    assert_eq!(parse_usize_str("12345"), Some(12345));
    assert_eq!(parse_usize_str("-1"), None);
    assert_eq!(parse_usize_str("99999999999999999999999999"), None);
}

#[test]
fn ints_from_lines_works_in_normal_cases() {
    let lines = vec![
        "1".to_string(),
        "-1".to_string(),
        "100".to_string(),
        "9999".to_string(),
    ];
    assert_eq!(ints_from_lines(&lines).unwrap(), vec![1, -1, 100, 9999]);
}

#[test]
fn ints_from_lines_names_the_line_it_cannot_convert() {
    let lines = vec!["3".to_string(), "5x".to_string(), "7".to_string()];
    match ints_from_lines(&lines) {
        Err(IntsError::Convert(m)) => {
            assert_eq!(m, "could not convert 5x to int");
        }
        other => panic!("expected a Convert error, got {:?}", other),
    }
}
