use advent_of_rust_2019::{parse_custom_separated, parse_lines, parse_whitespace_separated};

#[test]
fn test_parse_lines() {
    let expected: Vec<isize> = vec![12_isize, 24, 301, 123123];

    assert_eq!(parse_lines("12\n 24   \n 301 \n 123123 \n"), Some(expected));
}

#[test]
fn test_parse_whitespace_separated() {
    let expected: Vec<isize> = vec![12_isize, 24, 301, 123123];

    assert_eq!(
        parse_whitespace_separated("12   24   \n301 \t 123123 \n"),
        Some(expected)
    );
}

#[test]
fn test_parse_custom_separated() {
    let expected: Vec<isize> = vec![12_isize, 24, 301, 123123];

    assert_eq!(
        parse_custom_separated("12, 24,    301, \t 123123, ", ","),
        Some(expected)
    );
}

#[test]
fn parse_rejects_what_is_no_integer() {
    assert_eq!(parse_custom_separated("1,x,3", ","), None);
    assert_eq!(parse_custom_separated("1,-,3", ","), None);
    assert_eq!(parse_custom_separated("1,+,3", ","), None);
    assert_eq!(parse_custom_separated("1,2 3,4", ","), None);
    assert_eq!(parse_lines("12\n1.5"), None);
    assert_eq!(parse_whitespace_separated("12 0x10"), None);
}

#[test]
fn parse_reads_signs_and_leading_zeros() {
    assert_eq!(
        parse_custom_separated("-1,+2,007,-0", ","),
        Some(vec![-1_isize, 2, 7, 0])
    );
}

#[test]
fn parse_keeps_to_the_range_of_a_word() {
    assert_eq!(
        parse_custom_separated("9223372036854775807,-9223372036854775808", ","),
        Some(vec![isize::MAX, isize::MIN])
    );
    assert_eq!(parse_custom_separated("9223372036854775808", ","), None);
    assert_eq!(parse_custom_separated("-9223372036854775809", ","), None);
    assert_eq!(
        parse_custom_separated("99999999999999999999999999999999999999999999", ","),
        None
    );
}

#[test]
fn parse_with_an_empty_separator_reads_single_digits() {
    assert_eq!(
        parse_custom_separated("1 20\n3", ""),
        Some(vec![1_isize, 2, 0, 3])
    );
}

#[test]
fn parse_with_a_long_separator() {
    assert_eq!(
        parse_custom_separated("1=>2=>=>3", "=>"),
        Some(vec![1_isize, 2, 3])
    );
    assert_eq!(parse_custom_separated("", ","), Some(vec![]));
}

#[test]
fn parse_trims_unicode_white_space() {
    assert_eq!(
        parse_custom_separated("\u{a0}1\u{3000},\u{2003}2", ","),
        Some(vec![1_isize, 2])
    );
}
