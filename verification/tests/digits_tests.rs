use frameflow::digits::parse_u64_or;

#[test]
fn plain_numbers_parse() {
    assert_eq!(parse_u64_or("123", 0, 3, 9), 123);
    assert_eq!(parse_u64_or("0", 0, 1, 9), 0);
}

#[test]
fn empty_text_gives_the_default() {
    assert_eq!(parse_u64_or("", 0, 0, 7), 7);
}

#[test]
fn leading_plus_is_accepted() {
    assert_eq!(parse_u64_or("+42", 0, 3, 0), 42);
}

#[test]
fn bare_plus_gives_the_default() {
    assert_eq!(parse_u64_or("+", 0, 1, 3), 3);
}

#[test]
fn letters_give_the_default() {
    assert_eq!(parse_u64_or("abc", 0, 3, 5), 5);
    assert_eq!(parse_u64_or("12x", 0, 3, 5), 5);
}

#[test]
fn the_largest_value_parses_exactly() {
    let s = "18446744073709551615";
    assert_eq!(parse_u64_or(s, 0, s.len(), 0), u64::MAX);
}

#[test]
fn one_past_the_largest_value_overflows_to_the_default() {
    let s = "18446744073709551616";
    assert_eq!(parse_u64_or(s, 0, s.len(), 4), 4);
}

#[test]
fn a_window_of_a_larger_string_parses() {
    assert_eq!(parse_u64_or("bytes=10-5", 6, 8, 0), 10);
    assert_eq!(parse_u64_or("bytes=10-5", 9, 10, 0), 5);
}

#[test]
fn leading_zeros_are_allowed() {
    assert_eq!(parse_u64_or("007", 0, 3, 1), 7);
}
