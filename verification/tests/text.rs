use agents_mon::text::{decimal_of, lines_of, parse_number, printable_of, replaced, words_of};

fn list(v: &[&str]) -> Vec<String> {
    v.iter().map(|s| s.to_string()).collect()
}

#[test]
fn lines_end_at_either_line_end() {
    assert_eq!(lines_of("a\r\nb\n\nc\r"), list(&["a", "b", "", "c\r"]));
    assert_eq!(lines_of(""), list(&[]));
    assert_eq!(lines_of("\n"), list(&[""]));
}

#[test]
fn words_stand_between_white_space() {
    assert_eq!(words_of("  a\u{2003}b\tc\u{85}d "), list(&["a", "b", "c", "d"]));
    assert_eq!(words_of(" \u{a0}"), list(&[]));
}

#[test]
fn numbers_are_read_and_written() {
    assert_eq!(decimal_of(0), "0");
    assert_eq!(decimal_of(u64::MAX), "18446744073709551615");
    assert_eq!(parse_number("18446744073709551615", u64::MAX), Some(u64::MAX));
    assert_eq!(parse_number("18446744073709551616", u64::MAX), None);
    assert_eq!(parse_number("+007", 7), Some(7));
    assert_eq!(parse_number("8", 7), None);
    assert_eq!(parse_number("", 7), None);
    assert_eq!(parse_number("+", 7), None);
    assert_eq!(parse_number("-1", 7), None);
    assert_eq!(parse_number("1 ", 7), None);
}

#[test]
fn replacing_goes_from_the_left() {
    assert_eq!(replaced("aaa", "aa", "b"), "ba");
    assert_eq!(replaced("x", "aa", "b"), "x");
    assert_eq!(printable_of("a\u{7}b\u{9f}c\n"), "abc");
}
