use rupost::number::{num_cmp, num_string, parse_number, Number, Ord3};
use rupost::text::str_chars;

fn parse(s: &str) -> Number {
    parse_number(&str_chars(s)).unwrap()
}

#[test]
fn test_parse_number_canonical_forms() {
    assert_eq!(parse("200"), Number { neg: false, mant: 2, exp: 2 });
    assert_eq!(parse("1.5"), Number { neg: false, mant: 15, exp: -1 });
    assert_eq!(parse("-0.25"), Number { neg: true, mant: 25, exp: -2 });
    assert_eq!(parse("1e3"), Number { neg: false, mant: 1, exp: 3 });
    assert_eq!(parse("2.5e-2"), Number { neg: false, mant: 25, exp: -3 });
    assert_eq!(parse("0"), Number { neg: false, mant: 0, exp: 0 });
    assert_eq!(parse("0.0"), Number { neg: false, mant: 0, exp: 0 });
}

#[test]
fn test_parse_number_rejects_non_numbers() {
    assert!(parse_number(&str_chars("")).is_none());
    assert!(parse_number(&str_chars("abc")).is_none());
    assert!(parse_number(&str_chars("1.2.3")).is_none());
    assert!(parse_number(&str_chars("1e")).is_none());
    assert!(parse_number(&str_chars(".")).is_none());
}

#[test]
fn test_equal_values_in_different_spellings() {
    assert_eq!(num_cmp(&parse("200"), &parse("2e2")), Ord3::Eq);
    assert_eq!(num_cmp(&parse("1.50"), &parse("1.5")), Ord3::Eq);
    assert_eq!(num_cmp(&parse("0"), &parse("-0")), Ord3::Eq);
}

#[test]
fn test_ordering() {
    assert_eq!(num_cmp(&parse("5"), &parse("10")), Ord3::Lt);
    assert_eq!(num_cmp(&parse("-5"), &parse("1")), Ord3::Lt);
    assert_eq!(num_cmp(&parse("-5"), &parse("-10")), Ord3::Gt);
    assert_eq!(num_cmp(&parse("1.01"), &parse("1.001")), Ord3::Gt);
    assert_eq!(num_cmp(&parse("9.99"), &parse("10")), Ord3::Lt);
}

#[test]
fn test_number_rendering() {
    assert_eq!(num_string(&parse("200")), "200");
    assert_eq!(num_string(&parse("1.5")), "1.5");
    assert_eq!(num_string(&parse("-0.25")), "-0.25");
    assert_eq!(num_string(&parse("0.005")), "0.005");
    assert_eq!(num_string(&parse("42")), "42");
}
