use hermes_ru::decimal::{integer_text, parse_integer};

#[test]
fn integer_text_writes_decimal() {
    assert_eq!(integer_text(0), "0");
    assert_eq!(integer_text(7), "7");
    assert_eq!(integer_text(10), "10");
    assert_eq!(integer_text(-1), "-1");
    assert_eq!(integer_text(1203), "1203");
    assert_eq!(integer_text(i32::MAX), "2147483647");
    assert_eq!(integer_text(i32::MIN), "-2147483648");
}

#[test]
fn integer_text_agrees_with_std() {
    for n in [-100000, -99, -10, -9, 0, 9, 10, 99, 100, 101, 65535, 1000000] {
        assert_eq!(integer_text(n), n.to_string());
    }
}

#[test]
fn parse_integer_reads_decimal() {
    assert_eq!(parse_integer("0"), Some(0));
    assert_eq!(parse_integer("42"), Some(42));
    assert_eq!(parse_integer("-42"), Some(-42));
    assert_eq!(parse_integer("-0"), Some(0));
    assert_eq!(parse_integer("007"), Some(7));
    assert_eq!(parse_integer("2147483647"), Some(i32::MAX));
    assert_eq!(parse_integer("-2147483648"), Some(i32::MIN));
    assert_eq!(parse_integer("00000000000000000000012"), Some(12));
}

#[test]
fn parse_integer_refuses_what_is_out_of_range() {
    assert_eq!(parse_integer("2147483648"), None);
    assert_eq!(parse_integer("-2147483649"), None);
    assert_eq!(parse_integer("99999999999999999999999999"), None);
    assert_eq!(parse_integer("-99999999999999999999999999"), None);
}

#[test]
fn parse_integer_refuses_other_text() {
    assert_eq!(parse_integer(""), None);
    assert_eq!(parse_integer("-"), None);
    assert_eq!(parse_integer("+5"), None);
    assert_eq!(parse_integer("1.5"), None);
    assert_eq!(parse_integer("12a"), None);
    assert_eq!(parse_integer(" 1"), None);
    assert_eq!(parse_integer("--1"), None);
    assert_eq!(parse_integer("١٢"), None);
}

#[test]
fn reading_what_was_written_gives_the_number_again() {
    for n in [i32::MIN, -12345, -1, 0, 1, 12345, i32::MAX] {
        assert_eq!(parse_integer(&integer_text(n)), Some(n));
    }
}
