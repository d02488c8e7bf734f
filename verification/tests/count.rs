use uncoauthor::count::{
    bumped_counter, count_or_zero, decimal_string, next_counter, parse_count, ParseCountError,
};

#[test]
fn parse_count_plain_and_trimmed() {
    assert_eq!(parse_count("3"), Ok(3));
    assert_eq!(parse_count("  42\n"), Ok(42));
    assert_eq!(parse_count("+7"), Ok(7));
    assert_eq!(parse_count("007"), Ok(7));
}

#[test]
fn parse_count_errors() {
    assert_eq!(parse_count(""), Err(ParseCountError::Empty));
    assert_eq!(parse_count(" \n"), Err(ParseCountError::Empty));
    assert_eq!(parse_count("+"), Err(ParseCountError::InvalidDigit));
    assert_eq!(parse_count("-"), Err(ParseCountError::InvalidDigit));
    assert_eq!(parse_count("-1"), Err(ParseCountError::InvalidDigit));
    assert_eq!(parse_count("1 2"), Err(ParseCountError::InvalidDigit));
    assert_eq!(parse_count("12a"), Err(ParseCountError::InvalidDigit));
    assert_eq!(parse_count("99999999999999999999999"), Err(ParseCountError::Overflow));
    assert_eq!(parse_count("99999999999999999999x"), Err(ParseCountError::Overflow));
}

#[test]
fn parse_count_agrees_with_std() {
    for s in ["0", "1", "+1", "-1", "", "+", "a", "12a", "18446744073709551615", "18446744073709551616", " 5 ", "1_0"] {
        assert_eq!(parse_count(s).ok(), s.trim().parse::<usize>().ok(), "text {:?}", s);
    }
}

#[test]
fn parse_error_messages() {
    assert_eq!(ParseCountError::Empty.message(), "cannot parse integer from empty string");
    assert_eq!(ParseCountError::InvalidDigit.message(), "invalid digit found in string");
    assert_eq!(ParseCountError::Overflow.message(), "number too large to fit in target type");
    assert_eq!("".parse::<usize>().unwrap_err().to_string(), ParseCountError::Empty.message());
    assert_eq!("x".parse::<usize>().unwrap_err().to_string(), ParseCountError::InvalidDigit.message());
}

#[test]
fn count_or_zero_defaults() {
    assert_eq!(count_or_zero("5"), 5);
    assert_eq!(count_or_zero(""), 0);
    assert_eq!(count_or_zero("garbage"), 0);
}

#[test]
fn decimal_strings() {
    assert_eq!(decimal_string(0), "0");
    assert_eq!(decimal_string(7), "7");
    assert_eq!(decimal_string(10), "10");
    assert_eq!(decimal_string(1234567890), "1234567890");
    assert_eq!(decimal_string(usize::MAX), usize::MAX.to_string());
}

#[test]
fn decimal_reads_back() {
    for n in [0usize, 1, 9, 10, 99, 100, 65535, usize::MAX] {
        assert_eq!(parse_count(&decimal_string(n)), Ok(n));
    }
}

#[test]
fn counter_bumps() {
    assert_eq!(bumped_counter("0"), "1");
    assert_eq!(bumped_counter("41\n"), "42");
    assert_eq!(bumped_counter(""), "1");
    assert_eq!(bumped_counter("junk"), "1");
    assert_eq!(count_or_zero(&bumped_counter(&bumped_counter("0"))), 2);
}

#[test]
fn counter_only_bumped_when_lines_removed() {
    assert_eq!(next_counter(0, "3"), None);
    assert_eq!(next_counter(1, "3"), Some("4".to_string()));
    assert_eq!(next_counter(5, "3"), Some("4".to_string()));
}

#[test]
fn counter_counts_edited_commits() {
    let mut counter = "0".to_string();
    for removed in [2usize, 0, 1, 0, 3] {
        if let Some(next) = next_counter(removed, &counter) {
            counter = next;
        }
    }
    assert_eq!(count_or_zero(&counter), 3);
}
