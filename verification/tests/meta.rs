use hybrid_phi::meta::parse_usize_or_zero;
use hybrid_phi::meta::usize_to_decimal;

fn parse(s: &str) -> usize {
    parse_usize_or_zero(&s.as_bytes().to_vec())
}

#[test]
fn test_parse_plain_numbers() {
    assert_eq!(parse("0"), 0);
    assert_eq!(parse("7"), 7);
    assert_eq!(parse("123"), 123);
    assert_eq!(parse("0012"), 12);
}

#[test]
fn test_parse_leading_plus() {
    assert_eq!(parse("+123"), 123);
    assert_eq!(parse("+0"), 0);
}

#[test]
fn test_parse_malformed_reads_zero() {
    assert_eq!(parse(""), 0);
    assert_eq!(parse("+"), 0);
    assert_eq!(parse("-5"), 0);
    assert_eq!(parse("12a"), 0);
    assert_eq!(parse("1.5"), 0);
    assert_eq!(parse(" 12"), 0);
    assert_eq!(parse("++1"), 0);
}

#[test]
fn test_parse_at_and_past_the_largest_value() {
    let max = usize::MAX.to_string();
    assert_eq!(parse(&max), usize::MAX);
    let past = format!("{}0", max);
    assert_eq!(parse(&past), 0);
}

#[test]
fn test_format_digits() {
    assert_eq!(usize_to_decimal(0), b"0".to_vec());
    assert_eq!(usize_to_decimal(7), b"7".to_vec());
    assert_eq!(usize_to_decimal(120), b"120".to_vec());
    assert_eq!(usize_to_decimal(usize::MAX), usize::MAX.to_string().into_bytes());
}

#[test]
fn test_format_then_parse() {
    for n in [0usize, 1, 9, 10, 99, 100, 123456, usize::MAX] {
        assert_eq!(parse_usize_or_zero(&usize_to_decimal(n)), n);
    }
}

#[test]
fn test_parse_agrees_with_std() {
    for s in ["42", "007", "+99", "18446744073709551615", "x", "9 9"] {
        assert_eq!(parse(s), s.parse::<usize>().unwrap_or(0), "input {:?}", s);
    }
}
