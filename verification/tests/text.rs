use fileflow::text::{parse_u64, push_padded};

fn padded(n: u64, width: usize) -> String {
    let mut out = String::new();
    push_padded(&mut out, n, width);
    out
}

#[test]
fn push_padded_fills_with_zeros() {
    assert_eq!(padded(0, 12), "000000000000");
    assert_eq!(padded(7, 12), "000000000007");
    assert_eq!(padded(1048576, 12), "000001048576");
    assert_eq!(padded(999_999_999_999, 12), "999999999999");
}

#[test]
fn push_padded_leaves_long_numbers_whole() {
    assert_eq!(padded(1_000_000_000_000, 12), "1000000000000");
    assert_eq!(padded(u64::MAX, 12), "18446744073709551615");
    assert_eq!(padded(0, 0), "0");
    assert_eq!(padded(0, 1), "0");
    assert_eq!(padded(42, 0), "42");
    assert_eq!(padded(42, 2), "42");
    assert_eq!(padded(42, 3), "042");
}

#[test]
fn push_padded_appends() {
    let mut out = String::from("id:");
    push_padded(&mut out, 5, 4);
    assert_eq!(out, "id:0005");
    push_padded(&mut out, 10, 0);
    assert_eq!(out, "id:000510");
}

#[test]
fn parse_u64_reads_decimal_numbers() {
    assert_eq!(parse_u64("0"), Some(0));
    assert_eq!(parse_u64("12"), Some(12));
    assert_eq!(parse_u64("000000000012"), Some(12));
    assert_eq!(parse_u64("+12"), Some(12));
    assert_eq!(parse_u64("18446744073709551615"), Some(u64::MAX));
    assert_eq!(parse_u64("00018446744073709551615"), Some(u64::MAX));
}

#[test]
fn parse_u64_refuses_what_is_no_number() {
    assert_eq!(parse_u64(""), None);
    assert_eq!(parse_u64("+"), None);
    assert_eq!(parse_u64("-1"), None);
    assert_eq!(parse_u64("++1"), None);
    assert_eq!(parse_u64("1+"), None);
    assert_eq!(parse_u64(" 1"), None);
    assert_eq!(parse_u64("1 "), None);
    assert_eq!(parse_u64("12a"), None);
    assert_eq!(parse_u64("a12"), None);
    assert_eq!(parse_u64("1.0"), None);
    assert_eq!(parse_u64("0x10"), None);
    assert_eq!(parse_u64("１２"), None);
    assert_eq!(parse_u64("1é"), None);
}

#[test]
fn parse_u64_refuses_numbers_beyond_64_bits() {
    assert_eq!(parse_u64("18446744073709551616"), None);
    assert_eq!(parse_u64("18446744073709551620"), None);
    assert_eq!(parse_u64("99999999999999999999"), None);
    assert_eq!(parse_u64("184467440737095516150"), None);
}

#[test]
fn parse_u64_agrees_with_the_standard_parser() {
    for text in ["0", "7", "+7", "007", "", "+", "x", "18446744073709551615", "18446744073709551616", "1_000", "٣"] {
        assert_eq!(parse_u64(text), text.parse::<u64>().ok(), "{:?}", text);
    }
}

#[test]
fn a_padded_number_reads_back() {
    for n in [0u64, 1, 9, 10, 99, 100, 123456789012, 1234567890123, u64::MAX] {
        assert_eq!(parse_u64(&padded(n, 12)), Some(n));
        assert_eq!(padded(n, 0), n.to_string());
        assert_eq!(padded(n, 12), format!("{:012}", n));
    }
}
