use http_relay::decimal::{parse_number, push_decimal};

fn written(n: u64) -> Vec<u8> {
    let mut out = Vec::new();
    push_decimal(&mut out, n);
    out
}

#[test]
fn numbers_are_written_in_decimal() {
    assert_eq!(written(0), b"0".to_vec());
    assert_eq!(written(7), b"7".to_vec());
    assert_eq!(written(10), b"10".to_vec());
    assert_eq!(written(109), b"109".to_vec());
    assert_eq!(written(12345), b"12345".to_vec());
    assert_eq!(written(u64::MAX), b"18446744073709551615".to_vec());
}

#[test]
fn digits_are_appended() {
    let mut out = b"n=".to_vec();
    push_decimal(&mut out, 42);
    push_decimal(&mut out, 0);
    assert_eq!(out, b"n=420".to_vec());
}

#[test]
fn numbers_are_read() {
    assert_eq!(parse_number(b"0"), Some(0));
    assert_eq!(parse_number(b"50"), Some(50));
    assert_eq!(parse_number(b"+50"), Some(50));
    assert_eq!(parse_number(b"0050"), Some(50));
    assert_eq!(parse_number(b"4294967295"), Some(u32::MAX));
    assert_eq!(parse_number(b"000000000000000000000004294967295"), Some(u32::MAX));
}

#[test]
fn what_is_no_number_is_not_read() {
    assert_eq!(parse_number(b""), None);
    assert_eq!(parse_number(b"+"), None);
    assert_eq!(parse_number(b"-"), None);
    assert_eq!(parse_number(b"-5"), None);
    assert_eq!(parse_number(b"++5"), None);
    assert_eq!(parse_number(b"5+"), None);
    assert_eq!(parse_number(b" 5"), None);
    assert_eq!(parse_number(b"5 "), None);
    assert_eq!(parse_number(b"5a"), None);
    assert_eq!(parse_number(b"1_000"), None);
    assert_eq!(parse_number(b"/"), None);
    assert_eq!(parse_number(b":"), None);
    assert_eq!(parse_number("\u{663}".as_bytes()), None);
}

#[test]
fn numbers_too_large_are_not_read() {
    assert_eq!(parse_number(b"4294967296"), None);
    assert_eq!(parse_number(b"42949672950"), None);
    assert_eq!(parse_number(b"99999999999999999999999999999999"), None);
}

#[test]
fn reading_agrees_with_the_standard_parser() {
    let samples = [
        "", "+", "-", "0", "+0", "-0", "007", "12", "+12", " 12", "12 ", "1e3", "0x10", "٣",
        "4294967295", "4294967296", "+4294967295", "18446744073709551616",
    ];
    for sample in samples {
        assert_eq!(parse_number(sample.as_bytes()), sample.parse::<u32>().ok());
    }
}

#[test]
fn what_is_written_is_read_back() {
    for n in [0u32, 1, 9, 10, 99, 100, 65535, 65536, u32::MAX] {
        assert_eq!(parse_number(&written(n as u64)), Some(n));
    }
}
