use window_switcher::codec::{address_to_u64, parse_address};

#[test]
fn parses_small_address() {
    assert_eq!(parse_address(&b"0x1".to_vec()), Some(1));
    assert_eq!(address_to_u64(&b"0x1".to_vec()), 1);
}

#[test]
fn parses_mixed_case_hex() {
    assert_eq!(parse_address(&b"0xDeadBEEF".to_vec()), Some(0xdead_beef));
}

#[test]
fn parses_largest_value() {
    assert_eq!(parse_address(&b"0xffffffffffffffff".to_vec()), Some(u64::MAX));
}

#[test]
fn parses_leading_zeros() {
    assert_eq!(parse_address(&b"0x000000000000000002".to_vec()), Some(2));
}

#[test]
fn rejects_missing_marker() {
    assert_eq!(parse_address(&b"1234".to_vec()), None);
    assert_eq!(parse_address(&b"x123".to_vec()), None);
}

#[test]
fn rejects_empty_digits() {
    assert_eq!(parse_address(&b"0x".to_vec()), None);
    assert_eq!(parse_address(&b"".to_vec()), None);
}

#[test]
fn rejects_non_hex_byte() {
    assert_eq!(parse_address(&b"0x12g4".to_vec()), None);
}

#[test]
fn rejects_overflowing_value() {
    assert_eq!(parse_address(&b"0x10000000000000000".to_vec()), None);
}

#[test]
fn encoding_is_stable_across_calls() {
    let addr = b"0x55e1a2b3c4d5".to_vec();
    let first = address_to_u64(&addr);
    let second = address_to_u64(&addr);
    assert_eq!(first, second);
    assert_eq!(first, 0x55e1a2b3c4d5);
}
