use bench_harness::text::{decimal_text, seconds_text, zero_padded_text};
use std::time::Duration;

#[test]
fn numbers_are_written_in_decimal() {
    assert_eq!(decimal_text(0), "0");
    assert_eq!(decimal_text(7), "7");
    assert_eq!(decimal_text(10), "10");
    assert_eq!(decimal_text(120), "120");
    assert_eq!(decimal_text(u64::MAX as u128), "18446744073709551615");
    assert_eq!(decimal_text(u128::MAX), "340282366920938463463374607431768211455");
}

#[test]
fn decimal_agrees_with_the_standard_library() {
    for n in 0u128..2000 {
        assert_eq!(decimal_text(n), n.to_string());
    }
}

#[test]
fn numbers_are_padded_with_zeros() {
    assert_eq!(zero_padded_text(0, 3), "000");
    assert_eq!(zero_padded_text(7, 3), "007");
    assert_eq!(zero_padded_text(42, 3), "042");
    assert_eq!(zero_padded_text(999, 3), "999");
    assert_eq!(zero_padded_text(1000, 3), "1000");
    assert_eq!(zero_padded_text(5, 0), "5");
    assert_eq!(zero_padded_text(5, 1), "5");
}

#[test]
fn times_are_written_in_seconds() {
    assert_eq!(seconds_text(0), "0");
    assert_eq!(seconds_text(1), "0.000000001");
    assert_eq!(seconds_text(1_000), "0.000001");
    assert_eq!(seconds_text(123_456), "0.000123456");
    assert_eq!(seconds_text(500_000_000), "0.5");
    assert_eq!(seconds_text(999_999_999), "0.999999999");
    assert_eq!(seconds_text(1_000_000_000), "1");
    assert_eq!(seconds_text(1_500_000_000), "1.5");
    assert_eq!(seconds_text(12_000_000_010), "12.00000001");
    assert_eq!(seconds_text(3_600_000_000_000), "3600");
}

#[test]
fn times_below_a_second_read_as_floating_point_seconds() {
    let mut nanos: u64 = 0;
    while nanos < 1_000_000_000 {
        let expected = Duration::from_nanos(nanos).as_secs_f64().to_string();
        assert_eq!(seconds_text(nanos as u128), expected);
        nanos += 7_654_321;
    }
    for nanos in [1u64, 9, 10, 99, 100, 12_345, 100_000, 250_000_000, 999_999_999] {
        let expected = Duration::from_nanos(nanos).as_secs_f64().to_string();
        assert_eq!(seconds_text(nanos as u128), expected);
    }
}

#[test]
fn times_parse_back_as_seconds() {
    for nanos in [0u64, 1, 1_000, 123_456_789, 1_500_000_000, 86_400_000_000_123] {
        let text = seconds_text(nanos as u128);
        let value: f64 = text.parse().unwrap();
        assert!(value >= 0.0);
        assert!((value - nanos as f64 / 1e9).abs() <= 1e-9 * value.max(1.0));
    }
}
