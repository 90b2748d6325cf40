use dir_cache::decimal::{parse_u128, parse_u64, push_decimal};
use dir_cache::entry::is_expired;
use dir_cache::error::ErrorKind;
use dir_cache::opts::ExpirationOpt;
use dir_cache::time::{
    duration_from_nano_string, duration_from_nanos, time_of_reading, unix_time_now, Duration,
    MAX_NANOS, NANOS_PER_SEC,
};
use std::time::UNIX_EPOCH;

#[test]
fn nanos_are_split_into_seconds_and_the_rest() {
    let d = duration_from_nanos(1_500_000_000).unwrap();
    assert_eq!(1, d.as_secs());
    assert_eq!(500_000_000, d.subsec_nanos());
    assert_eq!(1_500_000_000, d.as_nanos());
    let d = duration_from_nanos(999_999_999).unwrap();
    assert_eq!(0, d.as_secs());
    assert_eq!(999_999_999, d.subsec_nanos());
    assert_eq!(Duration::zero(), duration_from_nanos(0).unwrap());
    assert_eq!(1_000_000_000, NANOS_PER_SEC);
}

#[test]
fn seconds_beyond_64_bits_are_an_arithmetic_failure() {
    assert_eq!(
        u64::MAX as u128 * 1_000_000_000 + 999_999_999,
        MAX_NANOS
    );
    let d = duration_from_nanos(MAX_NANOS).unwrap();
    assert_eq!(u64::MAX, d.as_secs());
    assert_eq!(999_999_999, d.subsec_nanos());
    assert_eq!(Duration::max(), d);
    let err = duration_from_nanos(MAX_NANOS + 1).unwrap_err();
    assert_eq!(ErrorKind::Arithmetic, err.kind());
    let err = duration_from_nanos(u128::MAX).unwrap_err();
    assert_eq!(ErrorKind::Arithmetic, err.kind());
}

#[test]
fn timestamps_are_read_from_decimal_text() {
    assert_eq!(
        Duration::new(1_700_000_000, 123_456_789),
        duration_from_nano_string(b"1700000000123456789").unwrap()
    );
    assert_eq!(
        Duration::from_secs(2),
        duration_from_nano_string(b"+0002000000000").unwrap()
    );
    for text in [
        &b""[..],
        b"+",
        b"-1",
        b"1.5",
        b"12a",
        b" 1",
        b"1 ",
        b"++1",
        b"340282366920938463463374607431768211456",
    ] {
        let err = duration_from_nano_string(text).unwrap_err();
        assert_eq!(ErrorKind::ParseMetadata, err.kind(), "{text:?}");
    }
    let err = duration_from_nano_string(b"340282366920938463463374607431768211455").unwrap_err();
    assert_eq!(ErrorKind::Arithmetic, err.kind());
}

#[test]
fn decimal_numbers_are_read_and_written() {
    assert_eq!(Some(0), parse_u128(b"0"));
    assert_eq!(Some(7), parse_u128(b"007"));
    assert_eq!(Some(u128::MAX), parse_u128(b"340282366920938463463374607431768211455"));
    assert_eq!(None, parse_u128(b"340282366920938463463374607431768211456"));
    assert_eq!(None, parse_u128(b"3402823669209384634633746074317682114550"));
    assert_eq!(Some(u64::MAX), parse_u64(b"18446744073709551615"));
    assert_eq!(None, parse_u64(b"18446744073709551616"));
    assert_eq!(None, parse_u64(b""));
    let mut out = b"n=".to_vec();
    push_decimal(&mut out, 0);
    push_decimal(&mut out, 9);
    push_decimal(&mut out, 10);
    push_decimal(&mut out, u128::MAX);
    assert_eq!(
        b"n=0910340282366920938463463374607431768211455".to_vec(),
        out
    );
}

#[test]
fn sums_are_held_at_the_longest_span() {
    let a = Duration::new(1, 600_000_000);
    let b = Duration::new(2, 700_000_000);
    assert_eq!(Duration::new(4, 300_000_000), a.saturating_add(b));
    assert_eq!(Duration::max(), Duration::max().saturating_add(a));
    assert_eq!(
        Duration::max(),
        Duration::new(u64::MAX, 0).saturating_add(Duration::from_secs(1))
    );
    assert_eq!(
        Duration::new(u64::MAX, 999_999_998),
        Duration::new(u64::MAX, 0).saturating_add(Duration::new(0, 999_999_998))
    );
}

#[test]
fn expiry_is_reached_when_the_span_has_passed() {
    let written = Duration::from_secs(100);
    let ttl = Duration::from_secs(10);
    assert!(!is_expired(written, ttl, Duration::new(109, 999_999_999)));
    assert!(is_expired(written, ttl, Duration::from_secs(110)));
    assert!(is_expired(written, ttl, Duration::from_secs(111)));
    assert!(is_expired(written, Duration::zero(), written));
    // Without expiry the span is the longest there is
    let never = ExpirationOpt::NoExpiry.as_dur();
    assert_eq!(Duration::max(), never);
    assert!(!is_expired(written, never, Duration::new(u64::MAX, 999_999_998)));
    assert!(!is_expired(Duration::zero(), never, Duration::from_secs(u64::MAX)));
    assert_eq!(
        ttl,
        ExpirationOpt::ExpiresAfter(Duration::from_secs(10)).as_dur()
    );
}

#[test]
fn the_clock_is_read() {
    let first = unix_time_now().unwrap();
    let second = unix_time_now().unwrap();
    // Well after the year 2020, and not running backwards by much
    assert!(first.as_secs() > 1_600_000_000);
    assert!(second.as_secs() + 60 > first.as_secs());
    assert!(first.subsec_nanos() < 1_000_000_000);
}

#[test]
fn reading_of_the_clock_becomes_a_time() {
    assert_eq!(
        Duration::new(1_700_000_000, 123_456_789),
        time_of_reading(Ok((1_700_000_000, 123_456_789))).unwrap()
    );
    assert_eq!(Duration::zero(), time_of_reading(Ok((0, 0))).unwrap());
    assert_eq!(
        Duration::max(),
        time_of_reading(Ok((u64::MAX, 999_999_999))).unwrap()
    );
    // More nanoseconds than a second has carry over into the seconds
    assert_eq!(
        Duration::new(3, 500_000_000),
        time_of_reading(Ok((1, 2_500_000_000))).unwrap()
    );
    let err = time_of_reading(Ok((u64::MAX, 1_000_000_000))).unwrap_err();
    assert_eq!(ErrorKind::Arithmetic, err.kind());
    // An instant before the epoch is no time
    let before = UNIX_EPOCH
        .duration_since(UNIX_EPOCH + std::time::Duration::from_secs(5))
        .unwrap_err();
    let err = time_of_reading(Err(before)).unwrap_err();
    assert_eq!(ErrorKind::SystemTime, err.kind());
}
