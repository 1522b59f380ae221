use universal_timestamp::MonotonicClock;
use universal_timestamp::error_string;
use universal_timestamp::Timestamp;
use universal_timestamp::ErrorKind;
use universal_timestamp::calendar;

#[test]
fn test_now() {
    let _ = Timestamp::now();
}

#[test]
fn test_format_parse() {
    let mut clock = MonotonicClock::new();
    let ts = clock.now_monotonic();
    let s = ts.format(true);
    let parsed = Timestamp::parse(&s).unwrap();
    assert_eq!(ts, parsed);
}

#[test]
fn lib_test_calendar() {
    assert_eq!(calendar::gregorian_to_thai(2024), 2567);
}

#[test]
fn test_integration_now() {
    let now = Timestamp::now();
    assert!(now.as_nanos() > 0);
}

#[test]
fn test_integration_parse_format() {
    let ts_str = "2024-12-14T12:00:00Z";
    let ts = Timestamp::parse(ts_str).expect("Failed to parse");
    assert_eq!(ts.format(false), "2024-12-14T12:00:00Z");
}

#[test]
fn test_integration_monotonic() {
    let mut clock = MonotonicClock::new();
    let t1 = clock.now_monotonic();
    let t2 = clock.now_monotonic();
    assert!(t2 > t1);
}

#[test]
fn test_rust_test_calendar() {
    let thai_year = universal_timestamp::calendar::gregorian_to_thai(2024);
    assert_eq!(thai_year, 2567);
}

#[test]
fn nanos_round_trip() {
    for n in [0i64, 1, -1, 123_456_789, -987_654_321, i64::MAX, i64::MIN] {
        assert_eq!(Timestamp::from_nanos(n).as_nanos(), n);
    }
}

#[test]
fn format_then_parse_recovers_exact_instant() {
    for n in [
        0i64,
        1,
        -1,
        1_734_177_600_123_456_789,
        -3_217_000_000_000_000_000,
        i64::MAX,
        i64::MIN,
    ] {
        let t = Timestamp::from_nanos(n);
        let s = t.format(true);
        let back = Timestamp::parse(&s).unwrap();
        assert_eq!(back.as_nanos(), n);
    }
}

#[test]
fn format_exact_renderings() {
    assert_eq!(Timestamp::from_nanos(0).format(false), "1970-01-01T00:00:00Z");
    assert_eq!(Timestamp::from_nanos(0).format(true), "1970-01-01T00:00:00.000000000Z");
    assert_eq!(Timestamp::from_nanos(-1).format(true), "1969-12-31T23:59:59.999999999Z");
    assert_eq!(Timestamp::from_nanos(86_400_000_000_000).format(false), "1970-01-02T00:00:00Z");
}

#[test]
fn parse_fraction_scales_to_nanoseconds() {
    let t = Timestamp::parse("2024-12-14T12:00:00.5Z").unwrap();
    let whole = Timestamp::parse("2024-12-14T12:00:00Z").unwrap();
    assert_eq!(t.as_nanos(), whole.as_nanos() + 500_000_000);
    let u = Timestamp::parse("2024-12-14T12:00:00.123456789Z").unwrap();
    assert_eq!(u.as_nanos(), whole.as_nanos() + 123_456_789);
}

#[test]
fn lenient_agrees_with_strict() {
    let lenient = Timestamp::parse_lenient("2024-12-14 12:00:00").unwrap();
    let strict = Timestamp::parse("2024-12-14T12:00:00Z").unwrap();
    assert_eq!(lenient, strict);
}

#[test]
fn lenient_optional_tokens() {
    let base = Timestamp::parse("2024-12-14T12:00:00Z").unwrap();
    assert_eq!(Timestamp::parse_lenient("2024-12-14T12:00").unwrap(), base);
    assert_eq!(Timestamp::parse_lenient("2024-12-14T12:00Z").unwrap(), base);
    assert_eq!(Timestamp::parse_lenient("2024-12-14T12:00:00").unwrap(), base);
    assert_eq!(
        Timestamp::parse_lenient("2024-12-14 12:00:00.25").unwrap().as_nanos(),
        base.as_nanos() + 250_000_000
    );
}

#[test]
fn strict_rejects_lenient_only_forms() {
    for s in [
        "2024-12-14 12:00:00Z",
        "2024-12-14T12:00",
        "2024-12-14T12:00:00",
        "2024-12-14T12:00:00.5",
    ] {
        let e = Timestamp::parse(s).unwrap_err();
        assert_eq!(e.kind(), ErrorKind::InvalidFormat);
    }
}

#[test]
fn parse_error_kinds() {
    assert_eq!(Timestamp::parse("").unwrap_err().kind(), ErrorKind::NullInput);
    assert_eq!(Timestamp::parse("not a date").unwrap_err().kind(), ErrorKind::InvalidFormat);
    assert_eq!(
        Timestamp::parse("2024-02-30T00:00:00Z").unwrap_err().kind(),
        ErrorKind::OutOfRange
    );
    assert_eq!(
        Timestamp::parse("2024-13-01T00:00:00Z").unwrap_err().kind(),
        ErrorKind::OutOfRange
    );
    assert_eq!(
        Timestamp::parse("2024-12-14T24:00:00Z").unwrap_err().kind(),
        ErrorKind::OutOfRange
    );
    assert_eq!(
        Timestamp::parse("2024-12-14T12:00:60Z").unwrap_err().kind(),
        ErrorKind::OutOfRange
    );
    // A syntactically fine instant outside the 64-bit nanosecond range.
    assert_eq!(
        Timestamp::parse("9999-12-31T23:59:59Z").unwrap_err().kind(),
        ErrorKind::OutOfRange
    );
}

#[test]
fn leap_year_day_bounds() {
    assert!(Timestamp::parse("2024-02-29T00:00:00Z").is_ok());
    assert!(Timestamp::parse("2023-02-29T00:00:00Z").is_err());
    assert!(Timestamp::parse("2000-02-29T00:00:00Z").is_ok());
    assert!(Timestamp::parse("1900-02-29T00:00:00Z").is_err());
}

#[test]
fn error_messages() {
    assert_eq!(error_string(ErrorKind::UnknownEra), "unknown era");
    assert_eq!(error_string(ErrorKind::InvalidFormat), "invalid format");
    assert_eq!(Timestamp::parse("").unwrap_err().message(), "null or empty input");
}
