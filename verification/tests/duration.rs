use url_launcher::duration::{parse_time, Duration, DurationError};

#[test]
fn days_scale() {
    assert_eq!(parse_time("10d").unwrap(), Duration { secs: 864_000, nanos: 0 });
}

#[test]
fn hours_scale() {
    assert_eq!(parse_time("3h").unwrap(), Duration { secs: 10_800, nanos: 0 });
}

#[test]
fn minutes_scale() {
    assert_eq!(parse_time("7m").unwrap(), Duration { secs: 420, nanos: 0 });
}

#[test]
fn seconds_scale() {
    assert_eq!(parse_time("5s").unwrap(), Duration { secs: 5, nanos: 0 });
}

#[test]
fn deciseconds_scale() {
    assert_eq!(parse_time("9ds").unwrap(), Duration { secs: 0, nanos: 900_000_000 });
}

#[test]
fn centiseconds_scale() {
    assert_eq!(parse_time("4cs").unwrap(), Duration { secs: 0, nanos: 40_000_000 });
}

#[test]
fn milliseconds_scale() {
    assert_eq!(parse_time("250ms").unwrap(), Duration { secs: 0, nanos: 250_000_000 });
    assert_eq!(parse_time("2500ms").unwrap(), Duration { secs: 2, nanos: 500_000_000 });
}

#[test]
fn microseconds_scale() {
    assert_eq!(parse_time("123us").unwrap(), Duration { secs: 0, nanos: 123_000 });
}

#[test]
fn nanoseconds_scale() {
    assert_eq!(parse_time("999ns").unwrap(), Duration { secs: 0, nanos: 999 });
}

#[test]
fn bare_integer_counts_seconds() {
    assert_eq!(parse_time("42").unwrap(), Duration { secs: 42, nanos: 0 });
    assert_eq!(parse_time("42").unwrap(), parse_time("42s").unwrap());
}

#[test]
fn day_and_decisecond_suffixes_are_distinct() {
    assert_eq!(parse_time("10d").unwrap(), Duration { secs: 864_000, nanos: 0 });
    assert_eq!(parse_time("10ds").unwrap(), Duration { secs: 1, nanos: 0 });
}

#[test]
fn minus_one_is_the_maximum_sentinel() {
    let d = parse_time("-1").unwrap();
    assert_eq!(d.secs, u64::MAX);
    assert_eq!(d.nanos, 999_999_999);
}

#[test]
fn empty_input_rejected() {
    let e = parse_time("").unwrap_err();
    assert_eq!(e, DurationError::Empty);
    assert_eq!(e.message(), "must specify time duration");
}

#[test]
fn unrecognized_suffix_rejected() {
    let e = parse_time("5x").unwrap_err();
    assert_eq!(e, DurationError::BadSuffix);
    assert_eq!(e.message(), "invalid time duration suffix");
    assert_eq!(parse_time("10dd").unwrap_err(), DurationError::BadSuffix);
    assert_eq!(parse_time("3sec").unwrap_err(), DurationError::BadSuffix);
}

#[test]
fn bad_numeric_prefix_rejected() {
    assert_eq!(parse_time("d").unwrap_err(), DurationError::BadNumber);
    assert_eq!(parse_time("-5s").unwrap_err(), DurationError::BadNumber);
    assert_eq!(parse_time("-2").unwrap_err(), DurationError::BadNumber);
    assert_eq!(parse_time("1.5s").unwrap_err(), DurationError::BadNumber);
    // one more than u64::MAX
    assert_eq!(parse_time("18446744073709551616").unwrap_err(), DurationError::BadNumber);
}

#[test]
fn plus_sign_accepted_by_numeric_prefix() {
    assert_eq!(parse_time("+5s").unwrap(), Duration { secs: 5, nanos: 0 });
}

#[test]
fn scaled_value_over_the_representable_range_rejected() {
    assert_eq!(parse_time("300000000000000000d").unwrap_err(), DurationError::TooLarge);
}

#[test]
fn largest_u64_of_seconds_accepted() {
    let d = parse_time("18446744073709551615s").unwrap();
    assert_eq!(d, Duration { secs: u64::MAX, nanos: 0 });
}
