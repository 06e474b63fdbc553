use git_time_machine::{
    Timestamp, chars_of, decimal_string, format_age, format_relative_time, nat_string,
    seconds_between, trim_string,
};

#[test]
fn timestamps_cover_the_range_of_utc_date_times() {
    assert!(Timestamp::from_secs(-8_334_601_228_800).is_some());
    assert!(Timestamp::from_secs(-8_334_601_228_801).is_none());
    assert!(Timestamp::from_secs(8_210_266_876_799).is_some());
    assert!(Timestamp::from_secs(8_210_266_876_800).is_none());
    assert!(Timestamp::from_millis(-8_334_601_228_800_000).is_some());
    assert!(Timestamp::from_millis(-8_334_601_228_800_001).is_none());
    assert!(Timestamp::from_millis(8_210_266_876_799_999).is_some());
    assert!(Timestamp::from_millis(8_210_266_876_800_000).is_none());
}

#[test]
fn millis_split_into_seconds_and_nanoseconds() {
    let t = Timestamp::from_millis(-1).unwrap();
    assert_eq!(t.secs(), -1);
    assert_eq!(t.subsec_nanos(), 999_000_000);
    assert_eq!(t.millis(), -1);
    let t = Timestamp::from_secs(42).unwrap();
    assert_eq!((t.secs(), t.subsec_nanos(), t.millis()), (42, 0, 42_000));
}

#[test]
fn now_is_after_the_epoch() {
    let t = Timestamp::now().expect("system time after the Unix epoch");
    assert!(t.secs() > 1_600_000_000);
    assert!(t.subsec_nanos() < 1_000_000_000);
}

#[test]
fn clock_readings_become_instants_within_range() {
    let t = Timestamp::from_clock_reading(1_700_000_000, 123_456_789).unwrap();
    assert_eq!((t.secs(), t.subsec_nanos(), t.millis()), (1_700_000_000, 123_456_789, 1_700_000_000_123));
    let t = Timestamp::from_clock_reading(0, 0).unwrap();
    assert_eq!((t.secs(), t.subsec_nanos()), (0, 0));
    assert!(Timestamp::from_clock_reading(8_210_266_876_799, 999_999_999).is_some());
    assert!(Timestamp::from_clock_reading(8_210_266_876_800, 0).is_none());
    assert!(Timestamp::from_clock_reading(u64::MAX, 0).is_none());
    assert!(Timestamp::from_clock_reading(9_223_372_036_854_775_808, 0).is_none());
}

#[test]
fn relative_time_buckets() {
    assert_eq!(format_age(-5), "-5s ago");
    assert_eq!(format_age(0), "0s ago");
    assert_eq!(format_age(59), "59s ago");
    assert_eq!(format_age(60), "1m ago");
    assert_eq!(format_age(3599), "59m ago");
    assert_eq!(format_age(3600), "1h ago");
    assert_eq!(format_age(86_399), "23h ago");
    assert_eq!(format_age(86_400), "yesterday");
    assert_eq!(format_age(2 * 86_400 - 1), "yesterday");
    assert_eq!(format_age(2 * 86_400), "2d ago");
    assert_eq!(format_age(6 * 86_400), "6d ago");
    assert_eq!(format_age(7 * 86_400), "1w ago");
    assert_eq!(format_age(29 * 86_400), "4w ago");
    assert_eq!(format_age(30 * 86_400), "1mo ago");
    assert_eq!(format_age(364 * 86_400), "12mo ago");
    assert_eq!(format_age(365 * 86_400), "1y ago");
    assert_eq!(format_age(800 * 86_400), "2y ago");
}

#[test]
fn seconds_between_rounds_toward_zero() {
    let a = Timestamp::from_millis(1_500).unwrap();
    let b = Timestamp::from_millis(0).unwrap();
    assert_eq!(seconds_between(&b, &a), 1);
    assert_eq!(seconds_between(&a, &b), -1);
    let c = Timestamp::from_millis(999).unwrap();
    assert_eq!(seconds_between(&c, &b), 0);
    assert_eq!(format_relative_time(&b, &Timestamp::from_secs(7200).unwrap()), "2h ago");
    assert_eq!(format_relative_time(&a, &b), "-1s ago");
}

#[test]
fn decimal_text() {
    assert_eq!(decimal_string(0), "0");
    assert_eq!(decimal_string(-42), "-42");
    assert_eq!(decimal_string(i64::MIN), "-9223372036854775808");
    assert_eq!(decimal_string(i64::MAX), "9223372036854775807");
    assert_eq!(nat_string(u64::MAX), "18446744073709551615");
}

#[test]
fn trimming_uses_unicode_whitespace() {
    assert_eq!(trim_string("\u{3000} \t x y \u{a0}\n"), "x y");
    assert_eq!(trim_string(" \r\n"), "");
    assert_eq!(chars_of("añb"), vec!['a', 'ñ', 'b']);
}
