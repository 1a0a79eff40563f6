use chrono::{DateTime, Datelike, TimeZone, Utc};
use envelope_budget::types::timestamp::{MAX_SECONDS, MIN_SECONDS};
use envelope_budget::Timestamp;

#[test]
fn timestamp_keeps_its_parts() {
    let t = Timestamp::new(1_431_648_000, 123).unwrap();
    assert_eq!(t.seconds(), 1_431_648_000);
    assert_eq!(t.nanoseconds(), 123);
}

#[test]
fn timestamp_range_is_the_range_of_chrono() {
    assert!(Timestamp::new(MIN_SECONDS, 0).is_some());
    assert!(DateTime::from_timestamp(MIN_SECONDS, 0).is_some());
    assert!(Timestamp::new(MIN_SECONDS - 1, 0).is_none());
    assert!(DateTime::from_timestamp(MIN_SECONDS - 1, 0).is_none());
    assert!(Timestamp::new(MAX_SECONDS, 999_999_999).is_some());
    assert!(DateTime::from_timestamp(MAX_SECONDS, 999_999_999).is_some());
    assert!(Timestamp::new(MAX_SECONDS + 1, 0).is_none());
    assert!(DateTime::from_timestamp(MAX_SECONDS + 1, 0).is_none());
    assert_eq!(DateTime::<Utc>::MIN_UTC.timestamp(), MIN_SECONDS);
    assert_eq!(DateTime::<Utc>::MAX_UTC.timestamp(), MAX_SECONDS);
}

#[test]
fn timestamp_leap_second_only_at_the_end_of_a_minute() {
    for (secs, nanos) in [
        (59i64, 1_000_000_000u32),
        (59, 1_999_999_999),
        (58, 1_000_000_000),
        (0, 1_500_000_000),
        (-1, 1_000_000_000),
        (-2, 1_000_000_000),
        (-61, 1_000_000_000),
        (59, 2_000_000_000),
        (119, 999_999_999),
        (MAX_SECONDS, 1_999_999_999),
        (MIN_SECONDS + 59, 1_000_000_000),
    ] {
        assert_eq!(
            Timestamp::new(secs, nanos).is_some(),
            DateTime::from_timestamp(secs, nanos).is_some(),
            "{} {}",
            secs,
            nanos
        );
    }
    assert!(Timestamp::new(59, 1_000_000_000).is_some());
    assert!(Timestamp::new(58, 1_000_000_000).is_none());
    assert!(Timestamp::new(-1, 1_000_000_000).is_some());
    assert!(Timestamp::new(59, 2_000_000_000).is_none());
}

#[test]
fn timestamp_calendar_matches_chrono() {
    for secs in [
        0i64,
        -1,
        1_431_648_000,
        1_710_460_800,
        951_782_400,
        -62_135_596_800,
        MIN_SECONDS,
        MAX_SECONDS,
    ] {
        let t = Timestamp::new(secs, 0).unwrap();
        let d = DateTime::from_timestamp(secs, 0).unwrap();
        assert_eq!(t.calendar_year(), d.year());
        assert_eq!(t.calendar_month(), d.month());
    }
}

#[test]
fn timestamp_calendar_of_known_dates() {
    let t = Timestamp::new(1_431_648_000, 0).unwrap();
    assert_eq!(t.calendar_year(), 2015);
    assert_eq!(t.calendar_month(), 5);
    // 2000-02-29T00:00:00Z
    let leap_day = Timestamp::new(951_782_400, 0).unwrap();
    assert_eq!(leap_day.calendar_year(), 2000);
    assert_eq!(leap_day.calendar_month(), 2);
    assert_eq!(Timestamp::new(MIN_SECONDS, 0).unwrap().calendar_year(), -262_143);
    assert_eq!(Timestamp::new(MIN_SECONDS, 0).unwrap().calendar_month(), 1);
    assert_eq!(Timestamp::new(MAX_SECONDS, 0).unwrap().calendar_year(), 262_142);
    assert_eq!(Timestamp::new(MAX_SECONDS, 0).unwrap().calendar_month(), 12);
}

#[test]
fn timestamp_round_trips_through_chrono() {
    let d = Utc.with_ymd_and_hms(2024, 3, 15, 12, 30, 45).unwrap();
    let t = Timestamp::new(d.timestamp(), d.timestamp_subsec_nanos()).unwrap();
    assert_eq!(
        DateTime::from_timestamp(t.seconds(), t.nanoseconds()).unwrap(),
        d
    );
    assert_eq!(t.calendar_year(), 2024);
    assert_eq!(t.calendar_month(), 3);
}

#[test]
fn timestamp_now_is_representable_and_recent() {
    let t = Timestamp::now();
    assert!(Timestamp::new(t.seconds(), t.nanoseconds()).is_some());
    assert!(t.calendar_year() >= 2024);
    let again = Timestamp::now();
    assert!(t <= again);
}

#[test]
fn timestamp_order_is_seconds_then_nanoseconds() {
    let a = Timestamp::new(10, 5).unwrap();
    let b = Timestamp::new(10, 6).unwrap();
    let c = Timestamp::new(11, 0).unwrap();
    let d = Timestamp::new(-3, 999).unwrap();
    assert!(a < b);
    assert!(b < c);
    assert!(d < a);
    assert!(!(b < a));
    assert!(a <= a);
    assert_eq!(a.partial_cmp(&a), Some(std::cmp::Ordering::Equal));
    assert_eq!(c.partial_cmp(&a), Some(std::cmp::Ordering::Greater));
    assert_eq!(a.cmp(&b), std::cmp::Ordering::Less);
    assert_eq!(d.cmp(&a), std::cmp::Ordering::Less);
}
