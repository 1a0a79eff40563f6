use envelope_budget::{CalendarMonth, Month, Timestamp};

#[test]
fn less_than() {
    assert!(
        CalendarMonth {
            year: 2018,
            month: Month::Jan
        } < CalendarMonth {
            year: 2018,
            month: Month::Feb
        }
    );
    assert!(
        CalendarMonth {
            year: 2018,
            month: Month::Jan
        } < CalendarMonth {
            year: 2019,
            month: Month::Jan
        }
    );
}

#[test]
fn increment_month() {
    let mut m = Month::Jan;
    m.increment();
    assert_eq!(m, Month::Feb);
    m = Month::Dec;
    m.increment();
    assert_eq!(m, Month::Jan);
}

#[test]
fn increment_month_walks_the_whole_year() {
    let expected = [
        Month::Feb,
        Month::Mar,
        Month::Apr,
        Month::May,
        Month::Jun,
        Month::Jul,
        Month::Aug,
        Month::Sep,
        Month::Oct,
        Month::Nov,
        Month::Dec,
        Month::Jan,
    ];
    let mut m = Month::Jan;
    for next in expected {
        m.increment();
        assert_eq!(m, next);
    }
}

#[test]
fn month_from_number_and_back() {
    let all = [
        Month::Jan,
        Month::Feb,
        Month::Mar,
        Month::Apr,
        Month::May,
        Month::Jun,
        Month::Jul,
        Month::Aug,
        Month::Sep,
        Month::Oct,
        Month::Nov,
        Month::Dec,
    ];
    for (i, month) in all.iter().enumerate() {
        let n = i as u32 + 1;
        assert_eq!(Month::from(n), *month);
        assert_eq!(month.number() as u32, n);
    }
}

#[test]
fn calendar_month_increment_wraps_into_next_year() {
    let mut cm = CalendarMonth::new(2018, Month::Dec);
    cm.increment();
    assert_eq!(cm, CalendarMonth::new(2019, Month::Jan));
}

#[test]
fn calendar_month_increment_within_year() {
    let mut cm = CalendarMonth::new(2018, Month::Nov);
    cm.increment();
    assert_eq!(cm, CalendarMonth::new(2018, Month::Dec));
    let mut cm = CalendarMonth::new(-1, Month::Jan);
    cm.increment();
    assert_eq!(cm, CalendarMonth::new(-1, Month::Feb));
}

#[test]
fn calendar_month_order_is_year_then_month() {
    let a = CalendarMonth::new(2018, Month::Dec);
    let b = CalendarMonth::new(2019, Month::Jan);
    assert!(a < b);
    assert!(!(b < a));
    assert!(a <= a);
    assert!(b > a);
    assert_eq!(a.partial_cmp(&b), Some(std::cmp::Ordering::Less));
    assert_eq!(a.cmp(&b), std::cmp::Ordering::Less);
    assert_eq!(
        CalendarMonth::new(2018, Month::Feb).cmp(&CalendarMonth::new(2018, Month::Oct)),
        std::cmp::Ordering::Less
    );
}

#[test]
fn calendar_month_from_timestamp() {
    // 2024-03-15T00:00:00Z
    let t = Timestamp::new(1_710_460_800, 0).unwrap();
    assert_eq!(CalendarMonth::from(t), CalendarMonth::new(2024, Month::Mar));
    // 1970-01-01T00:00:00Z
    let epoch = Timestamp::new(0, 0).unwrap();
    assert_eq!(CalendarMonth::from(epoch), CalendarMonth::new(1970, Month::Jan));
    // One second before the epoch.
    let before = Timestamp::new(-1, 999_999_999).unwrap();
    assert_eq!(CalendarMonth::from(before), CalendarMonth::new(1969, Month::Dec));
}
