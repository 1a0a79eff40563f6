//! Instants on the UTC time line, and what the calendar says of them.
//!
//! An instant is held as whole seconds since 1970-01-01T00:00:00Z together
//! with the nanoseconds into that second. The proleptic Gregorian calendar
//! is left to `chrono`: this module names the year and month `chrono`
//! assigns to an instant and states nothing more about them than `chrono`
//! documents.

use chrono::{DateTime, Datelike, Utc};
use std::cmp::Ordering;
use vstd::prelude::*;
use vstd::std_specs::cmp::PartialOrdSpecImpl;

verus! {

/// Seconds since the epoch of the first instant `chrono` can represent,
/// midnight on 1 January of the year -262143.
pub const MIN_SECONDS: i64 = -8_334_601_228_800;

/// Seconds since the epoch of the last second `chrono` can represent,
/// 23:59:59 on 31 December of the year 262142.
pub const MAX_SECONDS: i64 = 8_210_266_876_799;

/// Whether `chrono` has a UTC date and time for this pair of seconds and
/// nanoseconds. A nanosecond count of a billion or more stands for a leap
/// second and is only admitted in the last second of a minute.
pub open spec fn representable(secs: i64, nanos: u32) -> bool {
    &&& MIN_SECONDS <= secs <= MAX_SECONDS
    &&& nanos < 2_000_000_000
    &&& nanos >= 1_000_000_000 ==> secs as int % 60 == 59
}

/// The calendar year in which `chrono` places a representable instant.
pub uninterp spec fn civil_year(secs: i64, nanos: u32) -> i32;

/// The number of the calendar month in which `chrono` places a
/// representable instant.
pub uninterp spec fn civil_month(secs: i64, nanos: u32) -> u32;

/// Reads the system clock through `chrono::Utc::now` and hands back the
/// seconds and nanoseconds of the reading. Nothing is claimed about which
/// instant comes back, only that it is one `chrono` can represent, as every
/// `DateTime<Utc>` is. `Utc::now` does not return on a machine whose
/// clock is set before 1970 or past the last year `chrono` knows; this
/// wrapper is no better.
#[verifier::external_body]
fn clock_reading() -> (r: (i64, u32))
    ensures
        representable(r.0, r.1),
{
    let t = Utc::now();
    (t.timestamp(), t.timestamp_subsec_nanos())
}

/// `Datelike::year` of the `DateTime<Utc>` that `DateTime::from_timestamp`
/// builds. The result is only given its name.
#[verifier::external_body]
fn year_at(secs: i64, nanos: u32) -> (y: i32)
    requires
        representable(secs, nanos),
    ensures
        y == civil_year(secs, nanos),
{
    DateTime::from_timestamp(secs, nanos).unwrap().year()
}

/// `Datelike::month` of the `DateTime<Utc>` that `DateTime::from_timestamp`
/// builds. Besides naming the result, this relies on the documented range
/// of month numbers, 1 to 12.
#[verifier::external_body]
fn month_at(secs: i64, nanos: u32) -> (m: u32)
    requires
        representable(secs, nanos),
    ensures
        m == civil_month(secs, nanos),
        1 <= m <= 12,
{
    DateTime::from_timestamp(secs, nanos).unwrap().month()
}

/// An instant on the UTC time line.
#[derive(Clone, Copy, Debug, PartialEq, Eq, Structural, Ord, Hash)]
pub struct Timestamp {
    secs: i64,
    nanos: u32,
}

impl Timestamp {
    /// Whole seconds since the epoch.
    pub closed spec fn secs(self) -> i64 {
        self.secs
    }

    /// Nanoseconds into the second.
    pub closed spec fn nanos(self) -> u32 {
        self.nanos
    }

    /// Every timestamp handed out by this crate is one `chrono` can
    /// represent.
    pub open spec fn wf(self) -> bool {
        representable(self.secs(), self.nanos())
    }

    /// Whether this instant comes strictly before `other`.
    pub open spec fn precedes(self, other: Timestamp) -> bool {
        self.secs() < other.secs() || (self.secs() == other.secs() && self.nanos()
            < other.nanos())
    }

    /// Whether this instant is `other` or comes before it.
    pub open spec fn at_or_before(self, other: Timestamp) -> bool {
        !other.precedes(self)
    }

    /// The calendar year of this instant.
    pub open spec fn year(self) -> i32 {
        civil_year(self.secs(), self.nanos())
    }

    /// The number of the calendar month of this instant.
    pub open spec fn month_number(self) -> u32 {
        civil_month(self.secs(), self.nanos())
    }

    /// The timestamp for the given seconds since the epoch and nanoseconds
    /// into the second, if there is one.
    pub fn new(secs: i64, nanos: u32) -> (t: Option<Timestamp>)
        ensures
            t.is_some() == representable(secs, nanos),
            t matches Some(ts) ==> ts.secs() == secs && ts.nanos() == nanos && ts.wf(),
    {
        if secs < MIN_SECONDS || secs > MAX_SECONDS || nanos >= 2_000_000_000 {
            return None;
        }
        if nanos >= 1_000_000_000 {
            match secs.checked_rem_euclid(60) {
                Some(r) => {
                    if r != 59 {
                        return None;
                    }
                },
                None => {
                    return None;
                },
            }
        }
        Some(Timestamp { secs, nanos })
    }

    /// The present instant, as the system clock reports it.
    pub fn now() -> (t: Timestamp)
        ensures
            t.wf(),
    {
        let reading = clock_reading();
        Timestamp::at(reading.0, reading.1)
    }

    /// The timestamp for a pair that is known to be representable.
    pub fn at(secs: i64, nanos: u32) -> (t: Timestamp)
        requires
            representable(secs, nanos),
        ensures
            t.secs() == secs,
            t.nanos() == nanos,
            t.wf(),
    {
        Timestamp { secs, nanos }
    }

    pub fn seconds(&self) -> (s: i64)
        ensures
            s == self.secs(),
    {
        self.secs
    }

    pub fn nanoseconds(&self) -> (n: u32)
        ensures
            n == self.nanos(),
    {
        self.nanos
    }

    /// The calendar year of this instant.
    pub fn calendar_year(&self) -> (y: i32)
        requires
            self.wf(),
        ensures
            y == self.year(),
    {
        year_at(self.secs, self.nanos)
    }

    /// The number of the calendar month of this instant, from 1 to 12.
    pub fn calendar_month(&self) -> (m: u32)
        requires
            self.wf(),
        ensures
            m == self.month_number(),
            1 <= m <= 12,
    {
        month_at(self.secs, self.nanos)
    }
}

impl PartialOrd for Timestamp {
    fn partial_cmp(&self, other: &Timestamp) -> (r: Option<Ordering>) {
        if self.secs < other.secs {
            Some(Ordering::Less)
        } else if self.secs > other.secs {
            Some(Ordering::Greater)
        } else if self.nanos < other.nanos {
            Some(Ordering::Less)
        } else if self.nanos > other.nanos {
            Some(Ordering::Greater)
        } else {
            Some(Ordering::Equal)
        }
    }
}

impl PartialOrdSpecImpl for Timestamp {
    open spec fn obeys_partial_cmp_spec() -> bool {
        true
    }

    open spec fn partial_cmp_spec(&self, other: &Timestamp) -> Option<Ordering> {
        if self.precedes(*other) {
            Some(Ordering::Less)
        } else if other.precedes(*self) {
            Some(Ordering::Greater)
        } else {
            Some(Ordering::Equal)
        }
    }
}

} // verus!
