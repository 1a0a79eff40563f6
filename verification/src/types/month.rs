//! Calendar months: the only granularity at which money is bucketed.

use std::cmp::Ordering;
use vstd::prelude::*;
use vstd::std_specs::cmp::PartialOrdSpecImpl;

use crate::types::timestamp::Timestamp;

verus! {

/// A month of the year. January is month 1, December is month 12.
#[derive(Clone, Copy, Debug, PartialEq, Eq, Structural, PartialOrd, Ord, Hash)]
pub enum Month {
    Jan,
    Feb,
    Mar,
    Apr,
    May,
    Jun,
    Jul,
    Aug,
    Sep,
    Oct,
    Nov,
    Dec,
}

impl Month {
    /// The number of the month within its year, from 1 to 12.
    pub open spec fn ordinal(self) -> int {
        match self {
            Month::Jan => 1,
            Month::Feb => 2,
            Month::Mar => 3,
            Month::Apr => 4,
            Month::May => 5,
            Month::Jun => 6,
            Month::Jul => 7,
            Month::Aug => 8,
            Month::Sep => 9,
            Month::Oct => 10,
            Month::Nov => 11,
            Month::Dec => 12,
        }
    }

    /// The month that carries a given number; numbers outside 1 to 12 are
    /// never asked for.
    pub open spec fn with_ordinal(n: int) -> Month {
        if n == 1 {
            Month::Jan
        } else if n == 2 {
            Month::Feb
        } else if n == 3 {
            Month::Mar
        } else if n == 4 {
            Month::Apr
        } else if n == 5 {
            Month::May
        } else if n == 6 {
            Month::Jun
        } else if n == 7 {
            Month::Jul
        } else if n == 8 {
            Month::Aug
        } else if n == 9 {
            Month::Sep
        } else if n == 10 {
            Month::Oct
        } else if n == 11 {
            Month::Nov
        } else {
            Month::Dec
        }
    }

    /// The month after this one; January follows December.
    pub open spec fn successor(self) -> Month {
        Month::with_ordinal(self.ordinal() % 12 + 1)
    }

    /// The month numbered `m`.
    pub fn from(m: u32) -> (month: Month)
        requires
            1 <= m <= 12,
        ensures
            month == Month::with_ordinal(m as int),
            month.ordinal() == m,
    {
        match m {
            1 => Month::Jan,
            2 => Month::Feb,
            3 => Month::Mar,
            4 => Month::Apr,
            5 => Month::May,
            6 => Month::Jun,
            7 => Month::Jul,
            8 => Month::Aug,
            9 => Month::Sep,
            10 => Month::Oct,
            11 => Month::Nov,
            _ => Month::Dec,
        }
    }

    /// The number of the month, from 1 to 12.
    pub fn number(&self) -> (n: u8)
        ensures
            n == self.ordinal(),
            1 <= n <= 12,
    {
        match self {
            Month::Jan => 1,
            Month::Feb => 2,
            Month::Mar => 3,
            Month::Apr => 4,
            Month::May => 5,
            Month::Jun => 6,
            Month::Jul => 7,
            Month::Aug => 8,
            Month::Sep => 9,
            Month::Oct => 10,
            Month::Nov => 11,
            Month::Dec => 12,
        }
    }

    /// Moves on to the next month, wrapping from December to January.
    pub fn increment(&mut self)
        ensures
            *final(self) == old(self).successor(),
    {
        let n: u8 = self.number();
        let next: u32 = if n == 12 {
            1
        } else {
            n as u32 + 1
        };
        *self = Month::from(next);
    }
}

/// A month of a particular year.
///
/// Calendar months are ordered by year first and by month of the year
/// second.
#[derive(Clone, Copy, Debug, PartialEq, Eq, Structural, Ord, Hash)]
pub struct CalendarMonth {
    pub year: i32,
    pub month: Month,
}

impl CalendarMonth {
    /// Whether this month comes strictly before `other`.
    pub open spec fn precedes(self, other: CalendarMonth) -> bool {
        self.year < other.year || (self.year == other.year && self.month.ordinal()
            < other.month.ordinal())
    }

    /// The calendar month that follows this one, as long as the year still
    /// fits.
    pub open spec fn successor(self) -> CalendarMonth {
        CalendarMonth {
            year: if self.month == Month::Dec {
                (self.year + 1) as i32
            } else {
                self.year
            },
            month: self.month.successor(),
        }
    }

    /// The calendar month in which an instant falls.
    pub open spec fn containing(date: Timestamp) -> CalendarMonth {
        CalendarMonth { year: date.year(), month: Month::with_ordinal(date.month_number() as int) }
    }

    pub fn new(year: i32, month: Month) -> (cm: CalendarMonth)
        ensures
            cm == (CalendarMonth { year, month }),
    {
        CalendarMonth { year, month }
    }

    /// The calendar month in which an instant falls.
    pub fn from(date: Timestamp) -> (cm: CalendarMonth)
        requires
            date.wf(),
        ensures
            cm == CalendarMonth::containing(date),
    {
        CalendarMonth { year: date.calendar_year(), month: Month::from(date.calendar_month()) }
    }

    /// Moves on to the next calendar month; after December comes January
    /// of the following year.
    pub fn increment(&mut self)
        requires
            old(self).month == Month::Dec ==> old(self).year < i32::MAX,
        ensures
            *final(self) == old(self).successor(),
    {
        match self.month {
            Month::Dec => {
                self.year += 1;
                self.month.increment();
            },
            _ => self.month.increment(),
        }
    }
}

impl PartialOrd for CalendarMonth {
    fn partial_cmp(&self, other: &CalendarMonth) -> (r: Option<Ordering>) {
        if self.year < other.year {
            Some(Ordering::Less)
        } else if self.year > other.year {
            Some(Ordering::Greater)
        } else {
            let a: u8 = self.month.number();
            let b: u8 = other.month.number();
            if a < b {
                Some(Ordering::Less)
            } else if a > b {
                Some(Ordering::Greater)
            } else {
                Some(Ordering::Equal)
            }
        }
    }
}

impl PartialOrdSpecImpl for CalendarMonth {
    open spec fn obeys_partial_cmp_spec() -> bool {
        true
    }

    open spec fn partial_cmp_spec(&self, other: &CalendarMonth) -> Option<Ordering> {
        if self.precedes(*other) {
            Some(Ordering::Less)
        } else if other.precedes(*self) {
            Some(Ordering::Greater)
        } else {
            Some(Ordering::Equal)
        }
    }
}

} // verus!
