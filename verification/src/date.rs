//! Calendar dates as plain year/month/day values on the proleptic Gregorian
//! calendar, restricted to the year range the date library underneath the
//! GUI shell can represent.

use vstd::prelude::*;

verus! {

pub const MIN_YEAR: i32 = -262143;

pub const MAX_YEAR: i32 = 262142;

/// A calendar date.  A value is meaningful when `is_valid` holds; every
/// function of this crate that hands out a `Date` hands out a valid one.
#[derive(Debug, Clone, Copy, PartialEq, Eq, Structural)]
pub struct Date {
    pub year: i32,
    pub month: u8,
    pub day: u8,
}

/// The Gregorian leap-year rule.  The year is shifted by 400000, a multiple
/// of 400, so that the arithmetic stays on non-negative numbers; the leap
/// pattern repeats every 400 years, so the rule is unchanged.
pub open spec fn is_leap_year(y: int) -> bool {
    let z = y + 400000;
    z % 4 == 0 && (z % 100 != 0 || z % 400 == 0)
}

pub open spec fn days_in_month(y: int, m: int) -> int {
    if m == 2 {
        if is_leap_year(y) {
            29
        } else {
            28
        }
    } else if m == 4 || m == 6 || m == 9 || m == 11 {
        30
    } else {
        31
    }
}

impl Date {
    pub open spec fn is_valid(self) -> bool {
        &&& MIN_YEAR <= self.year <= MAX_YEAR
        &&& 1 <= self.month <= 12
        &&& 1 <= self.day <= days_in_month(self.year as int, self.month as int)
    }

    /// The date one day later, or `None` past the last representable date.
    pub open spec fn succ_spec(self) -> Option<Date> {
        if self.day < days_in_month(self.year as int, self.month as int) {
            Some(Date { day: (self.day + 1) as u8, ..self })
        } else if self.month < 12 {
            Some(Date { month: (self.month + 1) as u8, day: 1, ..self })
        } else if self.year < MAX_YEAR {
            Some(Date { year: (self.year + 1) as i32, month: 1, day: 1 })
        } else {
            None
        }
    }

    /// The date one day earlier, or `None` before the first representable date.
    pub open spec fn pred_spec(self) -> Option<Date> {
        if self.day > 1 {
            Some(Date { day: (self.day - 1) as u8, ..self })
        } else if self.month > 1 {
            Some(
                Date {
                    month: (self.month - 1) as u8,
                    day: days_in_month(self.year as int, self.month - 1) as u8,
                    ..self
                },
            )
        } else if self.year > MIN_YEAR {
            Some(Date { year: (self.year - 1) as i32, month: 12, day: 31 })
        } else {
            None
        }
    }
}

pub fn leap_year(y: i32) -> (r: bool)
    requires
        MIN_YEAR <= y <= MAX_YEAR,
    ensures
        r == is_leap_year(y as int),
{
    let z = y + 400000;
    z % 4 == 0 && (z % 100 != 0 || z % 400 == 0)
}

pub fn month_length(y: i32, m: u8) -> (r: u8)
    requires
        MIN_YEAR <= y <= MAX_YEAR,
        1 <= m <= 12,
    ensures
        r == days_in_month(y as int, m as int),
{
    if m == 2 {
        if leap_year(y) {
            29
        } else {
            28
        }
    } else if m == 4 || m == 6 || m == 9 || m == 11 {
        30
    } else {
        31
    }
}

impl Date {
    /// Builds a date from its parts; `None` when they name no calendar day.
    pub fn new(year: i32, month: u8, day: u8) -> (r: Option<Date>)
        ensures
            r is Some <==> (Date { year, month, day }).is_valid(),
            r is Some ==> r->0 == (Date { year, month, day }),
    {
        if year < MIN_YEAR || year > MAX_YEAR || month < 1 || month > 12 {
            return None;
        }
        if day < 1 || day > month_length(year, month) {
            return None;
        }
        Some(Date { year, month, day })
    }

    /// The next calendar day.
    pub fn succ(&self) -> (r: Option<Date>)
        requires
            self.is_valid(),
        ensures
            r == self.succ_spec(),
            r is Some ==> r->0.is_valid(),
    {
        if self.day < month_length(self.year, self.month) {
            Some(Date { year: self.year, month: self.month, day: self.day + 1 })
        } else if self.month < 12 {
            Some(Date { year: self.year, month: self.month + 1, day: 1 })
        } else if self.year < MAX_YEAR {
            Some(Date { year: self.year + 1, month: 1, day: 1 })
        } else {
            None
        }
    }

    /// The previous calendar day.
    pub fn pred(&self) -> (r: Option<Date>)
        requires
            self.is_valid(),
        ensures
            r == self.pred_spec(),
            r is Some ==> r->0.is_valid(),
    {
        if self.day > 1 {
            Some(Date { year: self.year, month: self.month, day: self.day - 1 })
        } else if self.month > 1 {
            Some(
                Date {
                    year: self.year,
                    month: self.month - 1,
                    day: month_length(self.year, self.month - 1),
                },
            )
        } else if self.year > MIN_YEAR {
            Some(Date { year: self.year - 1, month: 12, day: 31 })
        } else {
            None
        }
    }
}

/// Chronological order on dates: year, then month, then day.
pub open spec fn date_le(a: Date, b: Date) -> bool {
    if a.year != b.year {
        a.year < b.year
    } else if a.month != b.month {
        a.month < b.month
    } else {
        a.day <= b.day
    }
}

pub fn date_le_exec(a: &Date, b: &Date) -> (r: bool)
    ensures
        r == date_le(*a, *b),
{
    if a.year != b.year {
        a.year < b.year
    } else if a.month != b.month {
        a.month < b.month
    } else {
        a.day <= b.day
    }
}

/// Relies on chrono's `Local::now().date_naive()` and its `Datelike`
/// accessors: the current local date is a valid Gregorian calendar date
/// (month 1-12, day within the month's length) and chrono keeps the year
/// inside `MIN_YEAR..=MAX_YEAR`.
#[verifier::external_body]
pub(crate) fn today() -> (d: Date)
    ensures
        d.is_valid(),
{
    let now = chrono::Local::now().date_naive();
    Date {
        year: chrono::Datelike::year(&now),
        month: chrono::Datelike::month(&now) as u8,
        day: chrono::Datelike::day(&now) as u8,
    }
}

} // verus!
