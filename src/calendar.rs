use chrono::{Datelike, NaiveDate};
use vstd::prelude::*;

verus! {

/// Earliest year that a calendar date can carry.
pub const MIN_YEAR: i32 = -262143;

/// Latest year that a calendar date can carry.
pub const MAX_YEAR: i32 = 262142;

/// Day number of January 1 of `MIN_YEAR`.
pub const MIN_DAY: i32 = -95746129;

/// Day number of December 31 of `MAX_YEAR`.
pub const MAX_DAY: i32 = 95745399;

/// Proleptic Gregorian leap-year rule.
pub open spec fn is_leap_year(y: int) -> bool {
    y % 4 == 0 && (y % 100 != 0 || y % 400 == 0)
}

pub open spec fn days_in_month(y: int, m: int) -> int {
    if m == 2 {
        if is_leap_year(y) { 29 } else { 28 }
    } else if m == 4 || m == 6 || m == 9 || m == 11 {
        30
    } else {
        31
    }
}

/// A (year, month, day) triple that names an existing, representable date.
pub open spec fn is_valid_ymd(y: int, m: int, d: int) -> bool {
    &&& MIN_YEAR <= y <= MAX_YEAR
    &&& 1 <= m <= 12
    &&& 1 <= d <= days_in_month(y, m)
}

/// Days of all years before year `y`, counted from the start of year 1.
pub open spec fn days_before_year(y: int) -> int {
    let p = y - 1;
    365 * p + p / 4 - p / 100 + p / 400
}

/// Days of the months of year `y` before month `m`.
pub open spec fn days_before_month(y: int, m: int) -> int {
    let common: int = if m <= 1 {
        0
    } else if m == 2 {
        31
    } else if m == 3 {
        59
    } else if m == 4 {
        90
    } else if m == 5 {
        120
    } else if m == 6 {
        151
    } else if m == 7 {
        181
    } else if m == 8 {
        212
    } else if m == 9 {
        243
    } else if m == 10 {
        273
    } else if m == 11 {
        304
    } else {
        334
    };
    if m > 2 && is_leap_year(y) {
        common + 1
    } else {
        common
    }
}

/// Day number of a date: January 1 of year 1 is day 1, the day before it day 0.
pub open spec fn day_number(y: int, m: int, d: int) -> int {
    days_before_year(y) + days_before_month(y, m) + d
}

/// The year in which day `n` falls.
pub open spec fn year_of_day(n: int) -> int {
    choose|y: int| #[trigger] days_before_year(y) < n <= days_before_year(y + 1)
}

/// Relies on chrono's `NaiveDate::from_ymd_opt`, which accepts exactly the
/// existing dates of years `MIN_YEAR..=MAX_YEAR`, and on
/// `Datelike::num_days_from_ce`, which counts days with January 1 of year 1
/// as day 1.
#[verifier::external_body]
fn chrono_day_number(y: i32, m: u32, d: u32) -> (r: Option<i32>)
    ensures
        r is Some <==> is_valid_ymd(y as int, m as int, d as int),
        r matches Some(n) ==> n == day_number(y as int, m as int, d as int),
        r matches Some(n) ==> MIN_DAY <= n <= MAX_DAY,
{
    NaiveDate::from_ymd_opt(y, m, d).as_ref().map(Datelike::num_days_from_ce)
}

/// Relies on chrono's `NaiveDate::from_num_days_from_ce_opt`, which accepts
/// exactly the day numbers `MIN_DAY..=MAX_DAY`, and on `Datelike::year`, the
/// year whose days include that day.
#[verifier::external_body]
pub(crate) fn chrono_year_of_day(n: i32) -> (r: Option<i32>)
    ensures
        r is Some <==> MIN_DAY <= n <= MAX_DAY,
        r matches Some(y) ==> y == year_of_day(n as int),
        r matches Some(y) ==> days_before_year(y as int) < n <= days_before_year(y + 1),
{
    NaiveDate::from_num_days_from_ce_opt(n).as_ref().map(Datelike::year)
}

/// A year has 365 days, or 366 in a leap year.
pub proof fn lemma_year_length(y: int)
    ensures
        days_before_year(y + 1) - days_before_year(y) == if is_leap_year(y) {
            366int
        } else {
            365int
        },
{
}

/// The representable day numbers are those of the valid dates.
pub proof fn lemma_day_range()
    ensures
        MIN_DAY == day_number(MIN_YEAR as int, 1, 1),
        MAX_DAY == day_number(MAX_YEAR as int, 12, 31),
{
}

/// A calendar date, held as its day number.
#[derive(Clone, Copy, Debug, PartialEq, Eq, Structural, Ord)]
pub struct Date {
    days: i32,
}

impl View for Date {
    type V = int;

    closed spec fn view(&self) -> int {
        self.days as int
    }
}

/// Dates are ordered as their day numbers.
pub open spec fn day_order(a: int, b: int) -> Option<core::cmp::Ordering> {
    if a < b {
        Some(core::cmp::Ordering::Less)
    } else if a == b {
        Some(core::cmp::Ordering::Equal)
    } else {
        Some(core::cmp::Ordering::Greater)
    }
}

impl PartialOrd for Date {
    fn partial_cmp(&self, other: &Date) -> (r: Option<core::cmp::Ordering>) {
        if self.days < other.days {
            Some(core::cmp::Ordering::Less)
        } else if self.days == other.days {
            Some(core::cmp::Ordering::Equal)
        } else {
            Some(core::cmp::Ordering::Greater)
        }
    }
}

impl vstd::std_specs::cmp::PartialOrdSpecImpl for Date {
    open spec fn obeys_partial_cmp_spec() -> bool {
        true
    }

    open spec fn partial_cmp_spec(&self, other: &Date) -> Option<core::cmp::Ordering> {
        day_order(self@, other@)
    }
}

impl Date {
    /// The date with the given year, month and day.
    pub fn from_ymd(y: i32, m: u32, d: u32) -> (r: Date)
        requires
            is_valid_ymd(y as int, m as int, d as int),
        ensures
            r@ == day_number(y as int, m as int, d as int),
            MIN_DAY <= r@ <= MAX_DAY,
    {
        let n = chrono_day_number(y, m, d);
        match n {
            Some(days) => Date { days },
            None => Date { days: 0 },
        }
    }

    /// The date with the given day number.
    pub fn from_num_days_from_ce(days: i32) -> (r: Date)
        ensures
            r@ == days,
    {
        Date { days }
    }

    /// The day number of this date.
    pub fn num_days_from_ce(&self) -> (r: i32)
        ensures
            r == self@,
    {
        self.days
    }
}

} // verus!
