//! Calendar dates as read on a Stockholm wall clock, and the rule that gives a
//! year to a "day month" heading.

use vstd::prelude::*;

verus! {

/// The earliest year that `chrono::NaiveDate` represents.
pub const MIN_YEAR: i32 = -262143;

/// The latest year that `chrono::NaiveDate` represents.
pub const MAX_YEAR: i32 = 262142;

pub open spec fn is_leap_year(y: int) -> bool {
    y % 4 == 0 && (y % 100 != 0 || y % 400 == 0)
}

pub open spec fn days_in_month(y: int, m: int) -> int {
    if m == 2 {
        if is_leap_year(y) { 29 } else { 28 }
    } else if m == 4 || m == 6 || m == 9 || m == 11 {
        30
    } else {
        31
    }
}

/// A day that exists in the proleptic Gregorian calendar, within chrono's range.
pub open spec fn is_valid_ymd(y: int, m: int, d: int) -> bool {
    MIN_YEAR <= y <= MAX_YEAR && 1 <= m <= 12 && 1 <= d <= days_in_month(y, m)
}

/// Relies on chrono::NaiveDate::from_ymd_opt, which gives `None` exactly for a
/// day that does not exist, an invalid month or day, or a year out of its range.
#[verifier::external_body]
fn date_exists(year: i32, month: u32, day: u32) -> (r: bool)
    ensures
        r == is_valid_ymd(year as int, month as int, day as int),
{
    chrono::NaiveDate::from_ymd_opt(year, month, day).is_some()
}

/// A calendar day in Stockholm.
#[derive(Clone, Copy, Debug, PartialEq, Eq, Structural)]
pub struct CalendarDate {
    pub year: i32,
    pub month: u32,
    pub day: u32,
}

impl CalendarDate {
    pub open spec fn wf(self) -> bool {
        is_valid_ymd(self.year as int, self.month as int, self.day as int)
    }

    /// Strictly earlier in the calendar.
    pub open spec fn precedes(self, other: CalendarDate) -> bool {
        self.year < other.year || (self.year == other.year && (self.month < other.month || (
        self.month == other.month && self.day < other.day)))
    }

    /// The day `year-month-day`, or `None` where no such day exists.
    pub fn new(year: i32, month: u32, day: u32) -> (r: Option<CalendarDate>)
        ensures
            r is Some <==> is_valid_ymd(year as int, month as int, day as int),
            r is Some ==> r->0 == (CalendarDate { year, month, day }),
    {
        if date_exists(year, month, day) {
            Some(CalendarDate { year, month, day })
        } else {
            None
        }
    }

    pub fn is_before(&self, other: &CalendarDate) -> (r: bool)
        ensures
            r == self.precedes(*other),
    {
        self.year < other.year || (self.year == other.year && (self.month < other.month || (
        self.month == other.month && self.day < other.day)))
    }
}

/// A moment read on a Stockholm wall clock: the day, and the time elapsed since
/// that day's midnight.
#[derive(Clone, Copy, Debug, PartialEq, Eq, Structural)]
pub struct Moment {
    pub date: CalendarDate,
    pub second: u32,
    pub nanosecond: u32,
}

impl Moment {
    pub open spec fn at_midnight(self) -> bool {
        self.second == 0 && self.nanosecond == 0
    }
}

/// Midnight at the start of `d` lies strictly before `now`.
pub open spec fn midnight_before(d: CalendarDate, now: Moment) -> bool {
    d.precedes(now.date) || (d == now.date && !now.at_midnight())
}

pub fn starts_before(d: &CalendarDate, now: &Moment) -> (r: bool)
    ensures
        r == midnight_before(*d, *now),
{
    d.is_before(&now.date) || (*d == now.date && !(now.second == 0 && now.nanosecond == 0))
}

/// The date that a heading giving `day` and `month` means at `now`: that day in
/// the current year, or in the next one where its midnight has already passed.
pub open spec fn resolve_spec(day: u32, month: u32, now: Moment) -> Option<CalendarDate> {
    let y = now.date.year as int;
    if !is_valid_ymd(y, month as int, day as int) {
        None
    } else if !midnight_before(CalendarDate { year: now.date.year, month, day }, now) {
        Some(CalendarDate { year: now.date.year, month, day })
    } else if is_valid_ymd(y + 1, month as int, day as int) {
        Some(CalendarDate { year: (y + 1) as i32, month, day })
    } else {
        None
    }
}

/// Gives a year to a day and month, as `resolve_spec` states.
pub fn resolve(day: u32, month: u32, now: &Moment) -> (r: Option<CalendarDate>)
    ensures
        r == resolve_spec(day, month, *now),
{
    let candidate = CalendarDate::new(now.date.year, month, day);
    match candidate {
        None => None,
        Some(c) => {
            if !starts_before(&c, now) {
                Some(c)
            } else {
                match now.date.year.checked_add(1) {
                    None => None,
                    Some(next) => CalendarDate::new(next, month, day),
                }
            }
        },
    }
}

/// A resolved date keeps the day and the month that it was given.
pub proof fn lemma_resolve_keeps_day_month(day: u32, month: u32, now: Moment)
    requires
        resolve_spec(day, month, now) is Some,
    ensures
        resolve_spec(day, month, now)->0.day == day,
        resolve_spec(day, month, now)->0.month == month,
        resolve_spec(day, month, now)->0.wf(),
{
}

/// Of a day that exists in the current year: where its midnight lies before
/// `now`, the date falls in the next year (no date where that year lacks the
/// day); otherwise it falls in the current year.
pub proof fn lemma_year_rollover(day: u32, month: u32, now: Moment)
    requires
        is_valid_ymd(now.date.year as int, month as int, day as int),
    ensures
        midnight_before(CalendarDate { year: now.date.year, month, day }, now) ==> {
            &&& resolve_spec(day, month, now) is Some <==> is_valid_ymd(
                now.date.year + 1,
                month as int,
                day as int,
            )
            &&& resolve_spec(day, month, now) is Some ==> resolve_spec(day, month, now)->0.year
                == now.date.year + 1
        },
        !midnight_before(CalendarDate { year: now.date.year, month, day }, now) ==> resolve_spec(
            day,
            month,
            now,
        ) == Some(CalendarDate { year: now.date.year, month, day }),
{
}

} // verus!
