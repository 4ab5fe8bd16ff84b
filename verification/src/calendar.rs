//! The exact length of a duration that starts at a point of the calendar.
//!
//! A year and a month have no length of their own. Anchored to a date
//! they have one: a year counts as the calendar year of the anchor, from
//! its first of January to the next, and a month as the calendar month of
//! the anchor, from its first day to the first of the month after. Both
//! lengths are taken from `chrono`, and each is multiplied by the
//! magnitude whatever its size: two years count as twice the year of the
//! anchor, not as that year and the one after it.

use vstd::prelude::*;
use chrono::NaiveDate;
use crate::duration::{times, Duration, SECONDS_PER_DAY};
use crate::magnitude::{Span, SCALE};

verus! {

/// The first year that `chrono` has dates for.
pub const MIN_YEAR: i32 = -262_143;

/// The last year that `chrono` has dates for.
pub const MAX_YEAR: i32 = 262_142;

/// Whether a year of the proleptic Gregorian calendar has 366 days.
pub open spec fn is_leap_year(year: int) -> bool {
    year % 4 == 0 && (year % 100 != 0 || year % 400 == 0)
}

/// The days of a year.
pub open spec fn days_in_year(year: int) -> int {
    if is_leap_year(year) {
        366
    } else {
        365
    }
}

/// The days of a month.
pub open spec fn days_in_month(year: int, month: int) -> int {
    if month == 2 {
        if is_leap_year(year) {
            29
        } else {
            28
        }
    } else if month == 4 || month == 6 || month == 9 || month == 11 {
        30
    } else {
        31
    }
}

/// Whether year, month and day name a date that `chrono` has.
pub open spec fn is_date(year: int, month: int, day: int) -> bool {
    &&& MIN_YEAR <= year <= MAX_YEAR
    &&& 1 <= month <= 12
    &&& 1 <= day <= days_in_month(year, month)
}

/// The days from the first of January of year 1 to that of `year`.
pub open spec fn days_before_year(year: int) -> int {
    365 * (year - 1) + (year - 1) / 4 - (year - 1) / 100 + (year - 1) / 400
}

/// The days of a year that come before a month of it.
pub open spec fn days_before_month(year: int, month: int) -> int
    decreases month,
{
    if month <= 1 {
        0
    } else {
        days_before_month(year, month - 1) + days_in_month(year, month - 1)
    }
}

/// The number of a date, counted in days from 0001-01-01 as day 1.
pub open spec fn day_number(year: int, month: int, day: int) -> int {
    days_before_year(year) + days_before_month(year, month) + day
}

/// The seconds from the start of one date to the start of another,
/// where both are dates.
pub open spec fn seconds_from_to(
    from_year: int,
    from_month: int,
    from_day: int,
    to_year: int,
    to_month: int,
    to_day: int,
) -> Option<i64> {
    if is_date(from_year, from_month, from_day) && is_date(to_year, to_month, to_day) {
        Some(
            (SECONDS_PER_DAY * (day_number(to_year, to_month, to_day) - day_number(
                from_year,
                from_month,
                from_day,
            ))) as i64,
        )
    } else {
        None
    }
}

/// The seconds from the start of one date to the start of another, by
/// `chrono`.
///
/// Taken on trust from `chrono`, not proved: that
/// `NaiveDate::from_ymd_opt` gives a date exactly for the days of the
/// proleptic Gregorian calendar in the years `MIN_YEAR` to `MAX_YEAR`,
/// that `NaiveDate::signed_duration_since` is the difference of two
/// dates in whole days, and that `TimeDelta::num_seconds` gives the
/// seconds of that difference.
#[verifier::external_body]
fn seconds_between(
    from_year: i32,
    from_month: u32,
    from_day: u32,
    to_year: i32,
    to_month: u32,
    to_day: u32,
) -> (r: Option<i64>)
    ensures
        r == seconds_from_to(
            from_year as int,
            from_month as int,
            from_day as int,
            to_year as int,
            to_month as int,
            to_day as int,
        ),
{
    let from = NaiveDate::from_ymd_opt(from_year, from_month, from_day)?;
    let to = NaiveDate::from_ymd_opt(to_year, to_month, to_day)?;
    Some(to.signed_duration_since(from).num_seconds())
}

/// A year lasts from its first of January to the next.
pub proof fn lemma_year_length(year: int)
    ensures
        day_number(year + 1, 1, 1) - day_number(year, 1, 1) == days_in_year(year),
{
}

/// A month lasts from its first day to the first day of the month after
/// it, which for December is the January of the next year.
pub proof fn lemma_month_length(year: int, month: int)
    requires
        1 <= month <= 12,
    ensures
        month < 12 ==> day_number(year, month + 1, 1) - day_number(year, month, 1)
            == days_in_month(year, month),
        month == 12 ==> day_number(year + 1, 1, 1) - day_number(year, 12, 1) == 31,
{
    reveal_with_fuel(days_before_month, 13);
}

/// Whether the seconds of a year can be asked for: `chrono` has the
/// year and the one after it.
pub open spec fn has_year(year: int) -> bool {
    MIN_YEAR <= year < MAX_YEAR
}

/// Whether the seconds of a month can be asked for: `chrono` has the
/// month and the one after it.
pub open spec fn has_month(year: int, month: int) -> bool {
    &&& 1 <= month <= 12
    &&& MIN_YEAR <= year <= MAX_YEAR
    &&& month == 12 ==> year < MAX_YEAR
}

/// The seconds of a calendar year, where `chrono` has it and the next.
pub fn seconds_in_year(year: i32) -> (r: Option<u64>)
    ensures
        r == if has_year(year as int) {
            Some((SECONDS_PER_DAY * days_in_year(year as int)) as u64)
        } else {
            None
        },
{
    if year >= MAX_YEAR {
        return None;
    }
    proof {
        lemma_year_length(year as int);
    }
    match seconds_between(year, 1, 1, year + 1, 1, 1) {
        Some(seconds) => Some(seconds as u64),
        None => None,
    }
}

/// The seconds of a calendar month, where `chrono` has it and the next.
pub fn seconds_in_month(year: i32, month: u32) -> (r: Option<u64>)
    ensures
        r == if has_month(year as int, month as int) {
            Some((SECONDS_PER_DAY * days_in_month(year as int, month as int)) as u64)
        } else {
            None
        },
{
    if month < 1 || month > 12 || year > MAX_YEAR {
        return None;
    }
    proof {
        lemma_month_length(year as int, month as int);
    }
    let found = if month == 12 {
        seconds_between(year, month, 1, year + 1, 1, 1)
    } else {
        seconds_between(year, month, 1, year, month + 1, 1)
    };
    match found {
        Some(seconds) => Some(seconds as u64),
        None => None,
    }
}

impl Duration {
    /// Whether the calendar holds what the duration needs of it at an
    /// anchor: the year for years, the month for months.
    pub open spec fn is_anchored(self, year: int, month: int) -> bool {
        &&& self.year.billionths != 0 ==> has_year(year)
        &&& self.month.billionths != 0 ==> has_month(year, month)
    }

    /// The nanoseconds of the duration at an anchor: its years times the
    /// seconds of the year of the anchor, its months times the seconds
    /// of the month of the anchor, and the rest at its fixed length.
    pub open spec fn nanos_from(self, year: int, month: int) -> int {
        self.year.billionths * (SECONDS_PER_DAY * days_in_year(year)) + self.month.billionths * (
        SECONDS_PER_DAY * days_in_month(year, month)) + self.fixed_seconds()
    }

    /// The exact length of the duration when it starts in the given
    /// month of the given year; nothing where it has years or months
    /// and `chrono` lacks the year or month to measure them by.
    pub fn span_from(&self, year: i32, month: u32) -> (r: Option<Span>)
        ensures
            r == if self.is_anchored(year as int, month as int) {
                Some(Span::of_nanos(self.nanos_from(year as int, month as int)))
            } else {
                None
            },
            r matches Some(span) ==> span.nanos < 1_000_000_000 && span.total_nanos()
                == self.nanos_from(year as int, month as int),
    {
        let mut nanos: u128 = self.sum_fixed_seconds();
        if self.year.billionths != 0 {
            match seconds_in_year(year) {
                Some(seconds) => {
                    nanos = nanos + times(self.year, seconds);
                },
                None => {
                    return None;
                },
            }
        }
        if self.month.billionths != 0 {
            match seconds_in_month(year, month) {
                Some(seconds) => {
                    nanos = nanos + times(self.month, seconds);
                },
                None => {
                    return None;
                },
            }
        }
        assert(nanos / (SCALE as u128) <= u64::MAX) by (nonlinear_arith)
            requires
                nanos <= u64::MAX * 100_000_000,
                SCALE == 1_000_000_000,
        ;
        Some(Span::from_nanos(nanos))
    }

    /// The duration as a fixed length of time, for a signed time delta:
    /// the whole seconds of its number of seconds and the nanoseconds
    /// beyond them. Nothing where years or months are present.
    pub fn to_chrono(&self) -> (r: Option<Span>)
        ensures
            r == if self.has_calendar_part() {
                None
            } else {
                Some(Span::of_nanos(self.fixed_seconds()))
            },
            r matches Some(span) ==> span.nanos < 1_000_000_000 && span.seconds <= i64::MAX / 1000
                && span.total_nanos() == self.fixed_seconds(),
    {
        if self.year.billionths != 0 || self.month.billionths != 0 {
            None
        } else {
            let nanos = self.sum_fixed_seconds();
            assert(nanos / (SCALE as u128) <= i64::MAX / 1000) by (nonlinear_arith)
                requires
                    nanos <= u64::MAX * 90_061,
                    SCALE == 1_000_000_000,
            ;
            Some(Span::from_nanos(nanos))
        }
    }
}

} // verus!
