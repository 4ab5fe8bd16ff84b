//! The duration value and its conversions to single units.

use vstd::prelude::*;
use vstd::string::StringSliceAdditionalSpecFns;
use crate::grammar::{duration_of, parse_bytes, ErrorKind, Failure};
use crate::magnitude::{Magnitude, Quantity, Span, SCALE};

verus! {

/// Months in a year.
pub const MONTHS_PER_YEAR: u64 = 12;

/// Seconds in a minute.
pub const SECONDS_PER_MINUTE: u64 = 60;

/// Seconds in an hour.
pub const SECONDS_PER_HOUR: u64 = 3_600;

/// Seconds in a day.
pub const SECONDS_PER_DAY: u64 = 86_400;

/// Seconds in a week.
pub const SECONDS_PER_WEEK: u64 = 604_800;

/// A duration as six independent magnitudes. It is not normalised: one
/// year and twelve months are different values, since neither a year nor
/// a month has a fixed length.
#[derive(Debug, Clone, Copy, PartialEq, Eq, Structural)]
pub struct Duration {
    pub year: Magnitude,
    pub month: Magnitude,
    pub day: Magnitude,
    pub hour: Magnitude,
    pub minute: Magnitude,
    pub second: Magnitude,
}

/// A text that is not a duration: the text, the offset of the first
/// byte of it that was not used, and the reason.
#[derive(Debug, PartialEq, Eq)]
pub struct ParseDurationError {
    pub input: String,
    pub position: usize,
    pub kind: ErrorKind,
}

impl ParseDurationError {
    /// Where and why reading failed.
    pub open spec fn failure(self) -> Failure {
        Failure { position: self.position, kind: self.kind }
    }
}

/// A magnitude taken a number of times, in billionths.
pub(crate) fn times(m: Magnitude, factor: u64) -> (r: u128)
    requires
        factor <= 100_000_000,
    ensures
        r == m.billionths * factor,
        r <= u64::MAX * factor,
{
    assert(m.billionths * factor <= u64::MAX * factor <= u64::MAX * 100_000_000)
        by (nonlinear_arith)
        requires
            m.billionths <= u64::MAX,
            factor <= 100_000_000,
    ;
    (m.billionths as u128) * (factor as u128)
}

impl core::str::FromStr for Duration {
    type Err = ParseDurationError;

    /// Reads a text as a duration, as `Duration::parse` does.
    fn from_str(s: &str) -> (r: Result<Duration, ParseDurationError>)
        ensures
            match r {
                Ok(d) => duration_of(s.spec_bytes()) == Ok::<Duration, Failure>(d),
                Err(e) => duration_of(s.spec_bytes()) == Err::<Duration, Failure>(e.failure())
                    && e.input@ == s@,
            },
    {
        Duration::parse(s)
    }
}

impl Duration {
    /// Reads a text as a duration: the duration that the grammar gives
    /// to its bytes, or the text with the offset and the reason for
    /// which the grammar gives it none.
    pub fn parse(input: &str) -> (r: Result<Duration, ParseDurationError>)
        ensures
            match r {
                Ok(d) => duration_of(input.spec_bytes()) == Ok::<Duration, Failure>(d),
                Err(e) => duration_of(input.spec_bytes()) == Err::<Duration, Failure>(e.failure())
                    && e.input@ == input@,
            },
    {
        match parse_bytes(input.as_bytes()) {
            Ok(d) => Ok(d),
            Err(failure) => Err(
                ParseDurationError {
                    input: input.to_owned(),
                    position: failure.position,
                    kind: failure.kind,
                },
            ),
        }
    }

    /// Whether every component is zero.
    pub open spec fn is_zero(self) -> bool {
        &&& self.year.billionths == 0
        &&& self.month.billionths == 0
        &&& self.day.billionths == 0
        &&& self.hour.billionths == 0
        &&& self.minute.billionths == 0
        &&& self.second.billionths == 0
    }

    /// Whether hours, minutes or seconds are present. Years and months
    /// are no measure of a duration that has them.
    pub open spec fn has_clock_part(self) -> bool {
        self.hour.billionths != 0 || self.minute.billionths != 0 || self.second.billionths != 0
    }

    /// Whether years or months are present. Their length depends on the
    /// calendar, so no fixed unit measures a duration that has them.
    pub open spec fn has_calendar_part(self) -> bool {
        self.year.billionths != 0 || self.month.billionths != 0
    }

    /// Years and months together, in billionths of a month.
    pub open spec fn months(self) -> int {
        self.year.billionths * MONTHS_PER_YEAR + self.month.billionths
    }

    /// Days, hours, minutes and seconds together, in billionths of a
    /// second.
    pub open spec fn fixed_seconds(self) -> int {
        self.second.billionths + self.minute.billionths * SECONDS_PER_MINUTE + self.hour.billionths
            * SECONDS_PER_HOUR + self.day.billionths * SECONDS_PER_DAY
    }

    /// The fixed part measured in a unit of `unit` seconds, rounded down
    /// to a billionth; nothing where years or months are present.
    pub open spec fn measured_in(self, unit: int) -> Option<Quantity> {
        if self.has_calendar_part() {
            None
        } else {
            Some(Quantity { billionths: (self.fixed_seconds() / unit) as u128 })
        }
    }

    /// Days, hours, minutes and seconds together, in billionths of a
    /// second.
    pub(crate) fn sum_fixed_seconds(&self) -> (r: u128)
        ensures
            r == self.fixed_seconds(),
            r <= u64::MAX * 90_061,
    {
        self.second.billionths as u128 + times(self.minute, SECONDS_PER_MINUTE) + times(
            self.hour,
            SECONDS_PER_HOUR,
        ) + times(self.day, SECONDS_PER_DAY)
    }

    /// The fixed part in a unit of `unit` seconds.
    fn measure(&self, unit: u64) -> (r: Option<Quantity>)
        requires
            unit > 0,
        ensures
            r == self.measured_in(unit as int),
    {
        if self.year.billionths != 0 || self.month.billionths != 0 {
            None
        } else {
            Some(Quantity { billionths: self.sum_fixed_seconds() / (unit as u128) })
        }
    }

    /// The number of years: years and a twelfth of the months, rounded
    /// down to a billionth. Days are left out. Nothing where hours,
    /// minutes or seconds are present.
    pub fn num_years(&self) -> (r: Option<Quantity>)
        ensures
            r == if self.has_clock_part() {
                None
            } else {
                Some(
                    Quantity {
                        billionths: (self.year.billionths + self.month.billionths
                            / MONTHS_PER_YEAR) as u128,
                    },
                )
            },
    {
        if self.second.billionths != 0 || self.minute.billionths != 0 || self.hour.billionths != 0 {
            return None;
        }
        Some(
            Quantity {
                billionths: (self.year.billionths as u128) + (self.month.billionths
                    / MONTHS_PER_YEAR) as u128,
            },
        )
    }

    /// The number of months: twelve for each year, and the months. Days
    /// are left out. Nothing where hours, minutes or seconds are
    /// present.
    pub fn num_months(&self) -> (r: Option<Quantity>)
        ensures
            r == if self.has_clock_part() {
                None
            } else {
                Some(Quantity { billionths: self.months() as u128 })
            },
    {
        if self.second.billionths != 0 || self.minute.billionths != 0 || self.hour.billionths != 0 {
            return None;
        }
        Some(
            Quantity {
                billionths: times(self.year, MONTHS_PER_YEAR) + self.month.billionths as u128,
            },
        )
    }

    /// The number of weeks in days, hours, minutes and seconds, rounded
    /// down to a billionth; nothing where years or months are present.
    pub fn num_weeks(&self) -> (r: Option<Quantity>)
        ensures
            r == self.measured_in(SECONDS_PER_WEEK as int),
    {
        self.measure(SECONDS_PER_WEEK)
    }

    /// The number of days in days, hours, minutes and seconds, rounded
    /// down to a billionth; nothing where years or months are present.
    pub fn num_days(&self) -> (r: Option<Quantity>)
        ensures
            r == self.measured_in(SECONDS_PER_DAY as int),
    {
        self.measure(SECONDS_PER_DAY)
    }

    /// The number of hours in days, hours, minutes and seconds, rounded
    /// down to a billionth; nothing where years or months are present.
    pub fn num_hours(&self) -> (r: Option<Quantity>)
        ensures
            r == self.measured_in(SECONDS_PER_HOUR as int),
    {
        self.measure(SECONDS_PER_HOUR)
    }

    /// The number of minutes in days, hours, minutes and seconds,
    /// rounded down to a billionth; nothing where years or months are
    /// present.
    pub fn num_minutes(&self) -> (r: Option<Quantity>)
        ensures
            r == self.measured_in(SECONDS_PER_MINUTE as int),
    {
        self.measure(SECONDS_PER_MINUTE)
    }

    /// The number of seconds in days, hours, minutes and seconds;
    /// nothing where years or months are present.
    pub fn num_seconds(&self) -> (r: Option<Quantity>)
        ensures
            r == self.measured_in(1),
    {
        self.measure(1)
    }

    /// The duration as a fixed length of time: the whole seconds of its
    /// number of seconds and the nanoseconds beyond them. Nothing where
    /// years or months are present.
    pub fn to_std(&self) -> (r: Option<Span>)
        ensures
            r == if self.has_calendar_part() {
                None
            } else {
                Some(Span::of_nanos(self.fixed_seconds()))
            },
            r matches Some(span) ==> span.nanos < 1_000_000_000 && span.total_nanos()
                == self.fixed_seconds(),
    {
        if self.year.billionths != 0 || self.month.billionths != 0 {
            None
        } else {
            let nanos = self.sum_fixed_seconds();
            assert(nanos / (SCALE as u128) <= u64::MAX) by (nonlinear_arith)
                requires
                    nanos <= u64::MAX * 90_061,
                    SCALE == 1_000_000_000,
            ;
            Some(Span::from_nanos(nanos))
        }
    }

    /// A duration of the six magnitudes given.
    pub fn new(
        year: Magnitude,
        month: Magnitude,
        day: Magnitude,
        hour: Magnitude,
        minute: Magnitude,
        second: Magnitude,
    ) -> (r: Duration)
        ensures
            r == (Duration { year, month, day, hour, minute, second }),
    {
        Duration { year, month, day, hour, minute, second }
    }
}

} // verus!
