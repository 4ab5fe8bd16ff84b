//! The fixed-point numbers that durations are made of.

use vstd::prelude::*;

verus! {

/// Number of billionths in one unit.
pub const SCALE: u64 = 1_000_000_000;

/// The magnitude of one component of a duration: a non-negative decimal
/// number with nine fractional digits, held as a count of billionths.
#[derive(Debug, Clone, Copy, PartialEq, Eq, Structural)]
pub struct Magnitude {
    pub billionths: u64,
}

/// The result of a unit conversion, in billionths of the target unit.
#[derive(Debug, Clone, Copy, PartialEq, Eq, Structural)]
pub struct Quantity {
    pub billionths: u128,
}

/// A fixed length of time: whole seconds and the nanoseconds beyond them.
#[derive(Debug, Clone, Copy, PartialEq, Eq, Structural)]
pub struct Span {
    pub seconds: u64,
    pub nanos: u32,
}

impl Magnitude {
    /// The magnitude zero.
    pub fn zero() -> (r: Magnitude)
        ensures
            r.billionths == 0,
    {
        Magnitude { billionths: 0 }
    }

    /// The magnitude of a whole number.
    pub fn from_whole(n: u32) -> (r: Magnitude)
        ensures
            r.billionths == n * SCALE,
    {
        let wide: u64 = n as u64;
        Magnitude { billionths: wide * SCALE }
    }

    /// Whether the magnitude is exactly zero.
    pub fn is_zero(&self) -> (r: bool)
        ensures
            r == (self.billionths == 0),
    {
        self.billionths == 0
    }

    /// The integral part.
    pub fn whole(&self) -> (r: u64)
        ensures
            r == self.billionths / SCALE,
    {
        self.billionths / SCALE
    }

    /// The fractional part, in billionths.
    pub fn fraction(&self) -> (r: u32)
        ensures
            r == self.billionths % SCALE,
    {
        (self.billionths % SCALE) as u32
    }
}

impl Quantity {
    /// The integral part.
    pub fn whole(&self) -> (r: u128)
        ensures
            r == self.billionths / (SCALE as u128),
    {
        self.billionths / (SCALE as u128)
    }

    /// The fractional part, in billionths.
    pub fn fraction(&self) -> (r: u32)
        ensures
            r == self.billionths % (SCALE as u128),
    {
        (self.billionths % (SCALE as u128)) as u32
    }
}

impl Span {
    /// The number of nanoseconds that the span holds.
    pub open spec fn total_nanos(self) -> int {
        self.seconds * SCALE + self.nanos
    }

    /// The span of a count of nanoseconds, where its seconds fit.
    pub open spec fn of_nanos(n: int) -> Span {
        Span { seconds: (n / SCALE as int) as u64, nanos: (n % SCALE as int) as u32 }
    }

    /// Splits a count of nanoseconds into whole seconds and the rest.
    pub fn from_nanos(n: u128) -> (r: Span)
        requires
            n / (SCALE as u128) <= u64::MAX,
        ensures
            r == Span::of_nanos(n as int),
            r.nanos < SCALE,
            r.total_nanos() == n,
    {
        let seconds: u128 = n / (SCALE as u128);
        let nanos: u128 = n % (SCALE as u128);
        Span { seconds: seconds as u64, nanos: nanos as u32 }
    }
}

} // verus!
