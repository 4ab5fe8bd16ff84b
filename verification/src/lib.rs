//! ISO 8601 durations such as `P3Y6M4DT12H30M5S`, `P0.5Y` and `P1W`.
//!
//! A duration is six magnitudes: years, months, days, hours, minutes and
//! seconds. Each is a non-negative decimal number with nine fractional
//! digits, held exactly as a count of billionths, so that no conversion
//! drifts.
//!
//! - [`Duration::parse`] reads a text by the grammar of [`grammar`];
//!   [`language`] says which texts those are.
//! - [`Duration::to_string`] writes the canonical text, and reading it
//!   gives the duration back ([`text::lemma_round_trip`]).
//! - `num_years` to `num_seconds` measure a duration in one unit, and
//!   give nothing where the unit cannot measure it: years and months
//!   have no fixed length.
//! - [`Duration::span_from`] gives the exact length of a duration that
//!   starts in a given month of a given year, by the calendar of
//!   `chrono`.
//!
//! ```text
//! Duration::parse("P23DT23H")   days 23, hours 23
//! Duration::parse("P0,5Y")      years 0.5
//! Duration::parse("P12W")       days 84
//! Duration::parse("PT")         Empty at 2
//! Duration::parse("P1WT1H")     Trailing at 3
//! ```

pub mod calendar;
pub mod decimal;
pub mod duration;
pub mod grammar;
pub mod language;
pub mod magnitude;
pub mod text;

pub use crate::duration::{Duration, ParseDurationError};
pub use crate::grammar::{ErrorKind, Failure};
pub use crate::magnitude::{Magnitude, Quantity, Span, SCALE};
