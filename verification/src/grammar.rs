//! The grammar of duration texts.
//!
//! ```text
//! duration     := "P" ( week-format | basic-format )
//! week-format  := value "W"
//! basic-format := [value "Y"] [value "M"] [value "D"]
//!                 [ "T" [value "H"] [value "M"] [value "S"] ]
//! value        := digits [ ("." | ",") digits ]
//! ```
//!
//! The two formats are tried in that order, each designator is looked
//! for once and in that order, and the whole text has to be used up. A
//! value is read to nine fractional digits, and one too large for a
//! magnitude is read as the largest magnitude.

use vstd::prelude::*;
use crate::decimal::{
    all_digits, digit_run, digits_value, fraction_value, is_digit, DIGIT_NINE, DIGIT_ZERO, TENTH,
};
use crate::duration::Duration;
use crate::magnitude::{Magnitude, SCALE};

verus! {

/// The byte `P`, which starts every duration.
pub const PERIOD: u8 = 0x50;

/// The byte `T`, which starts the time part.
pub const TIME: u8 = 0x54;

/// The byte `Y`.
pub const YEARS: u8 = 0x59;

/// The byte `M`, for months in the date part and minutes in the time part.
pub const MONTHS_OR_MINUTES: u8 = 0x4d;

/// The byte `W`.
pub const WEEKS: u8 = 0x57;

/// The byte `D`.
pub const DAYS: u8 = 0x44;

/// The byte `H`.
pub const HOURS: u8 = 0x48;

/// The byte `S`.
pub const SECONDS: u8 = 0x53;

/// The byte `.`.
pub const POINT: u8 = 0x2e;

/// The byte `,`.
pub const COMMA: u8 = 0x2c;

/// Why a text is not a duration.
#[derive(Debug, Clone, Copy, PartialEq, Eq, Structural)]
pub enum ErrorKind {
    /// The text does not start as a duration does.
    NoMatch,
    /// A duration was read, and text is left after it.
    Trailing,
    /// No component with its designator was found.
    Empty,
}

/// Where and why reading a duration failed.
#[derive(Debug, Clone, Copy, PartialEq, Eq, Structural)]
pub struct Failure {
    /// Offset of the first byte that was not used.
    pub position: usize,
    pub kind: ErrorKind,
}

/// Whether a byte separates the integral digits from the fractional ones.
pub open spec fn is_separator(b: u8) -> bool {
    b == POINT || b == COMMA
}

/// Length of the value that `s` starts with, 0 where it starts with none.
pub open spec fn value_len(s: Seq<u8>) -> int {
    let whole = digit_run(s) as int;
    if whole > 0 && whole < s.len() && is_separator(s[whole]) && digit_run(s.skip(whole + 1)) > 0 {
        whole + 1 + digit_run(s.skip(whole + 1))
    } else {
        whole
    }
}

/// The magnitude that is nearest to a count of billionths.
pub open spec fn clamp(n: int) -> Magnitude {
    Magnitude { billionths: if n <= u64::MAX { n as u64 } else { u64::MAX } }
}

/// The magnitude of the value that `s` starts with.
pub open spec fn value_of(s: Seq<u8>) -> Magnitude {
    let whole = digit_run(s) as int;
    let end = value_len(s);
    let fraction = if end > whole {
        fraction_value(s.subrange(whole + 1, end), TENTH as nat)
    } else {
        0
    };
    clamp(digits_value(s.take(whole)) * SCALE + fraction)
}

/// A value with its designator at the start of `s`: the magnitude, and
/// the number of bytes that the two take.
#[verifier::opaque]
pub open spec fn component(s: Seq<u8>, designator: u8) -> Option<(Magnitude, int)> {
    let n = value_len(s);
    if n > 0 && n < s.len() && s[n] == designator {
        Some((value_of(s), n + 1))
    } else {
        None
    }
}

/// The bytes that a component takes, 0 where there is none.
pub open spec fn component_len(s: Seq<u8>, designator: u8) -> int {
    match component(s, designator) {
        Some((_, n)) => n,
        None => 0,
    }
}

/// The magnitude of a component, if there is one.
pub open spec fn component_value(s: Seq<u8>, designator: u8) -> Option<Magnitude> {
    match component(s, designator) {
        Some((m, _)) => Some(m),
        None => None,
    }
}

/// Up to three components found one after the other.
pub struct Triple {
    pub first: Option<Magnitude>,
    pub second: Option<Magnitude>,
    pub third: Option<Magnitude>,
    /// The bytes that they take together.
    pub len: int,
}

/// Three optional components in a fixed order at the start of `s`.
#[verifier::opaque]
pub open spec fn triple(s: Seq<u8>, d1: u8, d2: u8, d3: u8) -> Triple {
    let n1 = component_len(s, d1);
    let n2 = component_len(s.skip(n1), d2);
    let n3 = component_len(s.skip(n1 + n2), d3);
    Triple {
        first: component_value(s, d1),
        second: component_value(s.skip(n1), d2),
        third: component_value(s.skip(n1 + n2), d3),
        len: n1 + n2 + n3,
    }
}

/// The magnitude of a component that may be absent.
pub open spec fn or_zero(m: Option<Magnitude>) -> Magnitude {
    match m {
        Some(v) => v,
        None => Magnitude { billionths: 0 },
    }
}

/// What reading one of the two formats gives: the duration and the
/// bytes used, or the number of bytes after which nothing more matched.
pub enum Outcome {
    Matched(Duration, int),
    Unmatched(int),
}

/// The duration of a number of weeks: seven days for each.
pub open spec fn weeks(m: Magnitude) -> Duration {
    Duration {
        year: Magnitude { billionths: 0 },
        month: Magnitude { billionths: 0 },
        day: clamp(7 * m.billionths),
        hour: Magnitude { billionths: 0 },
        minute: Magnitude { billionths: 0 },
        second: Magnitude { billionths: 0 },
    }
}

/// The week format at the start of `s`: one value and `W`.
pub open spec fn week_format(s: Seq<u8>) -> Outcome {
    match component(s, WEEKS) {
        Some((m, n)) => Outcome::Matched(weeks(m), n),
        None => Outcome::Unmatched(0),
    }
}

/// The basic format at the start of `s`: the date part, then `T` and
/// the time part if `T` follows. It matches where it finds a component.
pub open spec fn basic_format(s: Seq<u8>) -> Outcome {
    let date = triple(s, YEARS, MONTHS_OR_MINUTES, DAYS);
    let timed = date.len < s.len() && s[date.len] == TIME;
    let time = if timed {
        triple(s.skip(date.len + 1), HOURS, MONTHS_OR_MINUTES, SECONDS)
    } else {
        Triple { first: None, second: None, third: None, len: 0 }
    };
    let end = if timed {
        date.len + 1 + time.len
    } else {
        date.len
    };
    if date.first is None && date.second is None && date.third is None && time.first is None
        && time.second is None && time.third is None {
        Outcome::Unmatched(end)
    } else {
        Outcome::Matched(
            Duration {
                year: or_zero(date.first),
                month: or_zero(date.second),
                day: or_zero(date.third),
                hour: or_zero(time.first),
                minute: or_zero(time.second),
                second: or_zero(time.third),
            },
            end,
        )
    }
}

/// What follows `P`: the week format, or else the basic format.
pub open spec fn body(s: Seq<u8>) -> Outcome {
    match week_format(s) {
        Outcome::Matched(d, n) => Outcome::Matched(d, n),
        Outcome::Unmatched(_) => basic_format(s),
    }
}

/// The duration that a whole text denotes, or where and why it denotes
/// none.
pub open spec fn duration_of(s: Seq<u8>) -> Result<Duration, Failure> {
    if s.len() == 0 || s[0] != PERIOD {
        Err(Failure { position: 0, kind: ErrorKind::NoMatch })
    } else {
        match body(s.skip(1)) {
            Outcome::Matched(d, n) => if 1 + n == s.len() {
                Ok(d)
            } else {
                Err(Failure { position: (1 + n) as usize, kind: ErrorKind::Trailing })
            },
            Outcome::Unmatched(n) => Err(
                Failure { position: (1 + n) as usize, kind: ErrorKind::Empty },
            ),
        }
    }
}

/// The least integral part whose magnitude is the largest one whatever
/// fraction follows.
pub const WHOLE_LIMIT: u64 = 18_446_744_074;

/// How the digits at an offset continue the run that ends there.
pub proof fn lemma_digit_run_step(s: Seq<u8>, i: int)
    requires
        0 <= i <= s.len(),
    ensures
        i < s.len() && is_digit(s[i]) ==> digit_run(s.skip(i)) == 1 + digit_run(s.skip(i + 1)),
        i == s.len() || !is_digit(s[i]) ==> digit_run(s.skip(i)) == 0,
{
    if i < s.len() && is_digit(s[i]) {
        assert(s.skip(i).drop_first() =~= s.skip(i + 1));
    }
}

/// Whether a byte is a digit.
fn byte_is_digit(b: u8) -> (r: bool)
    ensures
        r == is_digit(b),
{
    DIGIT_ZERO <= b && b <= DIGIT_NINE
}

/// The offset at which the digits that start at `start` end.
fn scan_digits(bytes: &[u8], start: usize) -> (end: usize)
    requires
        start <= bytes@.len(),
    ensures
        start <= end <= bytes@.len(),
        end - start == digit_run(bytes@.skip(start as int)),
        all_digits(bytes@.subrange(start as int, end as int)),
{
    let mut i: usize = start;
    while i < bytes.len() && byte_is_digit(bytes[i])
        invariant
            start <= i <= bytes@.len(),
            digit_run(bytes@.skip(start as int)) == (i - start) + digit_run(bytes@.skip(i as int)),
            all_digits(bytes@.subrange(start as int, i as int)),
        decreases bytes@.len() - i,
    {
        proof {
            lemma_digit_run_step(bytes@, i as int);
        }
        i = i + 1;
    }
    proof {
        lemma_digit_run_step(bytes@, i as int);
    }
    i
}

/// The number that the digits from `start` to `end` denote, or
/// `WHOLE_LIMIT` where it is larger.
fn read_whole(bytes: &[u8], start: usize, end: usize) -> (v: u64)
    requires
        start <= end <= bytes@.len(),
        all_digits(bytes@.subrange(start as int, end as int)),
    ensures
        v <= WHOLE_LIMIT,
        v == if digits_value(bytes@.subrange(start as int, end as int)) < WHOLE_LIMIT {
            digits_value(bytes@.subrange(start as int, end as int))
        } else {
            WHOLE_LIMIT as nat
        },
{
    let mut v: u64 = 0;
    let mut i: usize = start;
    assert(bytes@.subrange(start as int, start as int) =~= Seq::<u8>::empty());
    while i < end
        invariant
            start <= i <= end <= bytes@.len(),
            all_digits(bytes@.subrange(start as int, end as int)),
            v <= WHOLE_LIMIT,
            v == if digits_value(bytes@.subrange(start as int, i as int)) < WHOLE_LIMIT {
                digits_value(bytes@.subrange(start as int, i as int))
            } else {
                WHOLE_LIMIT as nat
            },
        decreases end - i,
    {
        let b: u8 = bytes[i];
        proof {
            let done = bytes@.subrange(start as int, i as int);
            let more = bytes@.subrange(start as int, i + 1);
            assert(more.drop_last() =~= done);
            assert(more.last() == b);
            assert(bytes@.subrange(start as int, end as int)[i - start] == b);
        }
        let d: u64 = (b - DIGIT_ZERO) as u64;
        let next: u64 = v * 10 + d;
        v = if next < WHOLE_LIMIT {
            next
        } else {
            WHOLE_LIMIT
        };
        i = i + 1;
    }
    v
}

/// The billionths that the fractional digits from `start` to `end`
/// denote; digits after the ninth are left out.
fn read_fraction(bytes: &[u8], start: usize, end: usize) -> (v: u64)
    requires
        start <= end <= bytes@.len(),
        all_digits(bytes@.subrange(start as int, end as int)),
    ensures
        v < SCALE,
        v == fraction_value(bytes@.subrange(start as int, end as int), TENTH as nat),
{
    let mut v: u64 = 0;
    let mut weight: u64 = TENTH;
    let mut i: usize = start;
    while i < end && weight > 0
        invariant
            start <= i <= end <= bytes@.len(),
            all_digits(bytes@.subrange(start as int, end as int)),
            v < SCALE,
            weight > 0 ==> v + 10 * weight <= SCALE,
            fraction_value(bytes@.subrange(start as int, end as int), TENTH as nat) == v
                + fraction_value(bytes@.subrange(i as int, end as int), weight as nat),
        decreases end - i,
    {
        let b: u8 = bytes[i];
        proof {
            let rest = bytes@.subrange(i as int, end as int);
            assert(rest.drop_first() =~= bytes@.subrange(i + 1, end as int));
            assert(rest[0] == b);
            assert(bytes@.subrange(start as int, end as int)[i - start] == b);
        }
        let d: u64 = (b - DIGIT_ZERO) as u64;
        assert(d * weight <= 9 * weight) by (nonlinear_arith)
            requires
                d <= 9,
        ;
        v = v + d * weight;
        weight = weight / 10;
        i = i + 1;
    }
    v
}

/// The value that starts at `start`, with the offset at which it ends.
fn read_value(bytes: &[u8], start: usize) -> (r: Option<(Magnitude, usize)>)
    requires
        start <= bytes@.len(),
    ensures
        match r {
            Some((m, end)) => {
                &&& start < end <= bytes@.len()
                &&& end - start == value_len(bytes@.skip(start as int))
                &&& m == value_of(bytes@.skip(start as int))
            },
            None => value_len(bytes@.skip(start as int)) == 0,
        },
{
    let ghost s = bytes@.skip(start as int);
    let whole_end = scan_digits(bytes, start);
    if whole_end == start {
        return None;
    }
    let whole = read_whole(bytes, start, whole_end);
    assert(s.take(whole_end - start) =~= bytes@.subrange(start as int, whole_end as int));
    let mut end: usize = whole_end;
    let mut fraction: u64 = 0;
    if whole_end < bytes.len() && (bytes[whole_end] == POINT || bytes[whole_end] == COMMA) {
        let fraction_end = scan_digits(bytes, whole_end + 1);
        assert(s.skip(whole_end - start + 1) =~= bytes@.skip(whole_end + 1));
        if fraction_end > whole_end + 1 {
            fraction = read_fraction(bytes, whole_end + 1, fraction_end);
            end = fraction_end;
            assert(s.subrange(whole_end - start + 1, fraction_end - start) =~= bytes@.subrange(
                whole_end + 1,
                fraction_end as int,
            ));
        }
    }
    let total: u128 = (whole as u128) * (SCALE as u128) + (fraction as u128);
    let billionths: u64 = if total <= u64::MAX as u128 {
        total as u64
    } else {
        u64::MAX
    };
    proof {
        let exact = digits_value(s.take(whole_end - start));
        if exact >= WHOLE_LIMIT {
            assert(exact * SCALE >= WHOLE_LIMIT * SCALE) by (nonlinear_arith)
                requires
                    exact >= WHOLE_LIMIT,
            ;
        }
    }
    Some((Magnitude { billionths }, end))
}

/// The component with the designator given that starts at `start`,
/// with the offset at which it ends.
fn read_component(bytes: &[u8], start: usize, designator: u8) -> (r: Option<(Magnitude, usize)>)
    requires
        start <= bytes@.len(),
    ensures
        match r {
            Some((m, end)) => {
                &&& start < end <= bytes@.len()
                &&& component(bytes@.skip(start as int), designator) == Some((m, end - start))
            },
            None => component(bytes@.skip(start as int), designator) is None,
        },
{
    reveal(component);
    match read_value(bytes, start) {
        Some((m, end)) => {
            if end < bytes.len() && bytes[end] == designator {
                Some((m, end + 1))
            } else {
                None
            }
        },
        None => None,
    }
}

/// Three optional components from `start` on, each looked for where the
/// one before it ended; the last element is the offset after them.
fn read_triple(bytes: &[u8], start: usize, d1: u8, d2: u8, d3: u8) -> (r: (
    Option<Magnitude>,
    Option<Magnitude>,
    Option<Magnitude>,
    usize,
))
    requires
        start <= bytes@.len(),
    ensures
        start <= r.3 <= bytes@.len(),
        triple(bytes@.skip(start as int), d1, d2, d3) == (Triple {
            first: r.0,
            second: r.1,
            third: r.2,
            len: r.3 - start,
        }),
{
    reveal(triple);
    let ghost s = bytes@.skip(start as int);
    let mut at: usize = start;
    let first = match read_component(bytes, at, d1) {
        Some((m, end)) => {
            at = end;
            Some(m)
        },
        None => None,
    };
    assert(s.skip(at - start) =~= bytes@.skip(at as int));
    let ghost n1 = at - start;
    let second = match read_component(bytes, at, d2) {
        Some((m, end)) => {
            at = end;
            Some(m)
        },
        None => None,
    };
    assert(s.skip(at - start) =~= bytes@.skip(at as int));
    let third = match read_component(bytes, at, d3) {
        Some((m, end)) => {
            at = end;
            Some(m)
        },
        None => None,
    };
    (first, second, third, at)
}

/// Reads the week format from `start` on: the duration and the offset
/// after it.
fn read_week(bytes: &[u8], start: usize) -> (r: Option<(Duration, usize)>)
    requires
        start <= bytes@.len(),
    ensures
        match r {
            Some((d, end)) => start <= end <= bytes@.len() && week_format(
                bytes@.skip(start as int),
            ) == Outcome::Matched(d, end - start),
            None => week_format(bytes@.skip(start as int)) == Outcome::Unmatched(0),
        },
{
    match read_component(bytes, start, WEEKS) {
        Some((weeks, end)) => {
            let zero = Magnitude { billionths: 0 };
            let days: u128 = 7 * (weeks.billionths as u128);
            let day = Magnitude {
                billionths: if days <= u64::MAX as u128 {
                    days as u64
                } else {
                    u64::MAX
                },
            };
            let d = Duration {
                year: zero,
                month: zero,
                day,
                hour: zero,
                minute: zero,
                second: zero,
            };
            Some((d, end))
        },
        None => None,
    }
}

/// Reads the basic format from `start` on: the duration and the offset
/// after it, or the offset at which nothing more matched.
fn read_basic(bytes: &[u8], start: usize) -> (r: Result<(Duration, usize), usize>)
    requires
        start <= bytes@.len(),
    ensures
        match r {
            Ok((d, end)) => start <= end <= bytes@.len() && basic_format(
                bytes@.skip(start as int),
            ) == Outcome::Matched(d, end - start),
            Err(end) => start <= end <= bytes@.len() && basic_format(bytes@.skip(start as int))
                == Outcome::Unmatched(end - start),
        },
{
    let ghost s = bytes@.skip(start as int);
    let (year, month, day, date_end) = read_triple(bytes, start, YEARS, MONTHS_OR_MINUTES, DAYS);
    let ghost date = triple(s, YEARS, MONTHS_OR_MINUTES, DAYS);
    assert(date.len == date_end - start);
    let mut hour: Option<Magnitude> = None;
    let mut minute: Option<Magnitude> = None;
    let mut second: Option<Magnitude> = None;
    let mut end: usize = date_end;
    if date_end < bytes.len() && bytes[date_end] == TIME {
        let (h, m, sec, time_end) = read_triple(
            bytes,
            date_end + 1,
            HOURS,
            MONTHS_OR_MINUTES,
            SECONDS,
        );
        assert(s.skip(date.len + 1) =~= bytes@.skip(date_end + 1));
        hour = h;
        minute = m;
        second = sec;
        end = time_end;
    }
    if year.is_none() && month.is_none() && day.is_none() && hour.is_none() && minute.is_none()
        && second.is_none() {
        Err(end)
    } else {
        Ok(
            (
                Duration {
                    year: magnitude_or_zero(year),
                    month: magnitude_or_zero(month),
                    day: magnitude_or_zero(day),
                    hour: magnitude_or_zero(hour),
                    minute: magnitude_or_zero(minute),
                    second: magnitude_or_zero(second),
                },
                end,
            ),
        )
    }
}

/// Reads what follows `P` from `start` on: the week format, or else the
/// basic format.
fn read_body(bytes: &[u8], start: usize) -> (r: Result<(Duration, usize), usize>)
    requires
        start <= bytes@.len(),
    ensures
        match r {
            Ok((d, end)) => start <= end <= bytes@.len() && body(bytes@.skip(start as int))
                == Outcome::Matched(d, end - start),
            Err(end) => start <= end <= bytes@.len() && body(bytes@.skip(start as int))
                == Outcome::Unmatched(end - start),
        },
{
    match read_week(bytes, start) {
        Some(found) => Ok(found),
        None => read_basic(bytes, start),
    }
}

/// The magnitude of a component that may be absent.
fn magnitude_or_zero(m: Option<Magnitude>) -> (r: Magnitude)
    ensures
        r == or_zero(m),
{
    match m {
        Some(v) => v,
        None => Magnitude { billionths: 0 },
    }
}

/// Reads a whole text as a duration.
pub fn parse_bytes(bytes: &[u8]) -> (r: Result<Duration, Failure>)
    ensures
        r == duration_of(bytes@),
{
    if bytes.len() == 0 || bytes[0] != PERIOD {
        return Err(Failure { position: 0, kind: ErrorKind::NoMatch });
    }
    match read_body(bytes, 1) {
        Ok((d, end)) => {
            if end == bytes.len() {
                Ok(d)
            } else {
                Err(Failure { position: end, kind: ErrorKind::Trailing })
            }
        },
        Err(end) => Err(Failure { position: end, kind: ErrorKind::Empty }),
    }
}

} // verus!
