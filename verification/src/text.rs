//! The canonical text of a duration.
//!
//! `P`, then the non-zero magnitudes of the date part with `Y`, `M` and
//! `D`, then `T` and the non-zero magnitudes of the time part with `H`,
//! `M` and `S` where there is one. A magnitude is written with a decimal
//! point and without needless zeros.

use vstd::prelude::*;
use vstd::utf8::{encode_utf8, is_ascii_chars, is_ascii_chars_encode_utf8};
use crate::decimal::{
    fraction_digits, is_power_of_ten, lemma_fraction_digits, lemma_whole_digits, whole_digits,
    DIGIT_ZERO, TENTH,
};
use crate::duration::Duration;
use crate::grammar::{
    duration_of, value_of, Failure, DAYS, HOURS, MONTHS_OR_MINUTES, PERIOD, POINT, SECONDS, TIME,
    YEARS,
};
use crate::language::{
    field, is_value, lemma_basic_text_is_read, lemma_worth_of_digits, lemma_worth_of_fraction,
    Written,
};
use crate::magnitude::{Magnitude, SCALE};

verus! {

/// The text of a magnitude: its integral digits, then, where it has a
/// fraction, a point and its fractional digits.
pub open spec fn value_text(m: Magnitude) -> Seq<u8> {
    let whole = whole_digits((m.billionths / SCALE) as nat);
    let fraction = (m.billionths % SCALE) as nat;
    if fraction == 0 {
        whole
    } else {
        whole.push(POINT) + fraction_digits(fraction, TENTH as nat)
    }
}

/// The text of one component: nothing for zero, else the magnitude and
/// its designator.
pub open spec fn field_text(m: Magnitude, designator: u8) -> Seq<u8> {
    if m.billionths == 0 {
        Seq::empty()
    } else {
        value_text(m).push(designator)
    }
}

/// The text of years, months and days.
pub open spec fn date_text(d: Duration) -> Seq<u8> {
    field_text(d.year, YEARS) + field_text(d.month, MONTHS_OR_MINUTES) + field_text(d.day, DAYS)
}

/// The text of hours, minutes and seconds after `T`, or nothing where
/// the three are zero.
pub open spec fn time_text(d: Duration) -> Seq<u8> {
    if d.has_clock_part() {
        seq![TIME] + field_text(d.hour, HOURS) + field_text(d.minute, MONTHS_OR_MINUTES)
            + field_text(d.second, SECONDS)
    } else {
        Seq::empty()
    }
}

/// The canonical text of a duration.
pub open spec fn text_of(d: Duration) -> Seq<u8> {
    seq![PERIOD] + date_text(d) + time_text(d)
}

/// The value that a magnitude is written as, if it is written at all.
pub open spec fn written_value(m: Magnitude) -> Option<Seq<u8>> {
    if m.billionths == 0 {
        None
    } else {
        Some(value_text(m))
    }
}

/// The values that the canonical text of a duration is made of.
pub open spec fn written(d: Duration) -> Written {
    Written {
        year: written_value(d.year),
        month: written_value(d.month),
        day: written_value(d.day),
        timed: d.has_clock_part(),
        hour: written_value(d.hour),
        minute: written_value(d.minute),
        second: written_value(d.second),
    }
}

/// The text of a magnitude is a value, and is worth the magnitude.
pub proof fn lemma_value_text(m: Magnitude)
    ensures
        is_value(value_text(m)),
        value_of(value_text(m)) == m,
{
    let whole = whole_digits((m.billionths / SCALE) as nat);
    let fraction = (m.billionths % SCALE) as nat;
    lemma_whole_digits((m.billionths / SCALE) as nat);
    if fraction == 0 {
        lemma_worth_of_digits(whole);
    } else {
        assert(is_power_of_ten(TENTH as nat)) by {
            reveal_with_fuel(is_power_of_ten, 10);
        }
        lemma_fraction_digits(fraction, TENTH as nat);
        lemma_worth_of_fraction(whole, POINT, fraction_digits(fraction, TENTH as nat));
    }
}

/// The canonical text of a duration that is not zero is a text in the
/// basic format, made of the values of its magnitudes that are not
/// zero.
pub proof fn lemma_text_is_written(d: Duration)
    requires
        !d.is_zero(),
    ensures
        written(d).well_formed(),
        written(d).text() == text_of(d),
        written(d).duration() == d,
{
    lemma_value_text(d.year);
    lemma_value_text(d.month);
    lemma_value_text(d.day);
    lemma_value_text(d.hour);
    lemma_value_text(d.minute);
    lemma_value_text(d.second);
    let w = written(d);
    assert(field(w.year, YEARS) == field_text(d.year, YEARS));
    assert(field(w.month, MONTHS_OR_MINUTES) == field_text(d.month, MONTHS_OR_MINUTES));
    assert(field(w.day, DAYS) == field_text(d.day, DAYS));
    assert(field(w.hour, HOURS) == field_text(d.hour, HOURS));
    assert(field(w.minute, MONTHS_OR_MINUTES) == field_text(d.minute, MONTHS_OR_MINUTES));
    assert(field(w.second, SECONDS) == field_text(d.second, SECONDS));
    assert(w.time_text() =~= time_text(d));
}

/// The characters that stand for bytes below 128.
pub open spec fn ascii(bytes: Seq<u8>) -> Seq<char> {
    Seq::new(bytes.len(), |i: int| bytes[i] as char)
}

/// Whether every byte is below 128.
pub open spec fn is_seven_bit(bytes: Seq<u8>) -> bool {
    forall|i: int| 0 <= i < bytes.len() ==> #[trigger] bytes[i] < 128
}

/// Taken on trust from std, not proved: `String::push` appends the
/// character to the string.
pub assume_specification[ String::push ](s: &mut String, ch: char)
    ensures
        final(s)@ == old(s)@.push(ch),
;

/// Appends the digits of `n`.
fn push_whole(out: &mut Vec<u8>, n: u64)
    ensures
        final(out)@ == old(out)@ + whole_digits(n as nat),
    decreases n,
{
    if n >= 10 {
        push_whole(out, n / 10);
    }
    let digit: u8 = (n % 10) as u8;
    out.push(DIGIT_ZERO + digit);
}

/// Appends the fractional digits of `n` parts, the first of which
/// weighs `weight`.
fn push_fraction(out: &mut Vec<u8>, n: u64, weight: u64)
    requires
        n == 0 || n < 10 * weight,
        weight == 0 || is_power_of_ten(weight as nat),
    ensures
        final(out)@ == old(out)@ + fraction_digits(n as nat, weight as nat),
    decreases weight,
{
    if n != 0 && weight != 0 {
        let head: u64 = n / weight;
        let rest: u64 = n % weight;
        assert(head < 10 && rest < weight) by (nonlinear_arith)
            requires
                head == n / weight,
                rest == n % weight,
                n < 10 * weight,
                weight > 0,
        ;
        out.push(DIGIT_ZERO + head as u8);
        push_fraction(out, rest, weight / 10);
    }
}

/// Appends the text of a magnitude.
fn push_value(out: &mut Vec<u8>, m: Magnitude)
    ensures
        final(out)@ == old(out)@ + value_text(m),
{
    push_whole(out, m.billionths / SCALE);
    let fraction: u64 = m.billionths % SCALE;
    if fraction != 0 {
        out.push(POINT);
        assert(is_power_of_ten(TENTH as nat)) by {
            reveal_with_fuel(is_power_of_ten, 10);
        }
        push_fraction(out, fraction, TENTH);
    }
}

/// Appends the text of one component.
fn push_field(out: &mut Vec<u8>, m: Magnitude, designator: u8)
    ensures
        final(out)@ == old(out)@ + field_text(m, designator),
{
    if m.billionths != 0 {
        push_value(out, m);
        out.push(designator);
    }
}

/// Appends the text of years, months and days.
fn push_date(out: &mut Vec<u8>, d: &Duration)
    ensures
        final(out)@ == old(out)@ + date_text(*d),
{
    push_field(out, d.year, YEARS);
    push_field(out, d.month, MONTHS_OR_MINUTES);
    push_field(out, d.day, DAYS);
    assert(out@ =~= old(out)@ + date_text(*d));
}

/// Appends `T` and the text of hours, minutes and seconds, where one of
/// them is not zero.
fn push_time(out: &mut Vec<u8>, d: &Duration)
    ensures
        final(out)@ == old(out)@ + time_text(*d),
{
    if d.hour.billionths != 0 || d.minute.billionths != 0 || d.second.billionths != 0 {
        out.push(TIME);
        push_field(out, d.hour, HOURS);
        push_field(out, d.minute, MONTHS_OR_MINUTES);
        push_field(out, d.second, SECONDS);
    }
    assert(out@ =~= old(out)@ + time_text(*d));
}

/// Bytes below 128 are the UTF-8 encoding of the characters that stand
/// for them.
pub proof fn lemma_ascii_bytes(bytes: Seq<u8>)
    requires
        is_seven_bit(bytes),
    ensures
        is_ascii_chars(ascii(bytes)),
        encode_utf8(ascii(bytes)) == bytes,
{
    let chars = ascii(bytes);
    assert forall|i: int| 0 <= i < chars.len() implies '\0' <= #[trigger] chars[i] <= '\u{7f}' by {
        assert(bytes[i] < 128);
    }
    is_ascii_chars_encode_utf8(chars);
    assert forall|i: int| 0 <= i < bytes.len() implies encode_utf8(chars)[i] == bytes[i] by {
        assert(bytes[i] < 128);
        assert(chars[i] as u8 == encode_utf8(chars)[i]);
    }
    assert(encode_utf8(chars) =~= bytes);
}

/// The text of a component is made of bytes below 128.
proof fn lemma_field_seven_bit(m: Magnitude, designator: u8)
    requires
        designator < 128,
    ensures
        is_seven_bit(field_text(m, designator)),
{
    lemma_whole_digits((m.billionths / SCALE) as nat);
    let fraction = (m.billionths % SCALE) as nat;
    if fraction != 0 {
        assert(is_power_of_ten(TENTH as nat)) by {
            reveal_with_fuel(is_power_of_ten, 10);
        }
        lemma_fraction_digits(fraction, TENTH as nat);
    }
}

/// The canonical text of a duration is made of bytes below 128.
pub proof fn lemma_text_seven_bit(d: Duration)
    ensures
        is_seven_bit(text_of(d)),
{
    lemma_field_seven_bit(d.year, YEARS);
    lemma_field_seven_bit(d.month, MONTHS_OR_MINUTES);
    lemma_field_seven_bit(d.day, DAYS);
    lemma_field_seven_bit(d.hour, HOURS);
    lemma_field_seven_bit(d.minute, MONTHS_OR_MINUTES);
    lemma_field_seven_bit(d.second, SECONDS);
}

/// Reading the canonical text of a duration that is not zero gives the
/// duration back, from the bytes and from the string that they make.
pub proof fn lemma_round_trip(d: Duration)
    requires
        !d.is_zero(),
    ensures
        duration_of(text_of(d)) == Ok::<Duration, Failure>(d),
        duration_of(encode_utf8(ascii(text_of(d)))) == Ok::<Duration, Failure>(d),
{
    lemma_text_is_written(d);
    lemma_basic_text_is_read(written(d));
    lemma_text_seven_bit(d);
    lemma_ascii_bytes(text_of(d));
}

impl Duration {
    /// The canonical text.
    pub fn to_string(&self) -> (r: String)
        ensures
            r@ == ascii(text_of(*self)),
            encode_utf8(r@) == text_of(*self),
    {
        let bytes = self.to_bytes();
        proof {
            lemma_text_seven_bit(*self);
            lemma_ascii_bytes(bytes@);
        }
        let mut out = String::new();
        let mut i: usize = 0;
        while i < bytes.len()
            invariant
                i <= bytes@.len(),
                is_seven_bit(bytes@),
                out@ == ascii(bytes@.take(i as int)),
            decreases bytes@.len() - i,
        {
            out.push(bytes[i] as char);
            assert(bytes@.take(i + 1) =~= bytes@.take(i as int).push(bytes@[i as int]));
            i = i + 1;
        }
        assert(bytes@.take(i as int) =~= bytes@);
        out
    }

    /// The canonical text, as bytes.
    pub fn to_bytes(&self) -> (r: Vec<u8>)
        ensures
            r@ == text_of(*self),
    {
        let mut out: Vec<u8> = Vec::new();
        out.push(PERIOD);
        push_date(&mut out, self);
        push_time(&mut out, self);
        out
    }
}

} // verus!
