//! The texts that the grammar accepts, and what each is read as.
//!
//! The grammar is read from left to right, each component looked for
//! once. Here the same texts are described by what they are made of:
//! `P`, then a value and `W`, or up to six values with their designators
//! in order. The two descriptions agree (`lemma_grammar`), a value is
//! worth its digits whichever separator it has
//! (`lemma_worth_of_fraction`), weeks stand alone
//! (`lemma_weeks_stand_alone`), and what is left over follows a text
//! that is a duration (`lemma_trailing_follows_a_duration`).

use vstd::prelude::*;
use crate::decimal::{
    all_digits, digit_run, digits_value, fraction_value, is_digit, lemma_digit_run_of_digits, TENTH,
};
use crate::duration::Duration;
use crate::grammar::{
    basic_format, body, clamp, component, component_len, component_value, duration_of,
    is_separator, or_zero, triple, value_len, value_of, week_format, weeks, ErrorKind, Failure,
    Outcome, Triple, DAYS, HOURS, MONTHS_OR_MINUTES, PERIOD, SECONDS, TIME, WEEKS, YEARS,
};
use crate::magnitude::{Magnitude, SCALE};

verus! {

/// Whether a byte can follow a value without being taken for a part of
/// it: the designators are such bytes.
pub open spec fn ends_value(b: u8) -> bool {
    !is_digit(b) && !is_separator(b)
}

/// Whether `v` is digits, a separator at offset `k`, and digits.
pub open spec fn is_split_value(v: Seq<u8>, k: int) -> bool {
    &&& 0 < k < v.len() - 1
    &&& all_digits(v.take(k))
    &&& is_separator(v[k])
    &&& all_digits(v.skip(k + 1))
}

/// Whether a text is one value: digits, or digits, a separator and
/// digits.
pub open spec fn is_value(v: Seq<u8>) -> bool {
    ||| v.len() > 0 && all_digits(v)
    ||| exists|k: int| is_split_value(v, k)
}

/// The text of a component that may be absent: its value, if any, and
/// the designator.
pub open spec fn field(v: Option<Seq<u8>>, designator: u8) -> Seq<u8> {
    match v {
        Some(v) => v.push(designator),
        None => Seq::empty(),
    }
}

/// Whether what is there is a value.
pub open spec fn is_value_if_any(v: Option<Seq<u8>>) -> bool {
    v matches Some(x) ==> is_value(x)
}

/// The magnitude of a value that may be absent.
pub open spec fn magnitude_of(v: Option<Seq<u8>>) -> Option<Magnitude> {
    match v {
        Some(v) => Some(value_of(v)),
        None => None,
    }
}

/// A text in the basic format, as the values written in it.
pub struct Written {
    pub year: Option<Seq<u8>>,
    pub month: Option<Seq<u8>>,
    pub day: Option<Seq<u8>>,
    /// Whether `T` is written; without it there is no time part.
    pub timed: bool,
    pub hour: Option<Seq<u8>>,
    pub minute: Option<Seq<u8>>,
    pub second: Option<Seq<u8>>,
}

impl Written {
    /// Whether these are values, at least one of them, with those of
    /// the time part only after `T`.
    pub open spec fn well_formed(self) -> bool {
        &&& is_value_if_any(self.year)
        &&& is_value_if_any(self.month)
        &&& is_value_if_any(self.day)
        &&& is_value_if_any(self.hour)
        &&& is_value_if_any(self.minute)
        &&& is_value_if_any(self.second)
        &&& !self.timed ==> self.hour is None && self.minute is None && self.second is None
        &&& self.year is Some || self.month is Some || self.day is Some || self.hour is Some
            || self.minute is Some || self.second is Some
    }

    /// The date part.
    pub open spec fn date_text(self) -> Seq<u8> {
        field(self.year, YEARS) + field(self.month, MONTHS_OR_MINUTES) + field(self.day, DAYS)
    }

    /// `T` and the time part, if `T` is written.
    pub open spec fn time_text(self) -> Seq<u8> {
        if self.timed {
            seq![TIME] + field(self.hour, HOURS) + field(self.minute, MONTHS_OR_MINUTES) + field(
                self.second,
                SECONDS,
            )
        } else {
            Seq::empty()
        }
    }

    /// The whole text.
    pub open spec fn text(self) -> Seq<u8> {
        seq![PERIOD] + self.date_text() + self.time_text()
    }

    /// The duration of the values, zero for each that is absent.
    pub open spec fn duration(self) -> Duration {
        Duration {
            year: or_zero(magnitude_of(self.year)),
            month: or_zero(magnitude_of(self.month)),
            day: or_zero(magnitude_of(self.day)),
            hour: or_zero(magnitude_of(self.hour)),
            minute: or_zero(magnitude_of(self.minute)),
            second: or_zero(magnitude_of(self.second)),
        }
    }
}

/// A value is read whole, and for what it is worth alone, where
/// nothing or a byte that ends it follows.
pub proof fn lemma_value_is_read(v: Seq<u8>, rest: Seq<u8>)
    requires
        is_value(v),
        rest.len() == 0 || ends_value(rest[0]),
    ensures
        value_len(v + rest) == v.len(),
        value_of(v + rest) == value_of(v),
        value_len(v) == v.len(),
{
    let s = v + rest;
    let none = Seq::<u8>::empty();
    assert(v + none =~= v);
    if v.len() > 0 && all_digits(v) {
        lemma_digit_run_of_digits(v, rest);
        lemma_digit_run_of_digits(v, none);
        assert(s.take(v.len() as int) =~= v.take(v.len() as int));
    } else {
        let k = choose|k: int| is_split_value(v, k);
        let whole = v.take(k);
        let digits = v.skip(k + 1);
        let after = seq![v[k]] + digits;
        assert(v =~= whole + after);
        assert(s =~= whole + (after + rest));
        lemma_digit_run_of_digits(whole, after + rest);
        lemma_digit_run_of_digits(whole, after);
        assert(s.take(k) =~= v.take(k));
        assert(s.skip(k + 1) =~= digits + rest);
        assert(v.skip(k + 1) =~= digits + none);
        lemma_digit_run_of_digits(digits, rest);
        lemma_digit_run_of_digits(digits, none);
        assert(s.subrange(k + 1, v.len() as int) =~= v.subrange(k + 1, v.len() as int));
    }
}

/// What digits alone are worth: the number that they denote.
pub proof fn lemma_worth_of_digits(whole: Seq<u8>)
    requires
        whole.len() > 0,
        all_digits(whole),
    ensures
        is_value(whole),
        value_of(whole) == clamp(digits_value(whole) * SCALE),
{
    let none = Seq::<u8>::empty();
    assert(whole + none =~= whole);
    lemma_digit_run_of_digits(whole, none);
    assert(whole.take(whole.len() as int) =~= whole);
}

/// What digits, a separator and digits are worth, whichever separator
/// it is: the number that the first digits denote, and the fraction
/// that the others denote.
pub proof fn lemma_worth_of_fraction(whole: Seq<u8>, separator: u8, digits: Seq<u8>)
    requires
        whole.len() > 0,
        digits.len() > 0,
        all_digits(whole),
        all_digits(digits),
        is_separator(separator),
    ensures
        is_value(whole.push(separator) + digits),
        value_of(whole.push(separator) + digits) == clamp(
            digits_value(whole) * SCALE + fraction_value(digits, TENTH as nat),
        ),
{
    let k = whole.len() as int;
    let v = whole.push(separator) + digits;
    let none = Seq::<u8>::empty();
    assert(v.take(k) =~= whole);
    assert(v.skip(k + 1) =~= digits);
    assert(is_split_value(v, k));
    assert(v =~= whole + (seq![separator] + digits));
    lemma_digit_run_of_digits(whole, seq![separator] + digits);
    assert(digits + none =~= digits);
    lemma_digit_run_of_digits(digits, none);
    assert(v.subrange(k + 1, v.len() as int) =~= digits);
}

/// A value with its designator is read as that component, whatever
/// follows, and as no component of another designator.
pub proof fn lemma_field_is_read(v: Seq<u8>, designator: u8, tail: Seq<u8>, wanted: u8)
    requires
        is_value(v),
        ends_value(designator),
    ensures
        component(v.push(designator) + tail, wanted) == if designator == wanted {
            Some((value_of(v), (v.len() + 1) as int))
        } else {
            None
        },
{
    reveal(component);
    let rest = seq![designator] + tail;
    lemma_value_is_read(v, rest);
    assert(v.push(designator) + tail =~= v + rest);
}

/// A text that does not start with a digit starts with no component.
pub proof fn lemma_no_component(s: Seq<u8>, wanted: u8)
    requires
        s.len() == 0 || !is_digit(s[0]),
    ensures
        component(s, wanted) is None,
{
    reveal(component);
}

/// The component found at the start of up to three written one after
/// the other, for any designator looked for: the first that is
/// written, if its designator is the one looked for.
pub proof fn lemma_first_of_fields(
    a: Option<Seq<u8>>,
    d1: u8,
    b: Option<Seq<u8>>,
    d2: u8,
    c: Option<Seq<u8>>,
    d3: u8,
    tail: Seq<u8>,
    wanted: u8,
)
    requires
        is_value_if_any(a),
        is_value_if_any(b),
        is_value_if_any(c),
        ends_value(d1),
        ends_value(d2),
        ends_value(d3),
        tail.len() == 0 || !is_digit(tail[0]),
    ensures
        component(field(a, d1) + field(b, d2) + field(c, d3) + tail, wanted) == if let Some(v) = a {
            if d1 == wanted {
                Some((value_of(v), (v.len() + 1) as int))
            } else {
                None
            }
        } else if let Some(v) = b {
            if d2 == wanted {
                Some((value_of(v), (v.len() + 1) as int))
            } else {
                None
            }
        } else if let Some(v) = c {
            if d3 == wanted {
                Some((value_of(v), (v.len() + 1) as int))
            } else {
                None
            }
        } else {
            None
        },
{
    let s = field(a, d1) + field(b, d2) + field(c, d3) + tail;
    if let Some(v) = a {
        lemma_field_is_read(v, d1, field(b, d2) + field(c, d3) + tail, wanted);
        assert(s =~= field(a, d1) + (field(b, d2) + field(c, d3) + tail));
    } else if let Some(v) = b {
        lemma_field_is_read(v, d2, field(c, d3) + tail, wanted);
        assert(s =~= field(b, d2) + (field(c, d3) + tail));
    } else if let Some(v) = c {
        lemma_field_is_read(v, d3, tail, wanted);
        assert(s =~= field(c, d3) + tail);
    } else {
        assert(s =~= tail);
        lemma_no_component(tail, wanted);
    }
}

/// Up to three components written in order, with designators that
/// differ, are read as they are written.
pub proof fn lemma_fields_are_read(
    a: Option<Seq<u8>>,
    d1: u8,
    b: Option<Seq<u8>>,
    d2: u8,
    c: Option<Seq<u8>>,
    d3: u8,
    tail: Seq<u8>,
)
    requires
        is_value_if_any(a),
        is_value_if_any(b),
        is_value_if_any(c),
        ends_value(d1),
        ends_value(d2),
        ends_value(d3),
        d1 != d2,
        d2 != d3,
        d1 != d3,
        tail.len() == 0 || !is_digit(tail[0]),
    ensures
        triple(field(a, d1) + field(b, d2) + field(c, d3) + tail, d1, d2, d3) == (Triple {
            first: magnitude_of(a),
            second: magnitude_of(b),
            third: magnitude_of(c),
            len: (field(a, d1).len() + field(b, d2).len() + field(c, d3).len()) as int,
        }),
{
    reveal(triple);
    let fa = field(a, d1);
    let fb = field(b, d2);
    let fc = field(c, d3);
    let s = fa + fb + fc + tail;
    lemma_first_of_fields(a, d1, b, d2, c, d3, tail, d1);
    let n1 = component_len(s, d1);
    assert(n1 == fa.len());
    let s1 = s.skip(n1);
    assert(s1 =~= field(None, d1) + fb + fc + tail);
    lemma_first_of_fields(None, d1, b, d2, c, d3, tail, d2);
    let n2 = component_len(s1, d2);
    assert(n2 == fb.len());
    let s2 = s.skip(n1 + n2);
    assert(s2 =~= field(None, d1) + field(None, d2) + fc + tail);
    lemma_first_of_fields(None, d1, None, d2, c, d3, tail, d3);
}

/// What follows `P` in a text in the basic format is not in the week
/// format.
proof fn lemma_basic_is_no_week(w: Written)
    requires
        w.well_formed(),
    ensures
        week_format(w.date_text() + w.time_text()) == Outcome::Unmatched(0),
{
    let time = w.time_text();
    lemma_first_of_fields(
        w.year,
        YEARS,
        w.month,
        MONTHS_OR_MINUTES,
        w.day,
        DAYS,
        time,
        WEEKS,
    );
}

/// What follows `P` in a text in the basic format is read in that
/// format, whole.
proof fn lemma_basic_is_read(w: Written)
    requires
        w.well_formed(),
    ensures
        basic_format(w.date_text() + w.time_text()) == Outcome::Matched(
            w.duration(),
            (w.date_text() + w.time_text()).len() as int,
        ),
{
    let date = w.date_text();
    let time = w.time_text();
    let inner = date + time;
    lemma_fields_are_read(w.year, YEARS, w.month, MONTHS_OR_MINUTES, w.day, DAYS, time);
    let found = triple(inner, YEARS, MONTHS_OR_MINUTES, DAYS);
    assert(found.len == date.len());
    if w.timed {
        let none = Seq::<u8>::empty();
        let fields = field(w.hour, HOURS) + field(w.minute, MONTHS_OR_MINUTES) + field(
            w.second,
            SECONDS,
        );
        assert(time =~= seq![TIME] + fields);
        assert(inner[found.len] == TIME);
        assert(inner.skip(found.len + 1) =~= fields + none);
        lemma_fields_are_read(
            w.hour,
            HOURS,
            w.minute,
            MONTHS_OR_MINUTES,
            w.second,
            SECONDS,
            none,
        );
    }
}

/// Every text in the basic format is a duration: that of its values.
pub proof fn lemma_basic_text_is_read(w: Written)
    requires
        w.well_formed(),
    ensures
        duration_of(w.text()) == Ok::<Duration, Failure>(w.duration()),
{
    let inner = w.date_text() + w.time_text();
    assert(w.text().skip(1) =~= inner);
    lemma_basic_is_no_week(w);
    lemma_basic_is_read(w);
}

/// Every text in the week format is a duration: seven days for each
/// week.
pub proof fn lemma_week_text_is_read(v: Seq<u8>)
    requires
        is_value(v),
    ensures
        duration_of(seq![PERIOD] + v.push(WEEKS)) == Ok::<Duration, Failure>(weeks(value_of(v))),
{
    let s = seq![PERIOD] + v.push(WEEKS);
    let none = Seq::<u8>::empty();
    assert(s.skip(1) =~= v.push(WEEKS) + none);
    lemma_field_is_read(v, WEEKS, none, WEEKS);
}

/// Weeks stand alone: whatever follows them is left over, and the text
/// is no duration.
pub proof fn lemma_weeks_stand_alone(v: Seq<u8>, tail: Seq<u8>)
    requires
        is_value(v),
        tail.len() > 0,
        v.len() + tail.len() + 2 <= usize::MAX,
    ensures
        duration_of(seq![PERIOD] + v.push(WEEKS) + tail) == Err::<Duration, Failure>(
            Failure { position: (v.len() + 2) as usize, kind: ErrorKind::Trailing },
        ),
{
    let s = seq![PERIOD] + v.push(WEEKS) + tail;
    assert(s.skip(1) =~= v.push(WEEKS) + tail);
    lemma_field_is_read(v, WEEKS, tail, WEEKS);
}

/// Whether a text is one of the grammar, and `d` the duration of its
/// values: a text in the basic format, or `P`, a value and `W`.
pub open spec fn is_duration_text(s: Seq<u8>, d: Duration) -> bool {
    ||| exists|w: Written| #[trigger] w.well_formed() && w.text() == s && w.duration() == d
    ||| exists|v: Seq<u8>|
        #[trigger] is_value(v) && s == seq![PERIOD] + v.push(WEEKS) && d == weeks(value_of(v))
}

/// The digits that a text starts with are digits, and no digit follows
/// them.
pub proof fn lemma_digit_run_is_digits(s: Seq<u8>)
    ensures
        digit_run(s) <= s.len(),
        all_digits(s.take(digit_run(s) as int)),
        digit_run(s) < s.len() ==> !is_digit(s[digit_run(s) as int]),
    decreases s.len(),
{
    if s.len() > 0 && is_digit(s[0]) {
        let rest = s.drop_first();
        lemma_digit_run_is_digits(rest);
        let n = digit_run(rest) as int;
        assert forall|i: int| 0 <= i < n + 1 implies is_digit(#[trigger] s.take(n + 1)[i]) by {
            if i > 0 {
                assert(s.take(n + 1)[i] == rest.take(n)[i - 1]);
            }
        }
        if n + 1 < s.len() {
            assert(s[n + 1] == rest[n]);
        }
    }
}

/// The value of the component that a text starts with, as it is written.
pub open spec fn lexeme(s: Seq<u8>, designator: u8) -> Option<Seq<u8>> {
    match component(s, designator) {
        Some((_, n)) => Some(s.take(n - 1)),
        None => None,
    }
}

/// A component that is read is a value with its designator, and is
/// worth that value.
pub proof fn lemma_component_is_written(s: Seq<u8>, designator: u8)
    requires
        ends_value(designator),
    ensures
        is_value_if_any(lexeme(s, designator)),
        magnitude_of(lexeme(s, designator)) == component_value(s, designator),
        field(lexeme(s, designator), designator).len() == component_len(s, designator),
        0 <= component_len(s, designator) <= s.len(),
        s == field(lexeme(s, designator), designator) + s.skip(component_len(s, designator)),
{
    reveal(component);
    let n = value_len(s);
    if component(s, designator) is Some {
        let whole = digit_run(s) as int;
        let v = s.take(n);
        lemma_digit_run_is_digits(s);
        if n == whole {
            assert(v.len() > 0 && all_digits(v));
        } else {
            let after = s.skip(whole + 1);
            lemma_digit_run_is_digits(after);
            assert(v.take(whole) =~= s.take(whole));
            assert(v.skip(whole + 1) =~= after.take(digit_run(after) as int));
            assert(is_split_value(v, whole));
        }
        let rest = s.skip(n);
        assert(v + rest =~= s);
        lemma_value_is_read(v, rest);
        assert(v.push(designator) + s.skip(n + 1) =~= s);
    } else {
        assert(Seq::<u8>::empty() + s.skip(0) =~= s);
    }
}

/// The three values that a text starts with, as they are written.
#[verifier::opaque]
pub open spec fn lexemes(s: Seq<u8>, d1: u8, d2: u8, d3: u8) -> (
    Option<Seq<u8>>,
    Option<Seq<u8>>,
    Option<Seq<u8>>,
) {
    let n1 = component_len(s, d1);
    let n2 = component_len(s.skip(n1), d2);
    (lexeme(s, d1), lexeme(s.skip(n1), d2), lexeme(s.skip(n1 + n2), d3))
}

/// Joining four texts one by one from the right joins them.
proof fn lemma_join(a: Seq<u8>, b: Seq<u8>, c: Seq<u8>, rest: Seq<u8>)
    ensures
        a + (b + (c + rest)) == a + b + c + rest,
{
    assert(a + (b + (c + rest)) =~= a + b + c + rest);
}

/// Up to three components that are read are values with their
/// designators, one after the other.
pub proof fn lemma_triple_is_written(s: Seq<u8>, d1: u8, d2: u8, d3: u8)
    requires
        ends_value(d1),
        ends_value(d2),
        ends_value(d3),
    ensures
        ({
            let (a, b, c) = lexemes(s, d1, d2, d3);
            let found = triple(s, d1, d2, d3);
            &&& is_value_if_any(a)
            &&& is_value_if_any(b)
            &&& is_value_if_any(c)
            &&& found.first == magnitude_of(a)
            &&& found.second == magnitude_of(b)
            &&& found.third == magnitude_of(c)
            &&& 0 <= found.len <= s.len()
            &&& s == field(a, d1) + field(b, d2) + field(c, d3) + s.skip(found.len)
        }),
{
    reveal(triple);
    reveal(lexemes);
    let n1 = component_len(s, d1);
    lemma_component_is_written(s, d1);
    let s1 = s.skip(n1);
    let n2 = component_len(s1, d2);
    lemma_component_is_written(s1, d2);
    let s2 = s.skip(n1 + n2);
    assert(s1.skip(n2) == s2) by {
        assert(s1.skip(n2) =~= s2);
    }
    let n3 = component_len(s2, d3);
    lemma_component_is_written(s2, d3);
    let s3 = s.skip(n1 + n2 + n3);
    assert(s2.skip(n3) == s3) by {
        assert(s2.skip(n3) =~= s3);
    }
    let fa = field(lexeme(s, d1), d1);
    let fb = field(lexeme(s1, d2), d2);
    let fc = field(lexeme(s2, d3), d3);
    assert(s2 == fc + s3);
    assert(s1 == fb + (fc + s3));
    assert(s == fa + (fb + (fc + s3)));
    lemma_join(fa, fb, fc, s3);
}

/// What follows `P` in a text in the basic format, as the values that
/// are read from it.
pub open spec fn written_in(inner: Seq<u8>) -> Written {
    let date = triple(inner, YEARS, MONTHS_OR_MINUTES, DAYS);
    let (year, month, day) = lexemes(inner, YEARS, MONTHS_OR_MINUTES, DAYS);
    let timed = date.len < inner.len() && inner[date.len] == TIME;
    let (hour, minute, second) = if timed {
        lexemes(inner.skip(date.len + 1), HOURS, MONTHS_OR_MINUTES, SECONDS)
    } else {
        (None, None, None)
    };
    Written { year, month, day, timed, hour, minute, second }
}

/// What is read in the basic format is worth the values read.
proof fn lemma_basic_values(inner: Seq<u8>, d: Duration, n: int)
    requires
        basic_format(inner) == Outcome::Matched(d, n),
    ensures
        written_in(inner).well_formed(),
        written_in(inner).duration() == d,
{
    lemma_triple_is_written(inner, YEARS, MONTHS_OR_MINUTES, DAYS);
    let date = triple(inner, YEARS, MONTHS_OR_MINUTES, DAYS);
    if date.len < inner.len() && inner[date.len] == TIME {
        lemma_triple_is_written(inner.skip(date.len + 1), HOURS, MONTHS_OR_MINUTES, SECONDS);
    }
}

/// The start of three texts joined one by one from the right, as long
/// as the first two, is the first two.
proof fn lemma_take_of_join(a: Seq<u8>, b: Seq<u8>, rest: Seq<u8>)
    ensures
        (a + (b + rest)).take((a.len() + b.len()) as int) == a + b,
        (a + rest).take(a.len() as int) == a,
{
    assert((a + (b + rest)).take((a.len() + b.len()) as int) =~= a + b);
    assert((a + rest).take(a.len() as int) =~= a);
}

/// What is read in the basic format without a time part is the text of
/// the values read.
proof fn lemma_basic_text_of_date(inner: Seq<u8>, d: Duration, n: int)
    requires
        basic_format(inner) == Outcome::Matched(d, n),
        !written_in(inner).timed,
    ensures
        0 <= n <= inner.len(),
        written_in(inner).date_text() == inner.take(n),
        written_in(inner).time_text() == Seq::<u8>::empty(),
{
    let w = written_in(inner);
    lemma_triple_is_written(inner, YEARS, MONTHS_OR_MINUTES, DAYS);
    let date = triple(inner, YEARS, MONTHS_OR_MINUTES, DAYS);
    lemma_take_of_join(w.date_text(), Seq::<u8>::empty(), inner.skip(date.len));
}

/// What is read in the basic format with a time part is the text of
/// the values read.
proof fn lemma_basic_text_of_time(inner: Seq<u8>, d: Duration, n: int)
    requires
        basic_format(inner) == Outcome::Matched(d, n),
        written_in(inner).timed,
    ensures
        0 <= n <= inner.len(),
        written_in(inner).date_text() + written_in(inner).time_text() == inner.take(n),
{
    let w = written_in(inner);
    lemma_triple_is_written(inner, YEARS, MONTHS_OR_MINUTES, DAYS);
    let date = triple(inner, YEARS, MONTHS_OR_MINUTES, DAYS);
    let after = inner.skip(date.len + 1);
    lemma_triple_is_written(after, HOURS, MONTHS_OR_MINUTES, SECONDS);
    let time = triple(after, HOURS, MONTHS_OR_MINUTES, SECONDS);
    let fields = field(w.hour, HOURS) + field(w.minute, MONTHS_OR_MINUTES) + field(
        w.second,
        SECONDS,
    );
    let rest = after.skip(time.len);
    assert(w.time_text() == seq![TIME] + fields) by {
        assert(w.time_text() =~= seq![TIME] + fields);
    }
    assert(inner.skip(date.len) == seq![TIME] + fields + rest) by {
        assert(after == fields + rest);
        assert(inner.skip(date.len) =~= seq![TIME] + (fields + rest));
        assert(seq![TIME] + (fields + rest) =~= seq![TIME] + fields + rest);
    }
    lemma_take_of_join(w.date_text(), w.time_text(), rest);
    assert(inner == w.date_text() + (w.time_text() + rest));
}

/// What is read in the basic format is the text of the values read.
proof fn lemma_basic_text(inner: Seq<u8>, d: Duration, n: int)
    requires
        basic_format(inner) == Outcome::Matched(d, n),
    ensures
        0 <= n <= inner.len(),
        written_in(inner).text() == seq![PERIOD] + inner.take(n),
{
    let w = written_in(inner);
    if w.timed {
        lemma_basic_text_of_time(inner, d, n);
        assert(w.text() =~= seq![PERIOD] + (w.date_text() + w.time_text()));
    } else {
        lemma_basic_text_of_date(inner, d, n);
        assert(w.text() =~= seq![PERIOD] + w.date_text());
    }
}

/// What is read after `P`, in either format, makes with `P` a text of
/// the grammar, and is worth the values of that text.
pub proof fn lemma_body_is_written(inner: Seq<u8>, d: Duration, n: int)
    requires
        body(inner) == Outcome::Matched(d, n),
    ensures
        0 <= n <= inner.len(),
        is_duration_text(seq![PERIOD] + inner.take(n), d),
{
    let s = seq![PERIOD] + inner.take(n);
    if week_format(inner) is Matched {
        lemma_component_is_written(inner, WEEKS);
        let v = lexeme(inner, WEEKS)->0;
        assert(inner.take(n) =~= v.push(WEEKS));
        assert(is_value(v) && s == seq![PERIOD] + v.push(WEEKS) && d == weeks(value_of(v)));
    } else {
        let w = written_in(inner);
        lemma_basic_values(inner, d, n);
        lemma_basic_text(inner, d, n);
        assert(w.well_formed() && w.text() == s && w.duration() == d);
    }
}

/// A text that is read as a duration is a text of the grammar, and the
/// duration that of its values.
pub proof fn lemma_duration_is_written(s: Seq<u8>, d: Duration)
    requires
        duration_of(s) == Ok::<Duration, Failure>(d),
    ensures
        is_duration_text(s, d),
{
    let inner = s.skip(1);
    lemma_body_is_written(inner, d, inner.len() as int);
    assert(s =~= seq![PERIOD] + inner.take(inner.len() as int));
}

/// The grammar: a text is read as a duration exactly where it is `P`
/// and a value with `W`, or `P` and at least one component, the
/// components in the order `Y`, `M`, `D`, `T`, `H`, `M`, `S` with `T`
/// before those of the time part; and it is read as the duration of the
/// values written in it.
pub proof fn lemma_grammar(s: Seq<u8>, d: Duration)
    ensures
        duration_of(s) == Ok::<Duration, Failure>(d) <==> is_duration_text(s, d),
{
    if duration_of(s) == Ok::<Duration, Failure>(d) {
        lemma_duration_is_written(s, d);
    }
    if is_duration_text(s, d) {
        if exists|w: Written| #[trigger] w.well_formed() && w.text() == s && w.duration() == d {
            let w = choose|w: Written|
                #[trigger] w.well_formed() && w.text() == s && w.duration() == d;
            lemma_basic_text_is_read(w);
        } else {
            let v = choose|v: Seq<u8>|
                #[trigger] is_value(v) && s == seq![PERIOD] + v.push(WEEKS) && d == weeks(
                    value_of(v),
                );
            lemma_week_text_is_read(v);
        }
    }
}

/// Where text is left over, what comes before it is a duration: the
/// text was read as far as the grammar goes.
pub proof fn lemma_trailing_follows_a_duration(s: Seq<u8>, position: usize)
    requires
        s.len() <= usize::MAX,
        duration_of(s) == Err::<Duration, Failure>(
            Failure { position, kind: ErrorKind::Trailing },
        ),
    ensures
        0 < position < s.len(),
        duration_of(s.take(position as int)) is Ok,
{
    let inner = s.skip(1);
    let d = body(inner)->Matched_0;
    let n = body(inner)->Matched_1;
    lemma_body_is_written(inner, d, n);
    assert(s.take(position as int) =~= seq![PERIOD] + inner.take(n));
    lemma_grammar(s.take(position as int), d);
}

/// Where no component is found, nothing was read but `P`, or `P` and
/// `T`.
pub proof fn lemma_empty_follows_the_prefix(s: Seq<u8>, position: usize)
    requires
        s.len() <= usize::MAX,
        duration_of(s) == Err::<Duration, Failure>(Failure { position, kind: ErrorKind::Empty }),
    ensures
        s.len() > 0 && s[0] == PERIOD,
        position == 1 || (position == 2 && s.len() > 1 && s[1] == TIME),
{
    reveal(triple);
    let inner = s.skip(1);
    if inner.len() > 0 {
        assert(inner[0] == s[1]);
    }
}

} // verus!
