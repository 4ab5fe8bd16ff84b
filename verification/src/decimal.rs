//! Decimal digits: what a run of digits is worth, and the digits of a number.

use vstd::prelude::*;

verus! {

/// The byte `0`.
pub const DIGIT_ZERO: u8 = 0x30;

/// The byte `9`.
pub const DIGIT_NINE: u8 = 0x39;

/// Weight of the first fractional digit, in billionths.
pub const TENTH: u64 = 100_000_000;

/// Whether a byte is an ASCII decimal digit.
pub open spec fn is_digit(b: u8) -> bool {
    DIGIT_ZERO <= b <= DIGIT_NINE
}

/// Whether every byte is a digit.
pub open spec fn all_digits(s: Seq<u8>) -> bool {
    forall|i: int| 0 <= i < s.len() ==> is_digit(#[trigger] s[i])
}

/// The number that a digit stands for.
pub open spec fn digit_value(b: u8) -> nat {
    (b - DIGIT_ZERO) as nat
}

/// The digit that stands for a number below ten.
pub open spec fn digit_of(n: nat) -> u8 {
    (DIGIT_ZERO + n) as u8
}

/// Length of the longest prefix made of digits.
pub open spec fn digit_run(s: Seq<u8>) -> nat
    decreases s.len(),
{
    if s.len() > 0 && is_digit(s[0]) {
        1 + digit_run(s.drop_first())
    } else {
        0
    }
}

/// The number that a sequence of digits denotes.
pub open spec fn digits_value(s: Seq<u8>) -> nat
    decreases s.len(),
{
    if s.len() == 0 {
        0
    } else {
        digits_value(s.drop_last()) * 10 + digit_value(s.last())
    }
}

/// The number that fractional digits denote, when the first of them
/// weighs `weight`; digits beyond the last weight count for nothing.
pub open spec fn fraction_value(s: Seq<u8>, weight: nat) -> nat
    decreases s.len(),
{
    if s.len() == 0 || weight == 0 {
        0
    } else {
        digit_value(s[0]) * weight + fraction_value(s.drop_first(), weight / 10)
    }
}

/// The digits of a number, without leading zeros.
pub open spec fn whole_digits(n: nat) -> Seq<u8>
    decreases n,
{
    if n < 10 {
        seq![digit_of(n)]
    } else {
        whole_digits(n / 10).push(digit_of(n % 10))
    }
}

/// The fractional digits of `n` parts, the first of which weighs
/// `weight`, without trailing zeros.
pub open spec fn fraction_digits(n: nat, weight: nat) -> Seq<u8>
    decreases weight,
{
    if n == 0 || weight == 0 {
        Seq::empty()
    } else {
        seq![digit_of(n / weight)] + fraction_digits(n % weight, weight / 10)
    }
}

/// Whether a number is a power of ten.
pub open spec fn is_power_of_ten(w: nat) -> bool
    decreases w,
{
    w == 1 || (w >= 10 && w % 10 == 0 && is_power_of_ten(w / 10))
}

/// A run of digits followed by something else ends where the digits end.
pub proof fn lemma_digit_run_of_digits(digits: Seq<u8>, rest: Seq<u8>)
    requires
        all_digits(digits),
        rest.len() == 0 || !is_digit(rest[0]),
    ensures
        digit_run(digits + rest) == digits.len(),
    decreases digits.len(),
{
    let s = digits + rest;
    if digits.len() == 0 {
        assert(s =~= rest);
    } else {
        assert(s[0] == digits[0]);
        assert(s.drop_first() =~= digits.drop_first() + rest);
        lemma_digit_run_of_digits(digits.drop_first(), rest);
    }
}

/// The digits of a number are digits, and denote it.
pub proof fn lemma_whole_digits(n: nat)
    ensures
        whole_digits(n).len() > 0,
        all_digits(whole_digits(n)),
        digits_value(whole_digits(n)) == n,
    decreases n,
{
    if n < 10 {
        let s = whole_digits(n);
        assert(s.drop_last() =~= Seq::<u8>::empty());
        assert(digits_value(s.drop_last()) == 0);
    } else {
        lemma_whole_digits(n / 10);
        let s = whole_digits(n);
        assert(s.drop_last() =~= whole_digits(n / 10));
    }
}

/// The fractional digits of a number are digits, and denote it; there is
/// at least one where the number is not zero.
pub proof fn lemma_fraction_digits(n: nat, weight: nat)
    requires
        is_power_of_ten(weight),
        n < 10 * weight,
    ensures
        all_digits(fraction_digits(n, weight)),
        fraction_value(fraction_digits(n, weight), weight) == n,
        n != 0 ==> fraction_digits(n, weight).len() > 0,
    decreases weight,
{
    if n != 0 {
        let head = n / weight;
        let tail = n % weight;
        assert(head < 10 && n == head * weight + tail) by (nonlinear_arith)
            requires
                head == n / weight,
                tail == n % weight,
                n < 10 * weight,
                weight > 0,
        ;
        let s = fraction_digits(n, weight);
        let t = fraction_digits(tail, weight / 10);
        assert(s.drop_first() =~= t);
        if weight == 1 {
            assert(tail == 0);
        } else {
            lemma_fraction_digits(tail, weight / 10);
        }
    }
}

} // verus!
