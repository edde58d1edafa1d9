//! Decimal numbers as they stand in sentence fields, read into fixed point.

use crate::gnss::nmea::{find_byte, position, NmeaError, DECIMAL_POINT};
use vstd::prelude::*;
use vstd::slice::slice_subrange;

verus! {

/// Whether `byte` is one of the digits `0` to `9`.
pub open spec fn is_digit(byte: u8) -> bool {
    0x30 <= byte <= 0x39
}

/// Whether `text` consists of digits only.
pub open spec fn all_digits(text: Seq<u8>) -> bool {
    forall|i: int| 0 <= i < text.len() ==> is_digit(#[trigger] text[i])
}

/// The number that the digits `text` spell in base ten.
pub open spec fn digits_value(text: Seq<u8>) -> nat
    decreases text.len(),
{
    if text.len() == 0 {
        0
    } else {
        digits_value(text.drop_last()) * 10 + (text.last() - 0x30) as nat
    }
}

/// Ten to the power `n`.
pub open spec fn pow10(n: nat) -> nat
    decreases n,
{
    if n == 0 {
        1
    } else {
        10 * pow10((n - 1) as nat)
    }
}

/// The most digits that a run of digits or the whole part of a decimal may have.
pub const MAX_DIGITS: usize = 9;

/// The most decimal places that a decimal can be scaled by.
pub const MAX_PLACES: u32 = 9;

/// The powers of ten up to the eighteenth.
pub proof fn lemma_pow10_values()
    ensures
        pow10(0) == 1,
        pow10(1) == 10,
        pow10(2) == 100,
        pow10(3) == 1_000,
        pow10(4) == 10_000,
        pow10(5) == 100_000,
        pow10(6) == 1_000_000,
        pow10(7) == 10_000_000,
        pow10(8) == 100_000_000,
        pow10(9) == 1_000_000_000,
        pow10(18) == 1_000_000_000_000_000_000,
{
    reveal_with_fuel(pow10, 10);
    assert(pow10(9) == 1_000_000_000);
    assert(pow10(18) == pow10(9) * 1_000_000_000) by {
        reveal_with_fuel(pow10, 10);
    }
}

/// Powers of ten grow with the exponent.
pub proof fn lemma_pow10_grows(a: nat, b: nat)
    requires
        a <= b,
    ensures
        1 <= pow10(a) <= pow10(b),
        pow10(b) == pow10(a) * pow10((b - a) as nat),
    decreases b,
{
    if a == b {
        lemma_pow10_positive(a);
        assert(pow10((b - a) as nat) == 1);
        assert(pow10(a) * 1 == pow10(a));
    } else {
        lemma_pow10_grows(a, (b - 1) as nat);
        assert(pow10(b) == 10 * pow10((b - 1) as nat));
        assert(pow10((b - a) as nat) == 10 * pow10((b - a - 1) as nat));
        assert(pow10(b) == pow10(a) * pow10((b - a) as nat)) by (nonlinear_arith)
            requires
                pow10(b) == 10 * pow10((b - 1) as nat),
                pow10((b - a) as nat) == 10 * pow10((b - a - 1) as nat),
                pow10((b - 1) as nat) == pow10(a) * pow10((b - a - 1) as nat),
        ;
    }
}

/// No power of ten is zero.
proof fn lemma_pow10_positive(n: nat)
    ensures
        pow10(n) >= 1,
    decreases n,
{
    if n > 0 {
        lemma_pow10_positive((n - 1) as nat);
    }
}

/// A run of `n` digits spells a number below ten to the `n`.
pub proof fn lemma_digits_value_bound(text: Seq<u8>)
    requires
        all_digits(text),
    ensures
        digits_value(text) < pow10(text.len()),
    decreases text.len(),
{
    if text.len() > 0 {
        let front = text.drop_last();
        assert forall|i: int| 0 <= i < front.len() implies is_digit(#[trigger] front[i]) by {
            assert(front[i] == text[i]);
        }
        lemma_digits_value_bound(front);
        assert(is_digit(text[text.len() - 1]));
    }
}

/// Ten to the power `n`, for the exponents that fit.
pub fn power_of_ten(n: u32) -> (power: u64)
    requires
        n <= 18,
    ensures
        power == pow10(n as nat),
{
    let mut power: u64 = 1;
    let mut i: u32 = 0;
    while i < n
        invariant
            i <= n <= 18,
            power == pow10(i as nat),
        decreases n - i,
    {
        proof {
            lemma_pow10_grows((i + 1) as nat, 18);
            lemma_pow10_values();
        }
        power = power * 10;
        i += 1;
    }
    power
}

/// Reads a run of one to nine digits as a number; `None` for anything else.
pub fn parse_digits(text: &[u8]) -> (value: Option<u64>)
    ensures
        value is Some <==> 1 <= text@.len() <= MAX_DIGITS && all_digits(text@),
        value matches Some(v) ==> v == digits_value(text@),
{
    if text.len() == 0 || text.len() > MAX_DIGITS {
        return None;
    }
    let mut value: u64 = 0;
    let mut i: usize = 0;
    assert(text@.take(0) =~= Seq::empty());
    while i < text.len()
        invariant
            i <= text.len() <= MAX_DIGITS,
            all_digits(text@.take(i as int)),
            value == digits_value(text@.take(i as int)),
        decreases text.len() - i,
    {
        let byte = text[i];
        if byte < 0x30 || byte > 0x39 {
            assert(!is_digit(text@[i as int]));
            return None;
        }
        proof {
            let seen = text@.take(i as int);
            let next = text@.take(i + 1);
            assert(next.drop_last() =~= seen);
            assert(next.last() == byte);
            assert forall|j: int| 0 <= j < next.len() implies is_digit(#[trigger] next[j]) by {
                if j < i {
                    assert(seen[j] == next[j]);
                }
            }
            lemma_digits_value_bound(seen);
            lemma_pow10_grows(i as nat, 9);
            lemma_pow10_values();
        }
        value = value * 10 + (byte - 0x30) as u64;
        i += 1;
    }
    assert(text@.take(i as int) =~= text@);
    Some(value)
}

/// The whole part of a decimal: what stands before the decimal point.
pub open spec fn whole_part(text: Seq<u8>) -> Seq<u8> {
    text.take(position(text, DECIMAL_POINT))
}

/// The fraction of a decimal: what stands after the decimal point, empty
/// where there is no point.
pub open spec fn fraction_part(text: Seq<u8>) -> Seq<u8> {
    let point = position(text, DECIMAL_POINT);
    if point < text.len() {
        text.skip(point + 1)
    } else {
        Seq::empty()
    }
}

/// The first `places` digits of `fraction`, as a count of units of ten to the
/// minus `places`. Digits beyond `places` are cut off.
pub open spec fn scaled_fraction(fraction: Seq<u8>, places: nat) -> nat {
    if fraction.len() <= places {
        digits_value(fraction) * pow10((places - fraction.len()) as nat)
    } else {
        digits_value(fraction.take(places as int))
    }
}

/// The value of the decimal `text`, in units of ten to the minus `places`,
/// rounded towards zero. A decimal is one to nine digits, then optionally a
/// decimal point and any number of digits; anything else has no value.
pub open spec fn decimal(text: Seq<u8>, places: nat) -> Option<nat> {
    let whole = whole_part(text);
    let fraction = fraction_part(text);
    if 1 <= whole.len() <= MAX_DIGITS && all_digits(whole) && all_digits(fraction) {
        Some(digits_value(whole) * pow10(places) + scaled_fraction(fraction, places))
    } else {
        None
    }
}

/// A decimal scaled by at most nine places stays below ten to the eighteenth.
pub proof fn lemma_decimal_bound(text: Seq<u8>, places: nat)
    requires
        places <= MAX_PLACES,
        decimal(text, places) is Some,
    ensures
        decimal(text, places)->Some_0 < pow10(whole_part(text).len() + places),
        decimal(text, places)->Some_0 < pow10(18),
{
    let whole = whole_part(text);
    let fraction = fraction_part(text);
    lemma_digits_value_bound(whole);
    lemma_scaled_fraction_bound(fraction, places);
    lemma_pow10_grows(places, whole.len() + places);
    lemma_pow10_grows(whole.len() + places, 18);
    let w = digits_value(whole);
    let f = scaled_fraction(fraction, places);
    let pp = pow10(places);
    let pw = pow10(whole.len());
    assert(pow10(whole.len() + places) == pp * pw);
    assert(w * pp + f < pp * pw) by (nonlinear_arith)
        requires
            w < pw,
            f < pp,
    ;
}

/// A fraction scaled to `places` places stays below ten to the `places`.
pub proof fn lemma_scaled_fraction_bound(fraction: Seq<u8>, places: nat)
    requires
        all_digits(fraction),
    ensures
        scaled_fraction(fraction, places) < pow10(places),
{
    if fraction.len() <= places {
        lemma_digits_value_bound(fraction);
        lemma_pow10_grows(fraction.len(), places);
        lemma_pow10_positive((places - fraction.len()) as nat);
        let d = digits_value(fraction);
        let a = pow10(fraction.len());
        let b = pow10((places - fraction.len()) as nat);
        assert(d * b < a * b) by (nonlinear_arith)
            requires
                d < a,
                b >= 1,
        ;
    } else {
        let kept = fraction.take(places as int);
        assert forall|i: int| 0 <= i < kept.len() implies is_digit(#[trigger] kept[i]) by {
            assert(kept[i] == fraction[i]);
        }
        lemma_digits_value_bound(kept);
    }
}

/// Reads a decimal field into fixed point: its value in units of ten to the
/// minus `places`, rounded towards zero. `InvalidField` for what is no decimal.
#[verifier::loop_isolation(false)]
pub fn parse_field(data: &[u8], places: u32) -> (value: Result<u64, NmeaError>)
    requires
        places <= MAX_PLACES,
    ensures
        match value {
            Ok(v) => decimal(data@, places as nat) == Some(v as nat),
            Err(e) => e == NmeaError::InvalidField && decimal(data@, places as nat) is None,
        },
{
    let point = find_byte(data, DECIMAL_POINT);
    let whole_text = slice_subrange(data, 0, point);
    assert(whole_text@ =~= whole_part(data@));
    let whole = match parse_digits(whole_text) {
        Some(whole) => whole,
        None => { return Err(NmeaError::InvalidField); },
    };
    let fraction_start: usize = if point < data.len() {
        point + 1
    } else {
        point
    };
    let fraction_text = slice_subrange(data, fraction_start, data.len());
    assert(fraction_text@ =~= fraction_part(data@));
    let mut fraction: u64 = 0;
    let mut kept: u32 = 0;
    let mut i: usize = 0;
    assert(fraction_text@.take(0) =~= Seq::empty());
    while i < fraction_text.len()
        invariant
            i <= fraction_text.len(),
            places <= MAX_PLACES,
            all_digits(fraction_text@.take(i as int)),
            kept as int == if i <= places { i as int } else { places as int },
            fraction == digits_value(fraction_text@.take(kept as int)),
        decreases fraction_text.len() - i,
    {
        let byte = fraction_text[i];
        if byte < 0x30 || byte > 0x39 {
            assert(!is_digit(fraction_text@[i as int]));
            return Err(NmeaError::InvalidField);
        }
        proof {
            let seen = fraction_text@.take(i as int);
            let next = fraction_text@.take(i + 1);
            assert forall|j: int| 0 <= j < next.len() implies is_digit(#[trigger] next[j]) by {
                if j < i {
                    assert(seen[j] == next[j]);
                }
            }
        }
        if kept < places {
            proof {
                let seen = fraction_text@.take(i as int);
                let next = fraction_text@.take(i + 1);
                assert(next.drop_last() =~= seen);
                assert(next.last() == byte);
                lemma_digits_value_bound(seen);
                lemma_pow10_grows(i as nat, 9);
                lemma_pow10_values();
            }
            fraction = fraction * 10 + (byte - 0x30) as u64;
            kept += 1;
        }
        i += 1;
    }
    assert(fraction_text@.take(i as int) =~= fraction_text@);
    proof {
        lemma_pow10_values();
        lemma_digits_value_bound(whole_text@);
        lemma_pow10_grows(whole_text@.len(), 9);
        lemma_pow10_grows(places as nat, 9);
        lemma_pow10_grows((places - kept) as nat, 9);
        lemma_scaled_fraction_bound(fraction_text@, places as nat);
    }
    let unit = power_of_ten(places);
    let padding = power_of_ten(places - kept);
    assert(whole * unit <= 1_000_000_000 * 1_000_000_000) by (nonlinear_arith)
        requires
            whole < 1_000_000_000,
            unit <= 1_000_000_000,
    ;
    assert(fraction * padding == scaled_fraction(fraction_text@, places as nat)) by {
        if fraction_text@.len() <= places {
            assert(fraction_text@.take(kept as int) =~= fraction_text@);
        } else {
            assert(padding == 1);
        }
    }
    Ok(whole * unit + fraction * padding)
}

} // verus!
