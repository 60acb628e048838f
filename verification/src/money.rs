//! Monetary amounts: stored and summed as integer minor units (cents),
//! split into major-unit parts only at the API boundary, where they are
//! rendered with two decimal digits.

use vstd::prelude::*;
use vstd::arithmetic::div_mod::{lemma_fundamental_div_mod, lemma_fundamental_div_mod_converse};

verus! {

/// The minor units of an amount of `whole` major units and `hundredths`
/// hundredth parts.
pub open spec fn to_minor_spec(whole: int, hundredths: int) -> int {
    whole * 100 + hundredths
}

/// Combines major-unit parts into minor units.
pub fn minor_units(whole: i32, hundredths: i32) -> (r: i64)
    requires
        0 <= hundredths < 100,
    ensures
        r == to_minor_spec(whole as int, hundredths as int),
{
    (whole as i64) * 100 + (hundredths as i64)
}

/// Splits a non-negative minor-unit amount back into major-unit parts.
pub fn price_parts(minor: i64) -> (r: (i64, i64))
    requires
        minor >= 0,
    ensures
        r.0 == minor as int / 100,
        r.1 == minor as int % 100,
        0 <= r.1 < 100,
        minor == to_minor_spec(r.0 as int, r.1 as int),
{
    let m = minor as u64;
    let whole = (m / 100) as i64;
    let cents = (m % 100) as i64;
    proof {
        lemma_fundamental_div_mod(minor as int, 100);
    }
    (whole, cents)
}

/// An amount given in major-unit parts survives the trip through minor
/// units unchanged: storing `whole.hundredths` as cents and splitting the
/// cents again returns exactly the same parts.
pub proof fn lemma_minor_round_trip(whole: int, hundredths: int)
    requires
        whole >= 0,
        0 <= hundredths < 100,
    ensures
        to_minor_spec(whole, hundredths) / 100 == whole,
        to_minor_spec(whole, hundredths) % 100 == hundredths,
{
    lemma_fundamental_div_mod_converse(whole * 100 + hundredths, 100, whole, hundredths);
}

/// A non-negative minor-unit amount survives the trip through major-unit
/// parts unchanged.
pub proof fn lemma_parts_round_trip(minor: int)
    requires
        minor >= 0,
    ensures
        to_minor_spec(minor / 100, minor % 100) == minor,
{
    lemma_fundamental_div_mod(minor, 100);
}

/// Sums are clamped to the non-negative range of a stored price before
/// they are rendered.
pub open spec fn clamp_total(t: int) -> int {
    if t < 0 {
        0
    } else if t > i32::MAX {
        i32::MAX as int
    } else {
        t
    }
}

} // verus!
