//! Timestamps are seconds since the epoch; analytics group them by the
//! calendar day they fall on, which for this encoding is the floor of the
//! division by the seconds of one day.

use vstd::prelude::*;
use vstd::arithmetic::div_mod::{
    lemma_fundamental_div_mod, lemma_fundamental_div_mod_converse, lemma_mod_bound,
};

verus! {

/// Seconds in one calendar day.
pub open spec fn seconds_per_day() -> int {
    86400
}

/// The calendar day a timestamp falls on (days since the epoch, negative
/// before it), ignoring the time of day.
pub open spec fn day_of_spec(ts: int) -> int {
    ts / 86400
}

/// Computes the calendar day of a timestamp.
pub fn day_of(ts: i64) -> (d: i64)
    ensures
        d == day_of_spec(ts as int),
{
    if ts >= 0 {
        let q = (ts as u64) / 86400;
        q as i64
    } else {
        let m = (-(ts + 1)) as u64;
        let q = m / 86400;
        let d = -((q as i64) + 1);
        proof {
            let n = m as int;
            lemma_fundamental_div_mod(n, 86400);
            lemma_mod_bound(n, 86400);
            let qq = n / 86400;
            let r = n % 86400;
            assert(ts as int == (-qq - 1) * 86400 + (86399 - r)) by {
                assert(n == 86400 * qq + r);
                assert(ts as int == -n - 1);
            }
            lemma_fundamental_div_mod_converse(ts as int, 86400, -qq - 1, 86399 - r);
        }
        d
    }
}

/// Two timestamps inside the same calendar day group together.
pub proof fn lemma_same_day(a: int, b: int)
    requires
        day_of_spec(a) * 86400 <= b < (day_of_spec(a) + 1) * 86400,
    ensures
        day_of_spec(b) == day_of_spec(a),
{
    lemma_fundamental_div_mod_converse(b, 86400, day_of_spec(a), b - day_of_spec(a) * 86400);
}

} // verus!
