//! The arithmetic shared by both trackers: which hundredth of a whole is
//! not spare.
//!
//! The quantity of interest is `100 × (1 − spare / whole)`, cut off toward
//! zero. It is computed on integers, so the result is exact for every pair
//! of counters, however large.

use vstd::prelude::*;

verus! {

/// The share of `whole` that is not `spare`, in hundredths, cut off toward
/// zero: the integer part of `100 × (1 − spare / whole)`.
pub open spec fn percent_used(whole: nat, spare: nat) -> nat
    recommends
        0 < whole,
        spare <= whole,
{
    (100 * (whole - spare) / (whole as int)) as nat
}

/// `percent_used` is the integer part of the exact quotient: it is the one
/// number `p` with `p / 100 <= 1 − spare / whole < (p + 1) / 100`, written
/// here without fractions. It never exceeds 100.
pub proof fn lemma_percent_used_is_truncation(whole: nat, spare: nat)
    requires
        0 < whole,
        spare <= whole,
    ensures
        percent_used(whole, spare) <= 100,
        percent_used(whole, spare) * whole <= 100 * (whole - spare),
        100 * (whole - spare) < (percent_used(whole, spare) + 1) * whole,
{
    let n: int = 100 * (whole - spare);
    let d: int = whole as int;
    assert(0 <= n / d && (n / d) * d <= n && n < (n / d + 1) * d && (n <= 100 * d ==> n / d
        <= 100)) by (nonlinear_arith)
        requires
            0 <= n,
            0 < d,
    ;
}

/// No other number lies within one hundredth below the exact quotient: the
/// two bounds of `lemma_percent_used_is_truncation` determine the result.
pub proof fn lemma_percent_used_is_unique(whole: nat, spare: nat, p: nat)
    requires
        0 < whole,
        spare <= whole,
        p * whole <= 100 * (whole - spare),
        100 * (whole - spare) < (p + 1) * whole,
    ensures
        p == percent_used(whole, spare),
{
    lemma_percent_used_is_truncation(whole, spare);
    let q: nat = percent_used(whole, spare);
    let n: int = 100 * (whole - spare);
    let d: int = whole as int;
    assert(p == q) by (nonlinear_arith)
        requires
            0 < d,
            p * d <= n,
            n < (p + 1) * d,
            q * d <= n,
            n < (q + 1) * d,
    ;
}

/// The result is 0 exactly when less than a hundredth of the whole is not
/// spare, and 100 exactly when nothing is spare.
pub proof fn lemma_percent_used_extremes(whole: nat, spare: nat)
    requires
        0 < whole,
        spare <= whole,
    ensures
        percent_used(whole, spare) == 0 <==> 100 * (whole - spare) < whole,
        percent_used(whole, spare) == 100 <==> spare == 0,
{
    lemma_percent_used_is_truncation(whole, spare);
    let p: nat = percent_used(whole, spare);
    let n: int = 100 * (whole - spare);
    let d: int = whole as int;
    assert((p == 0 <==> n < d) && (p >= 100 <==> n >= 100 * d)) by (nonlinear_arith)
        requires
            0 < d,
            p * d <= n,
            n < (p + 1) * d,
    ;
}

/// Computes `percent_used` without overflow, whatever the size of the
/// counters.
pub(crate) fn compute_percent_used(whole: u64, spare: u64) -> (p: u8)
    requires
        0 < whole,
        spare <= whole,
    ensures
        p == percent_used(whole as nat, spare as nat),
        p <= 100,
        p * whole <= 100 * (whole - spare) < (p + 1) * whole,
{
    proof {
        lemma_percent_used_is_truncation(whole as nat, spare as nat);
    }
    let used: u128 = (whole - spare) as u128;
    let hundredths: u128 = 100 * used / (whole as u128);
    hundredths as u8
}

} // verus!
