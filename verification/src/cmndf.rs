//! The cumulative mean normalized difference: each entry of a difference
//! array divided by the mean of the entries up to it, which makes the
//! detection threshold independent of the signal's amplitude.

use crate::fixed::{DIFFERENCE_LIMIT, MAX_LAGS, ONE};
use vstd::arithmetic::div_mod::{lemma_div_by_multiple, lemma_div_is_ordered};
use vstd::prelude::*;

verus! {

/// The sum of the entries `d[1], ..., d[tau]`.
pub open spec fn running_sum(d: Seq<u128>, tau: int) -> int
    decreases tau,
{
    if tau <= 0 {
        0
    } else {
        running_sum(d, tau - 1) + d[tau]
    }
}

/// The normalized difference at lag `tau`, as a fixed-point number:
/// `d[tau] * tau / running_sum(d, tau)` rounded down, and exactly one at lag
/// zero and wherever the running sum is zero.
pub open spec fn cmndf_at(d: Seq<u128>, tau: int) -> int {
    if tau <= 0 || running_sum(d, tau) <= 0 {
        ONE as int
    } else {
        d[tau] * tau * ONE / running_sum(d, tau)
    }
}

/// The normalized array of a difference array.
pub open spec fn cmndf_seq(d: Seq<u128>) -> Seq<i64> {
    Seq::new(d.len(), |tau: int| cmndf_at(d, tau) as i64)
}

/// The difference arrays that can be normalized in 128-bit arithmetic.
pub open spec fn within_limits(d: Seq<u128>) -> bool {
    &&& d.len() <= MAX_LAGS
    &&& forall|k: int| 0 <= k < d.len() ==> #[trigger] d[k] <= DIFFERENCE_LIMIT
}

/// A running sum over `tau` entries within the limits is at most
/// `tau * DIFFERENCE_LIMIT`, and never below its last entry.
pub proof fn lemma_running_sum_bounds(d: Seq<u128>, tau: int)
    requires
        within_limits(d),
        0 <= tau < d.len(),
    ensures
        0 <= running_sum(d, tau) <= tau * DIFFERENCE_LIMIT,
        tau > 0 ==> d[tau] <= running_sum(d, tau),
    decreases tau,
{
    if tau > 0 {
        lemma_running_sum_bounds(d, tau - 1);
    }
}

/// A normalized difference lies between zero and its lag (or one, at lag
/// zero).
pub proof fn lemma_cmndf_bounds(d: Seq<u128>, tau: int)
    requires
        within_limits(d),
        0 <= tau < d.len(),
    ensures
        0 <= cmndf_at(d, tau),
        cmndf_at(d, tau) <= if tau == 0 { ONE as int } else { tau * ONE },
{
    lemma_running_sum_bounds(d, tau);
    let total = running_sum(d, tau);
    if tau > 0 && total > 0 {
        let entry: int = d[tau] as int;
        let scale: int = tau * ONE;
        assert(entry * tau * ONE == entry * scale) by (nonlinear_arith)
            requires
                scale == tau * ONE,
        ;
        assert(0 <= entry * scale <= scale * total) by (nonlinear_arith)
            requires
                0 <= entry <= total,
                0 <= scale,
        ;
        lemma_div_is_ordered(0, entry * scale, total);
        lemma_div_is_ordered(entry * scale, scale * total, total);
        lemma_div_by_multiple(scale, total);
    }
}

/// Each entry of the normalized array of a difference array within the
/// limits is the normalized difference at that lag.
pub proof fn lemma_cmndf_seq(d: Seq<u128>)
    requires
        within_limits(d),
    ensures
        cmndf_seq(d).len() == d.len(),
        forall|tau: int| 0 <= tau < d.len() ==> #[trigger] cmndf_seq(d)[tau] == cmndf_at(d, tau),
{
    assert forall|tau: int| 0 <= tau < d.len() implies #[trigger] cmndf_seq(d)[tau] == cmndf_at(
        d,
        tau,
    ) by {
        lemma_cmndf_bounds(d, tau);
        assert(tau * ONE <= MAX_LAGS * ONE) by (nonlinear_arith)
            requires
                tau <= MAX_LAGS,
                0 < ONE,
        ;
    }
}

/// The normalized difference at lag one is exactly one.
pub proof fn lemma_cmndf_at_lag_one(d: Seq<u128>)
    ensures
        cmndf_at(d, 1) == ONE,
{
    reveal_with_fuel(running_sum, 2);
    let first: int = d[1] as int;
    if first > 0 {
        assert(first * 1 * ONE == ONE * first) by (nonlinear_arith);
        lemma_div_by_multiple(ONE as int, first);
    }
}

/// Normalizes a difference array.
pub fn cumulative_mean_normalized(difference: &[u128]) -> (cmndf: Vec<i64>)
    requires
        within_limits(difference@),
    ensures
        cmndf@.len() == difference@.len(),
        forall|tau: int|
            0 <= tau < cmndf@.len() ==> cmndf@[tau] == cmndf_at(difference@, tau),
        cmndf@.len() > 0 ==> cmndf@[0] == ONE,
        cmndf@ == cmndf_seq(difference@),
{
    let lags: usize = difference.len();
    let mut cmndf: Vec<i64> = Vec::with_capacity(lags);
    if lags == 0 {
        return cmndf;
    }
    cmndf.push(ONE);
    let mut total: u128 = 0;
    let mut tau: usize = 1;
    while tau < lags
        invariant
            lags == difference@.len(),
            within_limits(difference@),
            1 <= tau <= lags,
            cmndf@.len() == tau,
            total == running_sum(difference@, tau - 1),
            forall|k: int| 0 <= k < tau ==> cmndf@[k] == cmndf_at(difference@, k),
        decreases lags - tau,
    {
        let entry: u128 = difference[tau];
        proof {
            lemma_running_sum_bounds(difference@, tau - 1);
            lemma_running_sum_bounds(difference@, tau as int);
            lemma_cmndf_bounds(difference@, tau as int);
            assert(tau * DIFFERENCE_LIMIT <= MAX_LAGS * DIFFERENCE_LIMIT) by (nonlinear_arith)
                requires
                    tau <= MAX_LAGS,
            ;
            assert(entry * tau <= DIFFERENCE_LIMIT * MAX_LAGS) by (nonlinear_arith)
                requires
                    entry <= DIFFERENCE_LIMIT,
                    tau <= MAX_LAGS,
            ;
        }
        total = total + entry;
        let value: i64 = if total > 0 {
            (entry * (tau as u128) * (ONE as u128) / total) as i64
        } else {
            ONE
        };
        cmndf.push(value);
        tau = tau + 1;
    }
    cmndf
}

} // verus!
