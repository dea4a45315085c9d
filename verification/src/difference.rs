//! The squared-difference function: how much a window differs from itself
//! shifted by each candidate lag.

use crate::fixed::SQUARE_LIMIT;
use vstd::prelude::*;

verus! {

/// The sum over `i < n` of `(s[i] - s[i + tau])^2`.
pub open spec fn squared_difference_sum(s: Seq<i32>, tau: int, n: int) -> int
    decreases n,
{
    if n <= 0 {
        0
    } else {
        squared_difference_sum(s, tau, n - 1) + (s[n - 1] - s[n - 1 + tau]) * (s[n - 1] - s[n - 1
            + tau])
    }
}

/// The difference at lag `tau`: the squared differences summed over the
/// first half of the window.
pub open spec fn difference_at(s: Seq<i32>, tau: int) -> int {
    squared_difference_sum(s, tau, (s.len() / 2) as int)
}

/// The difference array of a window: one entry for each lag below half its
/// length.
pub open spec fn difference_seq(s: Seq<i32>) -> Seq<u128> {
    Seq::new(s.len() / 2, |tau: int| difference_at(s, tau) as u128)
}

/// A sum of `n` squared sample differences is non-negative and at most
/// `n * SQUARE_LIMIT`.
pub proof fn lemma_squared_difference_sum_bounds(s: Seq<i32>, tau: int, n: int)
    requires
        0 <= n,
    ensures
        0 <= squared_difference_sum(s, tau, n) <= n * SQUARE_LIMIT,
    decreases n,
{
    if n > 0 {
        lemma_squared_difference_sum_bounds(s, tau, n - 1);
        let delta: int = s[n - 1] - s[n - 1 + tau];
        assert(0 <= delta * delta < 0x1_0000_0000_0000_0000) by (nonlinear_arith)
            requires
                -0x1_0000_0000 < delta < 0x1_0000_0000,
        ;
    }
}

/// Where the window is no longer than `limit` samples, each entry of its
/// difference array is the difference at that lag, and is at most
/// `limit / 2 * SQUARE_LIMIT`.
pub proof fn lemma_difference_seq(s: Seq<i32>, limit: int)
    requires
        s.len() <= limit <= usize::MAX,
    ensures
        difference_seq(s).len() == s.len() / 2,
        forall|tau: int|
            0 <= tau < s.len() / 2 ==> #[trigger] difference_seq(s)[tau] == difference_at(s, tau),
        forall|tau: int|
            0 <= tau < s.len() / 2 ==> #[trigger] difference_seq(s)[tau] <= (limit / 2)
                * SQUARE_LIMIT,
{
    let half: int = (s.len() / 2) as int;
    assert(half * SQUARE_LIMIT <= (limit / 2) * SQUARE_LIMIT <= 0x7FFF_FFFF_FFFF_FFFF
        * SQUARE_LIMIT) by (nonlinear_arith)
        requires
            0 <= half <= limit / 2 <= 0x7FFF_FFFF_FFFF_FFFF,
    ;
    assert forall|tau: int| 0 <= tau < half implies #[trigger] difference_seq(s)[tau]
        == difference_at(s, tau) && difference_seq(s)[tau] <= (limit / 2) * SQUARE_LIMIT by {
        lemma_squared_difference_sum_bounds(s, tau, half);
    }
}

/// The window repeats after `period` samples.
pub open spec fn has_period(s: Seq<i32>, period: int) -> bool {
    &&& 0 < period
    &&& forall|i: int, j: int|
        0 <= i && j == i + period && j < s.len() ==> #[trigger] s[i] == #[trigger] s[j]
}

/// A window that repeats after `period` samples does not differ from itself
/// at that lag.
pub proof fn lemma_period_has_no_difference(s: Seq<i32>, period: int, n: int)
    requires
        has_period(s, period),
        0 <= n,
        n + period <= s.len(),
    ensures
        squared_difference_sum(s, period, n) == 0,
    decreases n,
{
    if n > 0 {
        lemma_period_has_no_difference(s, period, n - 1);
        assert(s[n - 1] == s[n - 1 + period]);
    }
}

/// Computes the difference of the window at one lag.
pub fn lag_difference(samples: &[i32], tau: usize) -> (sum: u128)
    requires
        tau < samples@.len() / 2,
    ensures
        sum == difference_at(samples@, tau as int),
        sum <= (samples@.len() / 2) * SQUARE_LIMIT,
{
    let half: usize = samples.len() / 2;
    let mut sum: u128 = 0;
    let mut i: usize = 0;
    while i < half
        invariant
            half == samples@.len() / 2,
            tau < half,
            i <= half,
            sum == squared_difference_sum(samples@, tau as int, i as int),
            sum <= i * SQUARE_LIMIT,
        decreases half - i,
    {
        let delta: i128 = samples[i] as i128 - samples[i + tau] as i128;
        assert(0 <= delta * delta < 0x1_0000_0000_0000_0000) by (nonlinear_arith)
            requires
                -0x1_0000_0000 < delta < 0x1_0000_0000,
        ;
        let square: i128 = delta * delta;
        sum = sum + square as u128;
        i = i + 1;
    }
    sum
}

/// Computes the difference array of a window.
pub fn difference_function(samples: &[i32]) -> (difference: Vec<u128>)
    ensures
        difference@.len() == samples@.len() / 2,
        forall|tau: int|
            0 <= tau < difference@.len() ==> difference@[tau] == difference_at(samples@, tau),
        forall|tau: int|
            0 <= tau < difference@.len() ==> difference@[tau] <= (samples@.len() / 2)
                * SQUARE_LIMIT,
        difference@ == difference_seq(samples@),
{
    let half: usize = samples.len() / 2;
    let mut difference: Vec<u128> = Vec::with_capacity(half);
    let mut tau: usize = 0;
    while tau < half
        invariant
            half == samples@.len() / 2,
            tau <= half,
            difference@.len() == tau,
            forall|k: int| 0 <= k < tau ==> difference@[k] == difference_at(samples@, k),
            forall|k: int| 0 <= k < tau ==> difference@[k] <= half * SQUARE_LIMIT,
        decreases half - tau,
    {
        let entry: u128 = lag_difference(samples, tau);
        difference.push(entry);
        tau = tau + 1;
    }
    difference
}

} // verus!
