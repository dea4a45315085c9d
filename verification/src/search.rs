//! The threshold search: the first lag whose normalized difference drops
//! below the threshold, followed down to the bottom of that dip.

use vstd::prelude::*;

verus! {

/// Lags zero and one are never candidates.
pub const FIRST_LAG: usize = 2;

/// The first lag at or after `from` whose value is below the threshold.
pub open spec fn first_crossing_from(c: Seq<i64>, threshold: i64, from: int) -> Option<int>
    decreases c.len() - from,
{
    if from >= c.len() {
        None
    } else if c[from] < threshold {
        Some(from)
    } else {
        first_crossing_from(c, threshold, from + 1)
    }
}

/// The lag at which the strictly decreasing run that starts at `tau` ends.
pub open spec fn dip_bottom(c: Seq<i64>, tau: int) -> int
    decreases c.len() - tau,
{
    if tau + 1 < c.len() && c[tau + 1] < c[tau] {
        dip_bottom(c, tau + 1)
    } else {
        tau
    }
}

/// The lag estimate: the bottom of the dip entered at the first crossing,
/// or nothing where no candidate lag is below the threshold.
pub open spec fn lag_estimate(c: Seq<i64>, threshold: i64) -> Option<int> {
    match first_crossing_from(c, threshold, FIRST_LAG as int) {
        Some(start) => Some(dip_bottom(c, start)),
        None => None,
    }
}

/// What the first crossing is: a candidate lag below the threshold with no
/// candidate before it below the threshold; and it is absent exactly when no
/// candidate lag is below the threshold.
pub proof fn lemma_first_crossing(c: Seq<i64>, threshold: i64, from: int)
    requires
        0 <= from,
    ensures
        match first_crossing_from(c, threshold, from) {
            Some(start) => {
                &&& from <= start < c.len()
                &&& c[start] < threshold
                &&& forall|k: int| from <= k < start ==> c[k] >= threshold
            },
            None => forall|k: int| from <= k < c.len() ==> c[k] >= threshold,
        },
    decreases c.len() - from,
{
    if from < c.len() && c[from] >= threshold {
        lemma_first_crossing(c, threshold, from + 1);
    }
}

/// What the bottom of a dip is: the values fall strictly from `tau` down to
/// it, and the value after it, if there is one, is not smaller.
pub proof fn lemma_dip_bottom(c: Seq<i64>, tau: int)
    requires
        0 <= tau < c.len(),
    ensures
        tau <= dip_bottom(c, tau) < c.len(),
        forall|k: int| tau <= k < dip_bottom(c, tau) ==> c[k + 1] < #[trigger] c[k],
        dip_bottom(c, tau) + 1 < c.len() ==> c[dip_bottom(c, tau) + 1] >= c[dip_bottom(c, tau)],
        c[dip_bottom(c, tau)] <= c[tau],
    decreases c.len() - tau,
{
    if tau + 1 < c.len() && c[tau + 1] < c[tau] {
        lemma_dip_bottom(c, tau + 1);
    }
}

/// An estimate, where there is one, is a candidate lag whose value is below
/// the threshold.
pub proof fn lemma_lag_estimate_below_threshold(c: Seq<i64>, threshold: i64)
    ensures
        match lag_estimate(c, threshold) {
            Some(tau) => FIRST_LAG <= tau < c.len() && c[tau] < threshold,
            None => forall|k: int| FIRST_LAG <= k < c.len() ==> c[k] >= threshold,
        },
{
    lemma_first_crossing(c, threshold, FIRST_LAG as int);
    if let Some(start) = first_crossing_from(c, threshold, FIRST_LAG as int) {
        lemma_dip_bottom(c, start);
    }
}

/// An estimate is a local minimum: the value after it, if there is one, is
/// not smaller, and the value before it is larger wherever the lag before
/// it is a candidate too.
pub proof fn lemma_lag_estimate_is_local_minimum(c: Seq<i64>, threshold: i64)
    ensures
        lag_estimate(c, threshold) matches Some(tau) ==> {
            &&& FIRST_LAG <= tau < c.len()
            &&& tau + 1 < c.len() ==> c[tau + 1] >= c[tau]
            &&& tau > FIRST_LAG ==> c[tau - 1] > c[tau]
        },
{
    lemma_first_crossing(c, threshold, FIRST_LAG as int);
    if let Some(start) = first_crossing_from(c, threshold, FIRST_LAG as int) {
        lemma_dip_bottom(c, start);
        let tau = dip_bottom(c, start);
        if tau > start {
            assert(c[(tau - 1) + 1] < c[tau - 1]);
        }
    }
}

/// Follows a dip from `start` down to its bottom.
pub fn descend(cmndf: &[i64], start: usize) -> (bottom: usize)
    requires
        start < cmndf@.len(),
    ensures
        bottom == dip_bottom(cmndf@, start as int),
        start <= bottom < cmndf@.len(),
{
    let lags: usize = cmndf.len();
    let mut bottom: usize = start;
    while bottom + 1 < lags && cmndf[bottom + 1] < cmndf[bottom]
        invariant
            lags == cmndf@.len(),
            start <= bottom < cmndf@.len(),
            dip_bottom(cmndf@, bottom as int) == dip_bottom(cmndf@, start as int),
        decreases cmndf@.len() - bottom,
    {
        bottom = bottom + 1;
    }
    bottom
}

/// Searches a normalized array for the lag estimate.
pub fn threshold_search(cmndf: &[i64], threshold: i64) -> (estimate: Option<usize>)
    ensures
        match estimate {
            Some(tau) => lag_estimate(cmndf@, threshold) == Some(tau as int),
            None => lag_estimate(cmndf@, threshold) is None,
        },
        estimate matches Some(tau) ==> FIRST_LAG <= tau < cmndf@.len() && cmndf@[tau as int]
            < threshold,
{
    let mut tau: usize = FIRST_LAG;
    while tau < cmndf.len()
        invariant
            FIRST_LAG <= tau,
            first_crossing_from(cmndf@, threshold, tau as int) == first_crossing_from(
                cmndf@,
                threshold,
                FIRST_LAG as int,
            ),
        decreases cmndf@.len() - tau,
    {
        if cmndf[tau] < threshold {
            let bottom: usize = descend(cmndf, tau);
            proof {
                lemma_lag_estimate_below_threshold(cmndf@, threshold);
            }
            return Some(bottom);
        }
        tau = tau + 1;
    }
    None
}

} // verus!
