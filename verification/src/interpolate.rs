//! Parabolic interpolation: the vertex of the parabola through a lag's
//! value and its two neighbours refines the integer lag to a fraction of a
//! sample.

use crate::fixed::{floor_div, EPSILON, ONE};
use vstd::arithmetic::div_mod::{
    lemma_div_by_multiple, lemma_div_is_ordered, lemma_div_multiples_vanish,
};
use vstd::prelude::*;

verus! {

/// The refined lag around `tau`, as a fixed-point number of samples.
///
/// With `s0`, `s1`, `s2` the values at `tau - 1`, `tau`, `tau + 1`, the
/// correction is `(s2 - s0) / (2 * (2 * s1 - s2 - s0))`, rounded down. It is
/// applied only where `tau` has both neighbours and the curvature
/// `2 * s1 - s2 - s0` is more than `EPSILON` away from zero.
pub open spec fn refined_lag(c: Seq<i64>, tau: int) -> int {
    if 0 < tau < c.len() - 1 {
        let slope = c[tau + 1] - c[tau - 1];
        let curvature = 2 * c[tau] - c[tau + 1] - c[tau - 1];
        if curvature > EPSILON {
            tau * ONE + (slope * ONE) / (2 * curvature)
        } else if curvature < -EPSILON {
            tau * ONE + (-slope * ONE) / (-2 * curvature)
        } else {
            tau * ONE
        }
    } else {
        tau * ONE
    }
}

/// Half a sample, as a fixed-point number.
pub const HALF: i64 = 8_388_608;

/// Around a local minimum the refined lag stays within half a sample of the
/// integer lag.
pub proof fn lemma_refined_lag_within_half_sample(c: Seq<i64>, tau: int)
    requires
        0 < tau < c.len() - 1 ==> c[tau] <= c[tau - 1] && c[tau] <= c[tau + 1],
    ensures
        tau * ONE - HALF <= refined_lag(c, tau) <= tau * ONE + HALF,
{
    if 0 < tau < c.len() - 1 {
        let slope: int = c[tau + 1] - c[tau - 1];
        let depth: int = c[tau + 1] + c[tau - 1] - 2 * c[tau];
        if depth > EPSILON {
            let span: int = 2 * depth;
            let scaled: int = -slope * ONE;
            assert(span * (-HALF) <= scaled <= HALF * span) by (nonlinear_arith)
                requires
                    -depth <= slope <= depth,
                    span == 2 * depth,
                    scaled == -slope * ONE,
                    ONE == 2 * HALF,
            ;
            lemma_div_is_ordered(span * (-HALF), scaled, span);
            lemma_div_is_ordered(scaled, HALF * span, span);
            lemma_div_multiples_vanish(-HALF as int, span);
            lemma_div_by_multiple(HALF as int, span);
            assert(-2 * (2 * c[tau] - c[tau + 1] - c[tau - 1]) == span);
        }
    }
}

/// Refines an integer lag by parabolic interpolation.
pub fn parabolic_interpolation(cmndf: &[i64], tau: usize) -> (lag: i128)
    requires
        tau < cmndf@.len(),
    ensures
        lag == refined_lag(cmndf@, tau as int),
{
    let whole: i128 = (tau as i128) * (ONE as i128);
    if tau > 0 && tau < cmndf.len() - 1 {
        let s0: i128 = cmndf[tau - 1] as i128;
        let s1: i128 = cmndf[tau] as i128;
        let s2: i128 = cmndf[tau + 1] as i128;
        let slope: i128 = s2 - s0;
        let curvature: i128 = 2 * s1 - s2 - s0;
        if curvature > EPSILON as i128 {
            whole + floor_div(slope * (ONE as i128), 2 * curvature)
        } else if curvature < -(EPSILON as i128) {
            whole + floor_div(-slope * (ONE as i128), -2 * curvature)
        } else {
            whole
        }
    } else {
        whole
    }
}

} // verus!
