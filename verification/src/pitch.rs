//! The pitch estimator: energy gate, difference function, normalization,
//! threshold search, interpolation and frequency validation in sequence.

use crate::cmndf::{
    cmndf_at, cmndf_seq, cumulative_mean_normalized, lemma_cmndf_at_lag_one, lemma_cmndf_bounds,
    lemma_cmndf_seq, running_sum, within_limits,
};
use crate::difference::{
    difference_function, difference_seq, has_period, lemma_difference_seq,
    lemma_period_has_no_difference,
};
use crate::energy::{
    energy_gate, lemma_sum_of_squares_zero, mean_square, passes_gate, rms_of, MIN_WINDOW,
    SILENCE_RMS,
};
use crate::fixed::{
    lemma_floor_sqrt_unique, DIFFERENCE_LIMIT, MAX_LAGS, MAX_WINDOW, ONE, SQUARE_LIMIT,
};
use crate::frequency::{
    frequency_from_lag, frequency_of, lemma_frequency_in_band, MAX_FREQUENCY, MIN_FREQUENCY,
};
use crate::interpolate::{
    lemma_refined_lag_within_half_sample, parabolic_interpolation, refined_lag, HALF,
};
use crate::search::{
    dip_bottom, first_crossing_from, lag_estimate, lemma_first_crossing,
    lemma_lag_estimate_below_threshold, lemma_lag_estimate_is_local_minimum, threshold_search,
    FIRST_LAG,
};
use vstd::prelude::*;

verus! {

/// Threshold used where the caller gives none: 0.1.
pub const DEFAULT_THRESHOLD: i64 = 1_677_722;

/// The value reported where no pitch is found: -1.0.
pub const NO_PITCH: i64 = -16_777_216;

/// The normalized array of a window.
pub open spec fn normalized(s: Seq<i32>) -> Seq<i64> {
    cmndf_seq(difference_seq(s))
}

/// The pitch of a window, as a fixed-point frequency in hertz, or nothing
/// where the window does not pass the energy gate, no lag crosses the
/// threshold, or the frequency of the refined lag lies outside the band.
pub open spec fn pitch_of(s: Seq<i32>, sample_rate: u32, threshold: i64) -> Option<int> {
    if !passes_gate(s) {
        None
    } else {
        match lag_estimate(normalized(s), threshold) {
            Some(tau) => frequency_of(sample_rate, refined_lag(normalized(s), tau)),
            None => None,
        }
    }
}

/// The number that stands for an estimate: the frequency, or `NO_PITCH`.
pub open spec fn reported(pitch: Option<int>) -> int {
    match pitch {
        Some(frequency) => frequency,
        None => NO_PITCH as int,
    }
}

/// Every sample of the window is zero.
pub open spec fn all_zero(s: Seq<i32>) -> bool {
    forall|i: int| 0 <= i < s.len() ==> s[i] == 0
}

/// A window of zeros has amplitude zero.
pub proof fn lemma_zero_window_rms(s: Seq<i32>)
    requires
        all_zero(s),
    ensures
        rms_of(s) == 0,
{
    if s.len() > 0 {
        lemma_sum_of_squares_zero(s, s.len() as int);
        assert(mean_square(s) == 0);
        lemma_floor_sqrt_unique(0, 0);
    }
}

/// A window of zeros has no pitch, whatever its length, the sample rate and
/// the threshold.
pub proof fn lemma_zero_window_has_no_pitch(s: Seq<i32>, sample_rate: u32, threshold: i64)
    requires
        all_zero(s),
    ensures
        pitch_of(s, sample_rate, threshold) is None,
        reported(pitch_of(s, sample_rate, threshold)) == NO_PITCH,
{
    lemma_zero_window_rms(s);
}

/// A window of fewer than two samples has no pitch.
pub proof fn lemma_short_window_has_no_pitch(s: Seq<i32>, sample_rate: u32, threshold: i64)
    requires
        s.len() < MIN_WINDOW,
    ensures
        pitch_of(s, sample_rate, threshold) is None,
        reported(pitch_of(s, sample_rate, threshold)) == NO_PITCH,
{
}

/// A pitch, where one is found, lies in the band from `MIN_FREQUENCY` to
/// `MAX_FREQUENCY`: a lag whose frequency falls outside is rejected even
/// though it crossed the threshold.
pub proof fn lemma_pitch_in_band(s: Seq<i32>, sample_rate: u32, threshold: i64)
    ensures
        pitch_of(s, sample_rate, threshold) matches Some(f) ==> MIN_FREQUENCY <= f
            <= MAX_FREQUENCY,
        reported(pitch_of(s, sample_rate, threshold)) == NO_PITCH || MIN_FREQUENCY <= reported(
            pitch_of(s, sample_rate, threshold),
        ) <= MAX_FREQUENCY,
{
    if passes_gate(s) {
        let c = normalized(s);
        if let Some(tau) = lag_estimate(c, threshold) {
            lemma_frequency_in_band(sample_rate, refined_lag(c, tau));
        }
    }
}

/// The estimate depends on nothing but the samples, the sample rate and the
/// threshold: windows with equal samples, analysed with equal parameters,
/// have equal estimates.
pub proof fn lemma_pitch_is_a_function_of_its_inputs(
    a: Seq<i32>,
    b: Seq<i32>,
    sample_rate: u32,
    threshold: i64,
)
    requires
        a.len() == b.len(),
        forall|i: int| 0 <= i < a.len() ==> a[i] == b[i],
    ensures
        pitch_of(a, sample_rate, threshold) == pitch_of(b, sample_rate, threshold),
        reported(pitch_of(a, sample_rate, threshold)) == reported(
            pitch_of(b, sample_rate, threshold),
        ),
{
    assert(a =~= b);
}

/// The difference array of a window no longer than `MAX_WINDOW` is within
/// the limits, and the entries of its normalized array are the normalized
/// differences.
pub proof fn lemma_normalized(s: Seq<i32>)
    requires
        s.len() <= MAX_WINDOW,
    ensures
        within_limits(difference_seq(s)),
        normalized(s).len() == s.len() / 2,
        forall|tau: int|
            0 <= tau < s.len() / 2 ==> #[trigger] normalized(s)[tau] == cmndf_at(
                difference_seq(s),
                tau,
            ),
{
    lemma_difference_seq(s, MAX_WINDOW as int);
    assert(MAX_LAGS * SQUARE_LIMIT == DIFFERENCE_LIMIT);
    lemma_cmndf_seq(difference_seq(s));
}

/// With a threshold of at most one, interpolation moves the lag estimate of
/// a window by no more than half a sample.
pub proof fn lemma_refinement_within_half_sample(s: Seq<i32>, threshold: i64)
    requires
        s.len() <= MAX_WINDOW,
        threshold <= ONE,
    ensures
        lag_estimate(normalized(s), threshold) matches Some(tau) ==> tau * ONE - HALF
            <= refined_lag(normalized(s), tau) <= tau * ONE + HALF,
{
    let c = normalized(s);
    lemma_normalized(s);
    lemma_lag_estimate_is_local_minimum(c, threshold);
    lemma_first_crossing(c, threshold, FIRST_LAG as int);
    if let Some(tau) = lag_estimate(c, threshold) {
        if tau == FIRST_LAG {
            lemma_cmndf_at_lag_one(difference_seq(s));
            lemma_lag_estimate_below_threshold(c, threshold);
        }
        lemma_refined_lag_within_half_sample(c, tau);
    }
}

/// A window that repeats after a whole number of samples is estimated at
/// that period: where the threshold lies between zero and one, the window
/// is not constant, and no shorter lag crosses the threshold, the lag
/// estimate is the period, and the pitch is the frequency of a lag within
/// half a sample of it.
pub proof fn lemma_periodic_window_pitch(
    s: Seq<i32>,
    sample_rate: u32,
    threshold: i64,
    period: int,
)
    requires
        s.len() <= MAX_WINDOW,
        passes_gate(s),
        has_period(s, period),
        FIRST_LAG <= period < s.len() / 2,
        0 < threshold <= ONE,
        running_sum(difference_seq(s), period) > 0,
        forall|k: int|
            FIRST_LAG <= k < period ==> cmndf_at(difference_seq(s), k) >= threshold,
    ensures
        lag_estimate(normalized(s), threshold) == Some(period),
        pitch_of(s, sample_rate, threshold) == frequency_of(
            sample_rate,
            refined_lag(normalized(s), period),
        ),
        period * ONE - HALF <= refined_lag(normalized(s), period) <= period * ONE + HALF,
{
    let d = difference_seq(s);
    let c = normalized(s);
    lemma_normalized(s);
    lemma_difference_seq(s, MAX_WINDOW as int);
    lemma_period_has_no_difference(s, period, (s.len() / 2) as int);
    assert(d[period] == 0);
    assert(d[period] * period * ONE == 0) by (nonlinear_arith)
        requires
            d[period] == 0,
    ;
    assert(cmndf_at(d, period) == 0);
    assert(c[period] == 0);
    lemma_first_crossing(c, threshold, FIRST_LAG as int);
    assert(first_crossing_from(c, threshold, FIRST_LAG as int) == Some(period)) by {
        match first_crossing_from(c, threshold, FIRST_LAG as int) {
            Some(start) => {
                if start < period {
                    assert(c[start] == cmndf_at(d, start));
                } else if start > period {
                    assert(c[period] >= threshold);
                }
            },
            None => {
                assert(c[period] >= threshold);
            },
        }
    }
    assert(dip_bottom(c, period) == period) by {
        if period + 1 < c.len() {
            lemma_cmndf_bounds(d, period + 1);
            assert(c[period + 1] == cmndf_at(d, period + 1));
        }
    }
    lemma_refinement_within_half_sample(s, threshold);
}

/// Estimates the pitch of a window.
pub fn estimate_pitch(samples: &[i32], sample_rate: u32, threshold: i64) -> (pitch: Option<i64>)
    requires
        samples@.len() <= MAX_WINDOW,
    ensures
        match pitch {
            Some(f) => pitch_of(samples@, sample_rate, threshold) == Some(f as int),
            None => pitch_of(samples@, sample_rate, threshold) is None,
        },
        pitch matches Some(f) ==> MIN_FREQUENCY <= f <= MAX_FREQUENCY,
        samples@.len() < MIN_WINDOW ==> pitch is None,
        rms_of(samples@) < SILENCE_RMS ==> pitch is None,
        all_zero(samples@) ==> pitch is None,
{
    proof {
        if all_zero(samples@) {
            lemma_zero_window_rms(samples@);
        }
    }
    if !energy_gate(samples) {
        return None;
    }
    let difference: Vec<u128> = difference_function(samples);
    proof {
        let half: int = (samples@.len() / 2) as int;
        assert(half * SQUARE_LIMIT <= MAX_LAGS * SQUARE_LIMIT) by (nonlinear_arith)
            requires
                0 <= half <= MAX_LAGS,
        ;
        assert(MAX_LAGS * SQUARE_LIMIT == DIFFERENCE_LIMIT);
        assert(within_limits(difference@));
    }
    let cmndf: Vec<i64> = cumulative_mean_normalized(difference.as_slice());
    match threshold_search(cmndf.as_slice(), threshold) {
        Some(tau) => {
            let lag: i128 = parabolic_interpolation(cmndf.as_slice(), tau);
            frequency_from_lag(sample_rate, lag)
        },
        None => None,
    }
}

/// Estimates the pitch of a window with a threshold of the caller's choice
/// and reports it as a number: the frequency, or `NO_PITCH`.
pub fn detect_pitch_with_threshold(samples: &[i32], sample_rate: u32, threshold: i64) -> (frequency:
    i64)
    requires
        samples@.len() <= MAX_WINDOW,
    ensures
        frequency == reported(pitch_of(samples@, sample_rate, threshold)),
        frequency == NO_PITCH || MIN_FREQUENCY <= frequency <= MAX_FREQUENCY,
        samples@.len() < MIN_WINDOW ==> frequency == NO_PITCH,
        rms_of(samples@) < SILENCE_RMS ==> frequency == NO_PITCH,
        all_zero(samples@) ==> frequency == NO_PITCH,
{
    match estimate_pitch(samples, sample_rate, threshold) {
        Some(found) => found,
        None => NO_PITCH,
    }
}

/// Estimates the pitch of a window with `DEFAULT_THRESHOLD` and reports it
/// as a number: the frequency, or `NO_PITCH`.
pub fn detect_pitch(samples: &[i32], sample_rate: u32) -> (frequency: i64)
    requires
        samples@.len() <= MAX_WINDOW,
    ensures
        frequency == reported(pitch_of(samples@, sample_rate, DEFAULT_THRESHOLD)),
        frequency == NO_PITCH || MIN_FREQUENCY <= frequency <= MAX_FREQUENCY,
        samples@.len() < MIN_WINDOW ==> frequency == NO_PITCH,
        rms_of(samples@) < SILENCE_RMS ==> frequency == NO_PITCH,
        all_zero(samples@) ==> frequency == NO_PITCH,
{
    detect_pitch_with_threshold(samples, sample_rate, DEFAULT_THRESHOLD)
}

} // verus!
