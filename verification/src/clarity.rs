//! The clarity score: the strongest autocorrelation of a window within the
//! band of lags of interest, as a fraction of its energy.

use crate::energy::{energy, sum_of_squares, MIN_WINDOW, SAMPLE_SQUARE_LIMIT};
use crate::fixed::{scaled_ratio, ONE};
use crate::frequency::{MAX_FREQUENCY_HZ, MIN_FREQUENCY_HZ};
use vstd::arithmetic::div_mod::{lemma_div_by_multiple, lemma_div_is_ordered};
use vstd::prelude::*;

verus! {

/// Energy below which a window has no clarity: `EPSILON` in the unit of a
/// sum of squared samples, which is 2^25.
pub const ENERGY_FLOOR: u128 = 33_554_432;

/// The sum over `i < n` of `s[i] * s[i + tau]`.
pub open spec fn correlation_sum(s: Seq<i32>, tau: int, n: int) -> int
    decreases n,
{
    if n <= 0 {
        0
    } else {
        correlation_sum(s, tau, n - 1) + s[n - 1] * s[n - 1 + tau]
    }
}

/// The autocorrelation at lag `tau`: the products summed over the part of
/// the window's first half that the lag leaves.
pub open spec fn correlation_at(s: Seq<i32>, tau: int) -> int {
    correlation_sum(s, tau, s.len() / 2 - tau)
}

/// The energy of the first half of the window, which is its autocorrelation
/// at lag zero.
pub open spec fn zero_lag_energy(s: Seq<i32>) -> int {
    sum_of_squares(s, (s.len() / 2) as int)
}

/// The shortest lag searched: the period of `MAX_FREQUENCY_HZ` in samples,
/// rounded down.
pub open spec fn min_lag(sample_rate: u32) -> int {
    sample_rate as int / MAX_FREQUENCY_HZ as int
}

/// The end of the lags searched: the period of `MIN_FREQUENCY_HZ` in
/// samples, rounded down, or half the window where that is shorter.
pub open spec fn max_lag(sample_rate: u32, half: int) -> int {
    let longest = sample_rate as int / MIN_FREQUENCY_HZ as int;
    if longest < half {
        longest
    } else {
        half
    }
}

/// The largest autocorrelation over the lags from `low` up to, not
/// including, `high`, or zero where none is positive.
pub open spec fn peak_correlation(s: Seq<i32>, low: int, high: int) -> int
    decreases high - low,
{
    if high <= low {
        0
    } else {
        let before = peak_correlation(s, low, high - 1);
        let last = correlation_at(s, high - 1);
        if last > before {
            last
        } else {
            before
        }
    }
}

/// The clarity of a window, as a fixed-point number: the peak correlation
/// over the zero-lag energy, rounded down and limited to one; zero where the
/// window has fewer than `MIN_WINDOW` samples or less energy than
/// `ENERGY_FLOOR`.
pub open spec fn clarity_of(s: Seq<i32>, sample_rate: u32) -> int {
    let half = (s.len() / 2) as int;
    let total = zero_lag_energy(s);
    if s.len() < MIN_WINDOW || total < ENERGY_FLOOR {
        0
    } else {
        let peak = peak_correlation(s, min_lag(sample_rate), max_lag(sample_rate, half));
        if peak >= total {
            ONE as int
        } else {
            peak * ONE / total
        }
    }
}

/// A peak correlation is never negative, and is either zero or the
/// autocorrelation at one of the lags searched.
pub proof fn lemma_peak_correlation(s: Seq<i32>, low: int, high: int)
    ensures
        0 <= peak_correlation(s, low, high),
        forall|tau: int| low <= tau < high ==> correlation_at(s, tau) <= peak_correlation(s, low, high),
        peak_correlation(s, low, high) == 0 || exists|tau: int|
            low <= tau < high && correlation_at(s, tau) == peak_correlation(s, low, high),
    decreases high - low,
{
    if high > low {
        lemma_peak_correlation(s, low, high - 1);
        let before = peak_correlation(s, low, high - 1);
        let last = correlation_at(s, high - 1);
        if last > before {
            assert(low <= high - 1 < high && correlation_at(s, high - 1) == peak_correlation(
                s,
                low,
                high,
            ));
        } else if before != 0 {
            let tau = choose|tau: int|
                low <= tau < high - 1 && correlation_at(s, tau) == peak_correlation(
                    s,
                    low,
                    high - 1,
                );
            assert(low <= tau < high && correlation_at(s, tau) == peak_correlation(s, low, high));
        }
    }
}

/// A clarity lies between zero and one.
pub proof fn lemma_clarity_in_unit_interval(s: Seq<i32>, sample_rate: u32)
    ensures
        0 <= clarity_of(s, sample_rate) <= ONE,
{
    let half = (s.len() / 2) as int;
    let total = zero_lag_energy(s);
    if s.len() >= MIN_WINDOW && total >= ENERGY_FLOOR {
        let peak = peak_correlation(s, min_lag(sample_rate), max_lag(sample_rate, half));
        lemma_peak_correlation(s, min_lag(sample_rate), max_lag(sample_rate, half));
        if peak < total {
            assert(0 <= peak * ONE <= ONE * total) by (nonlinear_arith)
                requires
                    0 <= peak < total,
                    0 < ONE,
            ;
            lemma_div_is_ordered(0, peak * ONE, total);
            lemma_div_is_ordered(peak * ONE, ONE * total, total);
            lemma_div_by_multiple(ONE as int, total);
        }
    }
}

/// The clarity depends on nothing but the samples and the sample rate:
/// windows with equal samples, scored at equal rates, have equal clarity.
pub proof fn lemma_clarity_is_a_function_of_its_inputs(a: Seq<i32>, b: Seq<i32>, sample_rate: u32)
    requires
        a.len() == b.len(),
        forall|i: int| 0 <= i < a.len() ==> a[i] == b[i],
    ensures
        clarity_of(a, sample_rate) == clarity_of(b, sample_rate),
{
    assert(a =~= b);
}

/// Computes the autocorrelation of the window at one lag.
pub fn correlate(samples: &[i32], tau: usize) -> (sum: i128)
    requires
        tau <= samples@.len() / 2,
    ensures
        sum == correlation_at(samples@, tau as int),
        -(samples@.len() / 2) * SAMPLE_SQUARE_LIMIT <= sum <= (samples@.len() / 2)
            * SAMPLE_SQUARE_LIMIT,
{
    let count: usize = samples.len() / 2 - tau;
    let mut sum: i128 = 0;
    let mut i: usize = 0;
    while i < count
        invariant
            count == samples@.len() / 2 - tau,
            tau <= samples@.len() / 2,
            i <= count,
            sum == correlation_sum(samples@, tau as int, i as int),
            -i * SAMPLE_SQUARE_LIMIT <= sum <= i * SAMPLE_SQUARE_LIMIT,
        decreases count - i,
    {
        let x: i128 = samples[i] as i128;
        let y: i128 = samples[i + tau] as i128;
        assert(-0x4000_0000_0000_0000 <= x * y <= 0x4000_0000_0000_0000) by (nonlinear_arith)
            requires
                -0x8000_0000 <= x < 0x8000_0000,
                -0x8000_0000 <= y < 0x8000_0000,
        ;
        sum = sum + x * y;
        i = i + 1;
    }
    sum
}

/// Finds the peak correlation over the lags from `low` up to, not
/// including, `high`.
pub fn strongest_correlation(samples: &[i32], low: usize, high: usize) -> (peak: i128)
    requires
        high <= samples@.len() / 2,
    ensures
        peak == peak_correlation(samples@, low as int, high as int),
        0 <= peak <= (samples@.len() / 2) * SAMPLE_SQUARE_LIMIT,
{
    let mut peak: i128 = 0;
    if low >= high {
        return peak;
    }
    let mut tau: usize = low;
    while tau < high
        invariant
            high <= samples@.len() / 2,
            low <= tau <= high,
            peak == peak_correlation(samples@, low as int, tau as int),
            0 <= peak <= (samples@.len() / 2) * SAMPLE_SQUARE_LIMIT,
        decreases high - tau,
    {
        let correlation: i128 = correlate(samples, tau);
        if correlation > peak {
            peak = correlation;
        }
        tau = tau + 1;
    }
    peak
}

/// Scores how strongly periodic a window is, from zero to one.
pub fn get_pitch_clarity(samples: &[i32], sample_rate: u32) -> (clarity: i64)
    ensures
        clarity == clarity_of(samples@, sample_rate),
        0 <= clarity <= ONE,
        zero_lag_energy(samples@) < ENERGY_FLOOR ==> clarity == 0,
        samples@.len() < MIN_WINDOW ==> clarity == 0,
{
    if samples.len() < MIN_WINDOW {
        return 0;
    }
    let half: usize = samples.len() / 2;
    let total: u128 = energy(samples, half);
    if total < ENERGY_FLOOR {
        return 0;
    }
    let low: usize = (sample_rate / MAX_FREQUENCY_HZ) as usize;
    let longest: usize = (sample_rate / MIN_FREQUENCY_HZ) as usize;
    let high: usize = if longest < half {
        longest
    } else {
        half
    };
    let peak: i128 = strongest_correlation(samples, low, high);
    assert(half * SAMPLE_SQUARE_LIMIT <= 0x7FFF_FFFF_FFFF_FFFF * SAMPLE_SQUARE_LIMIT)
        by (nonlinear_arith)
        requires
            half <= 0x7FFF_FFFF_FFFF_FFFF,
    ;
    if peak >= total as i128 {
        return ONE;
    }
    scaled_ratio(peak as u128, total)
}

} // verus!
