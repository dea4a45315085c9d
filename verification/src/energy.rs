//! Signal energy: sums of squared samples, the root-mean-square amplitude,
//! and the energy gate, which turns away windows too short or too quiet to
//! analyse.

use crate::fixed::{floor_sqrt, integer_sqrt, is_floor_sqrt, lemma_square_monotone};
use vstd::arithmetic::div_mod::{lemma_div_by_multiple, lemma_div_is_ordered};
use vstd::prelude::*;

verus! {

/// Amplitude below which a window counts as silence: 0.01.
pub const SILENCE_RMS: i64 = 167_772;

/// Fewest samples a window must hold to be analysed.
pub const MIN_WINDOW: usize = 2;

/// Bound on the square of one sample: 2^62.
pub const SAMPLE_SQUARE_LIMIT: u128 = 0x4000_0000_0000_0000;

/// The sum of the squares of the first `n` samples.
pub open spec fn sum_of_squares(s: Seq<i32>, n: int) -> int
    decreases n,
{
    if n <= 0 {
        0
    } else {
        sum_of_squares(s, n - 1) + s[n - 1] * s[n - 1]
    }
}

/// The mean of the squared samples of a window that is not empty, rounded
/// down.
pub open spec fn mean_square(s: Seq<i32>) -> int {
    sum_of_squares(s, s.len() as int) / (s.len() as int)
}

/// The root-mean-square amplitude of a window, rounded down; zero for the
/// empty window.
pub open spec fn rms_of(s: Seq<i32>) -> int {
    if s.len() == 0 {
        0
    } else {
        floor_sqrt(mean_square(s))
    }
}

/// The windows that are analysed: at least `MIN_WINDOW` samples with an
/// amplitude of at least `SILENCE_RMS`.
pub open spec fn passes_gate(s: Seq<i32>) -> bool {
    s.len() >= MIN_WINDOW && rms_of(s) >= SILENCE_RMS
}

/// The squares of samples that are all zero sum to zero.
pub proof fn lemma_sum_of_squares_zero(s: Seq<i32>, n: int)
    requires
        0 <= n <= s.len(),
        forall|i: int| 0 <= i < n ==> s[i] == 0,
    ensures
        sum_of_squares(s, n) == 0,
    decreases n,
{
    if n > 0 {
        lemma_sum_of_squares_zero(s, n - 1);
    }
}

/// The amplitude depends on nothing but the samples: windows with equal
/// samples have equal amplitude.
pub proof fn lemma_rms_is_a_function_of_its_input(a: Seq<i32>, b: Seq<i32>)
    requires
        a.len() == b.len(),
        forall|i: int| 0 <= i < a.len() ==> a[i] == b[i],
    ensures
        rms_of(a) == rms_of(b),
{
    assert(a =~= b);
}

/// Sums the squares of the first `count` samples.
pub fn energy(samples: &[i32], count: usize) -> (sum: u128)
    requires
        count <= samples@.len(),
    ensures
        sum == sum_of_squares(samples@, count as int),
        sum <= count * SAMPLE_SQUARE_LIMIT,
{
    let mut sum: u128 = 0;
    let mut i: usize = 0;
    while i < count
        invariant
            i <= count <= samples@.len(),
            sum == sum_of_squares(samples@, i as int),
            sum <= i * SAMPLE_SQUARE_LIMIT,
        decreases count - i,
    {
        let x: i128 = samples[i] as i128;
        assert(0 <= x * x <= 0x4000_0000_0000_0000) by (nonlinear_arith)
            requires
                -0x8000_0000 <= x < 0x8000_0000,
        ;
        let square: i128 = x * x;
        sum = sum + square as u128;
        i = i + 1;
    }
    sum
}

/// Computes the root-mean-square amplitude of a window.
pub fn calculate_rms(samples: &[i32]) -> (rms: i64)
    ensures
        rms == rms_of(samples@),
        samples@.len() == 0 ==> rms == 0,
        samples@.len() > 0 ==> is_floor_sqrt(rms as int, mean_square(samples@)),
        0 <= rms <= 0x8000_0000,
{
    let count: usize = samples.len();
    if count == 0 {
        return 0;
    }
    let sum: u128 = energy(samples, count);
    let mean: u128 = sum / (count as u128);
    let root: u64 = integer_sqrt(mean);
    proof {
        lemma_div_is_ordered(sum as int, count * SAMPLE_SQUARE_LIMIT, count as int);
        lemma_div_by_multiple(SAMPLE_SQUARE_LIMIT as int, count as int);
        assert(count * SAMPLE_SQUARE_LIMIT == SAMPLE_SQUARE_LIMIT * count) by (nonlinear_arith);
        if root > 0x8000_0000 {
            lemma_square_monotone(0x8000_0001, root as int);
            assert(0x8000_0001int * 0x8000_0001int > 0x4000_0000_0000_0000) by (nonlinear_arith);
        }
    }
    root as i64
}

/// Decides whether a window is long and loud enough to be analysed.
pub fn energy_gate(samples: &[i32]) -> (open: bool)
    ensures
        open == passes_gate(samples@),
{
    if samples.len() < MIN_WINDOW {
        return false;
    }
    let rms: i64 = calculate_rms(samples);
    rms >= SILENCE_RMS
}

} // verus!
