//! Conversion of a lag to a frequency, and the band of frequencies that
//! count as a pitch.

use crate::fixed::ONE;
use vstd::arithmetic::div_mod::{lemma_div_by_multiple, lemma_div_is_ordered};
use vstd::prelude::*;

verus! {

/// Lowest frequency reported, in whole hertz.
pub const MIN_FREQUENCY_HZ: u32 = 60;

/// Highest frequency reported, in whole hertz.
pub const MAX_FREQUENCY_HZ: u32 = 2000;

/// Lowest frequency reported: 60 Hz as a fixed-point number.
pub const MIN_FREQUENCY: i64 = 1_006_632_960;

/// Highest frequency reported: 2000 Hz as a fixed-point number.
pub const MAX_FREQUENCY: i64 = 33_554_432_000;

/// The frequency `sample_rate / lag` for a fixed-point lag in samples,
/// rounded down, where that quotient lies in the band from `MIN_FREQUENCY`
/// to `MAX_FREQUENCY`; nothing where it lies outside or the lag is not
/// positive. The comparisons with the band's ends are exact.
pub open spec fn frequency_of(sample_rate: u32, lag: int) -> Option<int> {
    let scaled = sample_rate * ONE * ONE;
    if lag <= 0 || scaled < MIN_FREQUENCY * lag || scaled > MAX_FREQUENCY * lag {
        None
    } else {
        Some(scaled / lag)
    }
}

/// Every frequency that is reported lies in the band.
pub proof fn lemma_frequency_in_band(sample_rate: u32, lag: int)
    ensures
        frequency_of(sample_rate, lag) matches Some(f) ==> MIN_FREQUENCY <= f <= MAX_FREQUENCY,
{
    let scaled: int = sample_rate * ONE * ONE;
    if frequency_of(sample_rate, lag) is Some {
        lemma_div_is_ordered(MIN_FREQUENCY * lag, scaled, lag);
        lemma_div_is_ordered(scaled, MAX_FREQUENCY * lag, lag);
        lemma_div_by_multiple(MIN_FREQUENCY as int, lag);
        lemma_div_by_multiple(MAX_FREQUENCY as int, lag);
    }
}

/// Converts a fixed-point lag to a frequency and rejects what falls outside
/// the band.
pub fn frequency_from_lag(sample_rate: u32, lag: i128) -> (frequency: Option<i64>)
    ensures
        match frequency {
            Some(f) => frequency_of(sample_rate, lag as int) == Some(f as int),
            None => frequency_of(sample_rate, lag as int) is None,
        },
        frequency matches Some(f) ==> MIN_FREQUENCY <= f <= MAX_FREQUENCY,
{
    if lag <= 0 {
        return None;
    }
    assert(sample_rate * ONE * ONE <= 0xFFFF_FFFF * 0x1_0000_0000_0000) by (nonlinear_arith)
        requires
            sample_rate <= 0xFFFF_FFFF,
            ONE == 0x100_0000,
    ;
    assert(sample_rate * ONE <= 0xFFFF_FFFF * 0x100_0000) by (nonlinear_arith)
        requires
            sample_rate <= 0xFFFF_FFFF,
            ONE == 0x100_0000,
    ;
    let scaled: u128 = (sample_rate as u128) * (ONE as u128) * (ONE as u128);
    let span: u128 = lag as u128;
    let quotient: u128 = scaled / span;
    proof {
        vstd::arithmetic::div_mod::lemma_fundamental_div_mod(scaled as int, span as int);
        let remainder: int = scaled as int % span as int;
        if quotient < MIN_FREQUENCY {
            assert(span * quotient + span <= span * MIN_FREQUENCY) by (nonlinear_arith)
                requires
                    quotient + 1 <= MIN_FREQUENCY,
                    0 < span,
            ;
        } else {
            assert(span * MIN_FREQUENCY <= span * quotient) by (nonlinear_arith)
                requires
                    MIN_FREQUENCY <= quotient,
                    0 < span,
            ;
        }
        assert(MIN_FREQUENCY * lag == span * MIN_FREQUENCY) by (nonlinear_arith)
            requires
                lag == span,
        ;
    }
    if quotient < MIN_FREQUENCY as u128 {
        return None;
    }
    assert(span <= span * MIN_FREQUENCY) by (nonlinear_arith)
        requires
            0 < span,
            1 <= MIN_FREQUENCY,
    ;
    assert(MAX_FREQUENCY * span <= 33_554_432_000 * 0x1_0000_0000_0000_0000_0000) by (nonlinear_arith)
        requires
            span <= 0x1_0000_0000_0000_0000_0000,
            MAX_FREQUENCY == 33_554_432_000,
    ;
    if scaled > (MAX_FREQUENCY as u128) * span {
        return None;
    }
    proof {
        lemma_frequency_in_band(sample_rate, lag as int);
    }
    Some(quotient as i64)
}

} // verus!
