//! Monophonic pitch estimation over one window of fixed-point audio samples.
//!
//! The estimator is YIN: a squared-difference function over lags, its
//! cumulative mean normalization, a threshold search that follows the first
//! dip to its bottom, parabolic interpolation, and a check of the resulting
//! frequency against the band from 60 Hz to 2000 Hz. A second, independent
//! estimator scores how periodic a window is by its strongest normalized
//! autocorrelation.
//!
//! Every real quantity is a binary fixed-point number with 24 fractional
//! bits: the integer `v` stands for the real number `v / 2^24`. Samples are
//! `i32` in that format, frequencies, thresholds and scores are `i64`, and a
//! sample rate is a whole number of hertz. Every quotient is rounded down,
//! and every comparison is exact.
//!
//! Each stage is a function of its arguments alone, with a contract that
//! equates its result with a mathematical model of the stage; the models
//! are the `spec` functions of the stage's module.

pub mod fixed;
pub mod difference;
pub mod cmndf;
pub mod search;
pub mod interpolate;
pub mod frequency;
pub mod energy;
pub mod pitch;
pub mod clarity;

pub use clarity::get_pitch_clarity;
pub use energy::calculate_rms;
pub use pitch::{detect_pitch, detect_pitch_with_threshold, estimate_pitch};
