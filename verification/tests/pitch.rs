use pitch_detector::fixed::ONE;
use pitch_detector::frequency::{MAX_FREQUENCY, MIN_FREQUENCY};
use pitch_detector::pitch::{DEFAULT_THRESHOLD, NO_PITCH};
use pitch_detector::{calculate_rms, detect_pitch, detect_pitch_with_threshold, estimate_pitch};
use std::f32::consts::PI;

fn to_fixed(x: f32) -> i32 {
    (x * ONE as f32).round() as i32
}

fn to_real(v: i64) -> f32 {
    (v as f64 / ONE as f64) as f32
}

fn generate_sine_wave(frequency: f32, sample_rate: f32, duration_samples: usize) -> Vec<i32> {
    (0..duration_samples)
        .map(|i| to_fixed((2.0 * PI * frequency * (i as f32) / sample_rate).sin()))
        .collect()
}

fn scaled_sine(frequency: f32, sample_rate: f32, amplitude: f32, count: usize) -> Vec<i32> {
    (0..count)
        .map(|i| to_fixed(amplitude * (2.0 * PI * frequency * (i as f32) / sample_rate).sin()))
        .collect()
}

#[test]
fn test_detect_440hz() {
    let sample_rate = 44100.0;
    let samples = generate_sine_wave(440.0, sample_rate, 2048);
    let detected = to_real(detect_pitch(&samples, sample_rate as u32));
    assert!(
        (detected - 440.0).abs() < 5.0,
        "Expected ~440Hz, got {}",
        detected
    );
}

#[test]
fn test_detect_220hz() {
    let sample_rate = 44100.0;
    let samples = generate_sine_wave(220.0, sample_rate, 2048);
    let detected = to_real(detect_pitch(&samples, sample_rate as u32));
    assert!(
        (detected - 220.0).abs() < 5.0,
        "Expected ~220Hz, got {}",
        detected
    );
}

#[test]
fn test_silence() {
    let samples = vec![to_fixed(0.0f32); 2048];
    let detected = to_real(detect_pitch(&samples, 44100));
    assert_eq!(detected, -1.0, "Expected -1.0 for silence");
}

#[test]
fn test_rms() {
    let samples = vec![to_fixed(1.0), to_fixed(-1.0), to_fixed(1.0), to_fixed(-1.0)];
    let rms = to_real(calculate_rms(&samples));
    assert!((rms - 1.0).abs() < 0.01);
}

#[test]
fn sentinel_is_minus_one() {
    assert_eq!(NO_PITCH, -ONE);
    assert_eq!(to_real(NO_PITCH), -1.0);
}

#[test]
fn default_threshold_is_a_tenth() {
    assert!((to_real(DEFAULT_THRESHOLD) - 0.1).abs() < 1.0e-7);
}

#[test]
fn silence_of_any_length_has_no_pitch() {
    for length in [2usize, 3, 4, 5, 16, 17, 255, 1024, 4096] {
        let samples = vec![0i32; length];
        assert_eq!(detect_pitch(&samples, 44100), NO_PITCH);
        assert_eq!(estimate_pitch(&samples, 44100, DEFAULT_THRESHOLD), None);
    }
}

#[test]
fn empty_window_has_no_pitch() {
    let samples: Vec<i32> = Vec::new();
    assert_eq!(detect_pitch(&samples, 44100), NO_PITCH);
    assert_eq!(detect_pitch_with_threshold(&samples, 44100, ONE), NO_PITCH);
    assert_eq!(estimate_pitch(&samples, 44100, DEFAULT_THRESHOLD), None);
}

#[test]
fn single_sample_has_no_pitch() {
    let samples = vec![ONE as i32];
    assert_eq!(detect_pitch(&samples, 44100), NO_PITCH);
    assert_eq!(detect_pitch_with_threshold(&samples, 44100, ONE), NO_PITCH);
    assert_eq!(estimate_pitch(&samples, 44100, DEFAULT_THRESHOLD), None);
}

#[test]
fn quiet_signal_has_no_pitch() {
    let quiet = scaled_sine(440.0, 44100.0, 0.005, 2048);
    assert_eq!(detect_pitch(&quiet, 44100), NO_PITCH);
    let audible = scaled_sine(440.0, 44100.0, 0.05, 2048);
    let detected = to_real(detect_pitch(&audible, 44100));
    assert!((detected - 440.0).abs() < 5.0, "got {}", detected);
}

#[test]
fn threshold_scales_with_amplitude() {
    let loud = to_real(detect_pitch(&scaled_sine(330.0, 48000.0, 1.0, 2048), 48000));
    let soft = to_real(detect_pitch(&scaled_sine(330.0, 48000.0, 0.1, 2048), 48000));
    assert!((loud - 330.0).abs() < 5.0, "got {}", loud);
    assert!((soft - 330.0).abs() < 5.0, "got {}", soft);
}

#[test]
fn sines_across_the_band_are_found() {
    for frequency in [80.0f32, 110.0, 261.63, 440.0, 523.25, 880.0, 1000.0, 1760.0] {
        let samples = generate_sine_wave(frequency, 44100.0, 4096);
        let detected = to_real(detect_pitch(&samples, 44100));
        assert!(
            (detected - frequency).abs() < 5.0,
            "expected {}, got {}",
            frequency,
            detected
        );
    }
}

#[test]
fn frequency_below_the_band_is_rejected() {
    let samples = generate_sine_wave(440.0, 44100.0, 2048);
    assert!(detect_pitch(&samples, 44100) != NO_PITCH);
    assert_eq!(detect_pitch(&samples, 4410), NO_PITCH);
    assert_eq!(estimate_pitch(&samples, 4410, DEFAULT_THRESHOLD), None);
}

#[test]
fn frequency_above_the_band_is_rejected() {
    let samples = generate_sine_wave(440.0, 44100.0, 2048);
    assert_eq!(detect_pitch(&samples, 441000), NO_PITCH);
    let fast = generate_sine_wave(3000.0, 44100.0, 2048);
    assert_eq!(detect_pitch(&fast, 44100), NO_PITCH);
}

#[test]
fn zero_sample_rate_gives_no_pitch() {
    let samples = generate_sine_wave(440.0, 44100.0, 2048);
    assert_eq!(detect_pitch(&samples, 0), NO_PITCH);
}

#[test]
fn reported_pitch_lies_in_the_band() {
    for rate in [8000u32, 16000, 22050, 44100, 48000, 96000] {
        for frequency in [50.0f32, 70.0, 150.0, 700.0, 1900.0, 2100.0, 5000.0] {
            let samples = generate_sine_wave(frequency, rate as f32, 2048);
            let detected = detect_pitch(&samples, rate);
            assert!(
                detected == NO_PITCH || (MIN_FREQUENCY <= detected && detected <= MAX_FREQUENCY),
                "rate {} frequency {} gave {}",
                rate,
                frequency,
                detected
            );
        }
    }
}

#[test]
fn repeated_calls_agree() {
    let samples = generate_sine_wave(440.0, 44100.0, 2048);
    let first = detect_pitch(&samples, 44100);
    let second = detect_pitch(&samples, 44100);
    let copy = samples.clone();
    let third = detect_pitch(&copy, 44100);
    assert_eq!(first, second);
    assert_eq!(first, third);
    assert_eq!(
        detect_pitch_with_threshold(&samples, 44100, 3_000_000),
        detect_pitch_with_threshold(&copy, 44100, 3_000_000)
    );
}

#[test]
fn default_threshold_is_what_detect_pitch_uses() {
    let samples = generate_sine_wave(220.0, 44100.0, 2048);
    assert_eq!(
        detect_pitch(&samples, 44100),
        detect_pitch_with_threshold(&samples, 44100, DEFAULT_THRESHOLD)
    );
}

#[test]
fn zero_threshold_is_never_crossed() {
    let samples = generate_sine_wave(440.0, 44100.0, 2048);
    assert_eq!(detect_pitch_with_threshold(&samples, 44100, 0), NO_PITCH);
    assert_eq!(detect_pitch_with_threshold(&samples, 44100, -ONE), NO_PITCH);
}

#[test]
fn estimate_and_report_agree() {
    let samples = generate_sine_wave(440.0, 44100.0, 2048);
    let estimate = estimate_pitch(&samples, 44100, DEFAULT_THRESHOLD);
    let report = detect_pitch(&samples, 44100);
    assert_eq!(estimate, Some(report));
}

#[test]
fn exact_pitch_of_a_small_window() {
    // A square wave of period four: the difference vanishes at lag four.
    let a: i32 = ONE as i32;
    let mut samples: Vec<i32> = Vec::new();
    for _ in 0..4 {
        samples.extend_from_slice(&[a, a, -a, -a]);
    }
    // Around lag four the normalized values are 0.75, 0 and 1, so the
    // refined lag is 4 - 0.25 / 3.5 samples, which is 65_910_491 in fixed
    // point, and 1600 Hz over it is a little more than 407 Hz.
    assert_eq!(detect_pitch(&samples, 1600), 6_832_902_560);
    assert_eq!(
        estimate_pitch(&samples, 1600, DEFAULT_THRESHOLD),
        Some(6_832_902_560)
    );
    let hertz = to_real(detect_pitch(&samples, 1600));
    assert!((hertz - 1600.0 * 3.5 / 13.75).abs() < 0.001, "got {}", hertz);
}

#[test]
fn band_ends_on_a_small_window() {
    let a: i32 = ONE as i32;
    let mut samples: Vec<i32> = Vec::new();
    for _ in 0..4 {
        samples.extend_from_slice(&[a, a, -a, -a]);
    }
    // The refined lag is 55/14 samples, so the band from 60 Hz to 2000 Hz
    // corresponds to sample rates from 235.71 Hz to 7857.14 Hz.
    assert_eq!(detect_pitch(&samples, 235), NO_PITCH);
    assert_eq!(detect_pitch(&samples, 236), 1_007_853_127);
    assert_eq!(detect_pitch(&samples, 240), 1_024_935_384);
    assert_eq!(detect_pitch(&samples, 7857), 33_553_822_137);
    assert_eq!(detect_pitch(&samples, 7858), NO_PITCH);
    assert_eq!(detect_pitch(&samples, 200), NO_PITCH);
    assert_eq!(detect_pitch(&samples, 16000), NO_PITCH);
}
