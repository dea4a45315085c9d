use pitch_detector::clarity::{correlate, strongest_correlation, ENERGY_FLOOR};
use pitch_detector::fixed::ONE;
use pitch_detector::get_pitch_clarity;
use std::f32::consts::PI;

fn sine(frequency: f32, sample_rate: f32, amplitude: f32, count: usize) -> Vec<i32> {
    (0..count)
        .map(|i| {
            let x = amplitude * (2.0 * PI * frequency * (i as f32) / sample_rate).sin();
            (x * ONE as f32).round() as i32
        })
        .collect()
}

#[test]
fn correlate_exact_values() {
    let samples = [5000, 7000, -3000, 2000, 6000, -1000, 50, 60, 70, 80, 90, 100];
    assert_eq!(correlate(&samples, 0), 124_000_000);
    assert_eq!(correlate(&samples, 1), 14_000_000);
    assert_eq!(correlate(&samples, 2), -21_000_000);
    assert_eq!(correlate(&samples, 3), 55_000_000);
    assert_eq!(correlate(&samples, 4), 23_000_000);
    assert_eq!(correlate(&samples, 5), -5_000_000);
    assert_eq!(correlate(&samples, 6), 0);
}

#[test]
fn strongest_correlation_exact_values() {
    let samples = [5000, 7000, -3000, 2000, 6000, -1000, 50, 60, 70, 80, 90, 100];
    assert_eq!(strongest_correlation(&samples, 1, 6), 55_000_000);
    assert_eq!(strongest_correlation(&samples, 0, 6), 124_000_000);
    assert_eq!(strongest_correlation(&samples, 4, 6), 23_000_000);
    assert_eq!(strongest_correlation(&samples, 5, 6), 0);
    assert_eq!(strongest_correlation(&samples, 2, 3), 0);
    assert_eq!(strongest_correlation(&samples, 3, 3), 0);
    assert_eq!(strongest_correlation(&samples, 9, 6), 0);
}

#[test]
fn clarity_exact_values() {
    let samples = [5000, 7000, -3000, 2000, 6000, -1000, 50, 60, 70, 80, 90, 100];
    // Lags one to five are searched; the peak 55e6 over the energy 124e6.
    assert_eq!(get_pitch_clarity(&samples, 3000), 7_441_507);
    let other = [8000, 0, 4000, 8000, 1, 2, 3, 4];
    // Lags two and three; the peak 64e6 over the energy 144e6.
    assert_eq!(get_pitch_clarity(&other, 4000), 7_456_540);
}

#[test]
fn clarity_is_limited_to_one() {
    // Below 2000 Hz the search starts at lag zero, where the correlation
    // is the energy itself.
    assert_eq!(get_pitch_clarity(&[10000, 10000, 10000, 10000], 120), ONE);
}

#[test]
fn clarity_ignores_negative_correlation() {
    let samples = [8000, -8000, 8000, -8000, 8000, -8000, 8000, -8000];
    assert_eq!(get_pitch_clarity(&samples, 6000), 0);
}

#[test]
fn clarity_of_negligible_energy_is_zero() {
    assert_eq!(get_pitch_clarity(&[1000, 1000, 1000, 1000], 120), 0);
    assert_eq!(get_pitch_clarity(&vec![0i32; 2048], 44100), 0);
    // 4096^2 * 2 is exactly the floor, one unit less is below it.
    assert_eq!(ENERGY_FLOOR, 4096 * 4096 * 2);
    assert_eq!(get_pitch_clarity(&[4096, 4096, 0, 0], 120), ONE);
    assert_eq!(get_pitch_clarity(&[4096, 4095, 0, 0], 120), 0);
}

#[test]
fn clarity_of_short_windows_is_zero() {
    assert_eq!(get_pitch_clarity(&[], 44100), 0);
    assert_eq!(get_pitch_clarity(&[ONE as i32], 44100), 0);
}

#[test]
fn clarity_with_an_empty_band_is_zero() {
    let samples = sine(440.0, 44100.0, 1.0, 64);
    // The band starts at lag 22 and the half window ends at 32.
    assert!(get_pitch_clarity(&samples, 44100) >= 0);
    // At 200 kHz the band starts at lag 100, beyond the half window.
    assert_eq!(get_pitch_clarity(&samples, 200_000), 0);
    assert_eq!(get_pitch_clarity(&samples, 0), 0);
    assert_eq!(get_pitch_clarity(&samples, 59), 0);
}

#[test]
fn clarity_of_a_sine_is_high() {
    let samples = sine(440.0, 44100.0, 1.0, 2048);
    let clarity = get_pitch_clarity(&samples, 44100) as f64 / ONE as f64;
    assert!(clarity > 0.85 && clarity <= 1.0, "got {}", clarity);
}

#[test]
fn clarity_lies_in_the_unit_interval() {
    let mut state: u32 = 12345;
    for round in 0..20 {
        let mut samples: Vec<i32> = Vec::new();
        for _ in 0..(64 + round * 7) {
            state = state.wrapping_mul(1_664_525).wrapping_add(1_013_904_223);
            samples.push(state as i32);
        }
        for rate in [0u32, 100, 1000, 8000, 44100, u32::MAX] {
            let clarity = get_pitch_clarity(&samples, rate);
            assert!(0 <= clarity && clarity <= ONE, "got {}", clarity);
        }
    }
}

#[test]
fn clarity_is_repeatable() {
    let samples = sine(220.0, 44100.0, 0.5, 1024);
    assert_eq!(
        get_pitch_clarity(&samples, 44100),
        get_pitch_clarity(&samples.clone(), 44100)
    );
}

#[test]
fn clarity_of_extreme_samples() {
    let samples = [i32::MIN; 8];
    // From lag zero the peak is the energy itself.
    assert_eq!(get_pitch_clarity(&samples, 120), ONE);
    // Lags two and three leave two and one of the four products.
    assert_eq!(get_pitch_clarity(&samples, 4000), ONE / 2);
    assert_eq!(get_pitch_clarity(&samples, 6000), ONE / 4);
}
