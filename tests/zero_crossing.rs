use band_spectrum::descriptors::FULL_SCALE;
use band_spectrum::zero_crossing::calculate_zero_crossing_rate;

#[test]
fn constant_signal_has_no_crossings() {
    assert_eq!(calculate_zero_crossing_rate(&vec![false; 1000]), 0);
    assert_eq!(calculate_zero_crossing_rate(&vec![true; 1000]), 0);
}

#[test]
fn alternating_signal_saturates() {
    let s: Vec<bool> = (0..1000).map(|i| i % 2 == 1).collect();
    assert_eq!(calculate_zero_crossing_rate(&s), FULL_SCALE);
    assert_eq!(calculate_zero_crossing_rate(&vec![false, true]), FULL_SCALE);
}

#[test]
fn short_sequences_score_zero() {
    assert_eq!(calculate_zero_crossing_rate(&vec![]), 0);
    assert_eq!(calculate_zero_crossing_rate(&vec![true]), 0);
}

#[test]
fn one_crossing_in_a_hundred_samples() {
    // rate 0.01, 0.01 / 0.15 = 6.666...%
    let s: Vec<bool> = (0..100).map(|i| i >= 50).collect();
    assert_eq!(calculate_zero_crossing_rate(&s), 666_666_666);
}

#[test]
fn crossing_counted_both_ways() {
    // two crossings in 400 samples: rate 0.005, 3.33%
    let s: Vec<bool> = (0..400).map(|i| (100..200).contains(&i)).collect();
    assert_eq!(calculate_zero_crossing_rate(&s), 333_333_333);
}

#[test]
fn one_crossing_in_twenty_samples() {
    // ten positive samples, then ten negative ones: rate 0.05, 0.05 / 0.15 = 33.33...%
    let s: Vec<bool> = (0..20).map(|i| i >= 10).collect();
    let r = calculate_zero_crossing_rate(&s);
    assert_eq!(r, 3_333_333_333);
    let pct = r as f64 / 1e8;
    assert!((pct - 100.0 / 3.0).abs() < 1e-3);
}
