use band_spectrum::descriptors::{band_percentages, band_positions, calculate_metrics, FULL_SCALE};

#[test]
fn percentages_of_simple_energies() {
    assert_eq!(band_percentages(&vec![1, 1, 2, 0]), vec![2_500_000_000, 2_500_000_000, 5_000_000_000, 0]);
}

#[test]
fn percentages_round_down_but_stay_close_to_full() {
    let p = band_percentages(&vec![1, 1, 1]);
    assert_eq!(p, vec![3_333_333_333, 3_333_333_333, 3_333_333_333]);
    let s: u64 = p.iter().sum();
    assert!(s <= FULL_SCALE && s + 3 > FULL_SCALE);
    let sum_pct = s as f64 / 1e8;
    assert!((sum_pct - 100.0).abs() <= 1e-3);
}

#[test]
fn percentages_of_large_energies() {
    let p = band_percentages(&vec![u64::MAX, u64::MAX, 0, u64::MAX, u64::MAX]);
    assert_eq!(p, vec![2_500_000_000, 2_500_000_000, 0, 2_500_000_000, 2_500_000_000]);
}

#[test]
fn percentages_sum_near_full_scale() {
    let e: Vec<u64> = vec![17, 4_000_000, 123_456_789, 9, 1, 0, 77_777];
    let p = band_percentages(&e);
    let s: u64 = p.iter().sum();
    assert!(s <= FULL_SCALE && s + 7 > FULL_SCALE);
    assert!(p.iter().all(|&x| x <= FULL_SCALE));
}

#[test]
fn positions_table() {
    assert_eq!(band_positions(), vec![8, 18, 30, 45, 62, 78, 92]);
}

#[test]
fn all_zero_energy_gives_zero_metrics() {
    let m = calculate_metrics(&vec![0; 7], 0);
    assert_eq!(m.band_percentages, vec![0; 7]);
    assert_eq!(m.centroid, 0);
    assert_eq!(m.spread, 0);
}

#[test]
fn single_band_centroid_and_no_spread() {
    let m = calculate_metrics(&vec![0, 0, 0, 5000, 0, 0, 0], 1234);
    assert_eq!(m.band_percentages, vec![0, 0, 0, FULL_SCALE, 0, 0, 0]);
    assert_eq!(m.centroid, 4_500_000_000);
    assert_eq!(m.spread, 0);
    assert_eq!(m.zero_crossing_rate, 1234);
}

#[test]
fn two_neighbouring_bands() {
    let m = calculate_metrics(&vec![0, 0, 0, 10, 10, 0, 0], 0);
    assert_eq!(m.centroid, 5_350_000_000);
    // spread 8.5 positions, 8.5 / 35 = 24.2857142857%
    assert_eq!(m.spread, 2_428_571_428);
}

#[test]
fn extreme_bands_saturate_spread() {
    let m = calculate_metrics(&vec![3, 0, 0, 0, 0, 0, 3], 0);
    assert_eq!(m.centroid, 5_000_000_000);
    assert_eq!(m.spread, FULL_SCALE);
}

#[test]
fn metrics_stay_in_range() {
    let cases: Vec<Vec<u64>> = vec![
        vec![u64::MAX; 7],
        vec![1, 0, 0, 0, 0, 0, 0],
        vec![0, 0, 0, 0, 0, 0, 1],
        vec![5, 1, 900, 3, 77, 0, 12],
    ];
    for e in cases {
        let m = calculate_metrics(&e, 0);
        assert!(m.centroid <= FULL_SCALE);
        assert!(m.spread <= FULL_SCALE);
    }
}
