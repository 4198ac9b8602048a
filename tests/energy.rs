use band_spectrum::bands::{get_bands, FRAME_SIZE, HALF_FRAME};
use band_spectrum::descriptors::calculate_metrics;
use band_spectrum::energy::{check_input, frame_starts, AnalysisError, BandEnergyAccumulator};
use band_spectrum::zero_crossing::calculate_zero_crossing_rate;

#[test]
fn frame_starts_step_by_hop() {
    assert_eq!(frame_starts(3072), vec![0, 512, 1024]);
    assert_eq!(frame_starts(3071), vec![0, 512]);
}

#[test]
fn one_whole_frame_is_processed() {
    assert_eq!(frame_starts(FRAME_SIZE), vec![0]);
}

#[test]
fn short_buffer_has_no_frames() {
    assert!(frame_starts(0).is_empty());
    assert!(frame_starts(2047).is_empty());
    assert_eq!(check_input(2047, 44100), Err(AnalysisError::InsufficientFrames));
    assert_eq!(check_input(1, 8000), Err(AnalysisError::InsufficientFrames));
    let acc = BandEnergyAccumulator::new(&get_bands(44100), 44100);
    assert_eq!(acc.finish(), Err(AnalysisError::InsufficientFrames));
}

#[test]
fn empty_input_is_rejected() {
    assert_eq!(check_input(0, 44100), Err(AnalysisError::EmptyInput));
    assert_eq!(check_input(5000, 0), Err(AnalysisError::EmptyInput));
    assert_eq!(check_input(2048, 44100), Ok(()));
}

#[test]
fn accumulator_averages_band_sums() {
    let mut acc = BandEnergyAccumulator::new(&get_bands(44100), 44100);
    acc.add_frame(&vec![1; HALF_FRAME]);
    acc.add_frame(&vec![3; HALF_FRAME]);
    assert_eq!(acc.frame_count(), 2);
    // bins per band at 44100 Hz: 2, 9, 12, 69, 93, 93, 746
    assert_eq!(acc.finish(), Ok(vec![4, 18, 24, 138, 186, 186, 1492]));
}

#[test]
fn one_frame_is_enough_for_averages() {
    let mut acc = BandEnergyAccumulator::new(&get_bands(44100), 44100);
    acc.add_frame(&vec![5; HALF_FRAME]);
    assert_eq!(acc.finish(), Ok(vec![10, 45, 60, 345, 465, 465, 3730]));
}

#[test]
fn accumulator_skips_empty_bands() {
    let mut acc = BandEnergyAccumulator::new(&get_bands(8000), 8000);
    acc.add_frame(&vec![2; HALF_FRAME]);
    assert_eq!(acc.finish(), Ok(vec![20, 98, 128, 768, 1024, 0, 0]));
}

#[test]
fn silence_gives_zero_metrics() {
    let sample_rate = 44100usize;
    let n = 92610usize; // 2.1 s
    assert_eq!(check_input(n, sample_rate), Ok(()));
    let starts = frame_starts(n);
    assert_eq!(starts.len(), 177);
    let mut acc = BandEnergyAccumulator::new(&get_bands(sample_rate), sample_rate);
    for _ in &starts {
        acc.add_frame(&vec![0; HALF_FRAME]);
    }
    let e = acc.finish().unwrap();
    assert_eq!(e, vec![0; 7]);
    let zcr = calculate_zero_crossing_rate(&vec![false; n]);
    let m = calculate_metrics(&e, zcr);
    assert_eq!(m.band_percentages, vec![0; 7]);
    assert_eq!(m.centroid, 0);
    assert_eq!(m.spread, 0);
    assert_eq!(m.zero_crossing_rate, 0);
}
