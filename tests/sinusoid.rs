use band_spectrum::bands::{get_bands, FRAME_SIZE, HALF_FRAME};
use band_spectrum::descriptors::{calculate_metrics, FULL_SCALE};
use band_spectrum::energy::{frame_starts, BandEnergyAccumulator};
use rustfft::num_complex::Complex;
use rustfft::FftPlanner;

fn band_shares_of_tone(freq: f32, sample_rate: usize) -> Vec<u64> {
    let samples: Vec<f32> = (0..sample_rate)
        .map(|i| (2.0 * std::f32::consts::PI * freq * i as f32 / sample_rate as f32).sin() * 10000.0)
        .collect();
    let mut planner = FftPlanner::<f32>::new();
    let fft = planner.plan_fft_forward(FRAME_SIZE);
    let mut acc = BandEnergyAccumulator::new(&get_bands(sample_rate), sample_rate);
    for start in frame_starts(samples.len()) {
        let mut buf: Vec<Complex<f32>> = samples[start..start + FRAME_SIZE]
            .iter()
            .enumerate()
            .map(|(j, &s)| {
                let w = 0.5
                    * (1.0 - (2.0 * std::f32::consts::PI * j as f32 / (FRAME_SIZE as f32 - 1.0)).cos());
                Complex::new(s * w, 0.0)
            })
            .collect();
        fft.process(&mut buf);
        let power: Vec<u64> =
            buf[..HALF_FRAME].iter().map(|c| (c.re * c.re + c.im * c.im).round() as u64).collect();
        acc.add_frame(&power);
    }
    calculate_metrics(&acc.finish().unwrap(), 0).band_percentages
}

#[test]
fn tone_at_1000_hz_lands_in_mids() {
    let p = band_shares_of_tone(1000.0, 44100);
    assert!(p[3] >= FULL_SCALE / 10 * 9, "{:?}", p);
}

#[test]
fn tone_at_120_hz_lands_in_bass() {
    let p = band_shares_of_tone(120.0, 44100);
    assert!(p[1] >= FULL_SCALE / 10 * 9, "{:?}", p);
}

#[test]
fn tone_at_10000_hz_lands_in_air() {
    let p = band_shares_of_tone(10000.0, 48000);
    assert!(p[6] >= FULL_SCALE / 10 * 9, "{:?}", p);
}
