//! The band table and the mapping of band edges onto FFT bins.
use vstd::prelude::*;

verus! {

/// Number of samples in one analysis frame (a power of two).
pub const FRAME_SIZE: usize = 2048;

/// Number of usable bins of one frame's spectrum (up to the Nyquist frequency).
pub const HALF_FRAME: usize = 1024;

/// Number of bands in the table that `get_bands` returns.
pub const BAND_COUNT: usize = 7;

/// A frequency range `[low_hz, high_hz)` in whole hertz.
#[derive(Clone, Copy, Debug, PartialEq, Eq, Structural)]
pub struct FrequencyBand {
    pub low_hz: usize,
    pub high_hz: usize,
}

/// The FFT bins `[low_bin, high_bin)` that a band covers; empty when
/// `low_bin >= high_bin`.
#[derive(Clone, Copy, Debug, PartialEq, Eq, Structural)]
pub struct BandBinRange {
    pub low_bin: usize,
    pub high_bin: usize,
}

pub open spec fn band(low_hz: usize, high_hz: usize) -> FrequencyBand {
    FrequencyBand { low_hz, high_hz }
}

/// Sub-bass, bass, low-mids, mids, high-mids, highs and air; the air band
/// ends at the Nyquist frequency.
pub open spec fn band_table(sample_rate: usize) -> Seq<FrequencyBand> {
    seq![
        band(20, 60),
        band(60, 250),
        band(250, 500),
        band(500, 2000),
        band(2000, 4000),
        band(4000, 6000),
        band(6000, (sample_rate / 2) as usize),
    ]
}

/// The bin of a frequency: `hz * FRAME_SIZE / sample_rate`, rounded down and
/// capped at the Nyquist bin.
pub open spec fn hz_to_bin(hz: nat, sample_rate: nat) -> nat {
    let b = hz * FRAME_SIZE as nat / sample_rate;
    if b > HALF_FRAME as nat {
        HALF_FRAME as nat
    } else {
        b
    }
}

pub open spec fn bin_range_of(b: FrequencyBand, sample_rate: nat) -> BandBinRange {
    BandBinRange {
        low_bin: hz_to_bin(b.low_hz as nat, sample_rate) as usize,
        high_bin: hz_to_bin(b.high_hz as nat, sample_rate) as usize,
    }
}

/// The band table for `sample_rate`, ordered from low to high: the lower
/// edges increase strictly and the last band ends at `sample_rate / 2`.
pub fn get_bands(sample_rate: usize) -> (r: Vec<FrequencyBand>)
    ensures
        r@ == band_table(sample_rate),
        r@.len() == BAND_COUNT,
        forall|i: int, j: int| 0 <= i < j < r@.len() ==> r@[i].low_hz < r@[j].low_hz,
        r@.last().high_hz == sample_rate / 2,
{
    let r = vec![
        FrequencyBand { low_hz: 20, high_hz: 60 },
        FrequencyBand { low_hz: 60, high_hz: 250 },
        FrequencyBand { low_hz: 250, high_hz: 500 },
        FrequencyBand { low_hz: 500, high_hz: 2000 },
        FrequencyBand { low_hz: 2000, high_hz: 4000 },
        FrequencyBand { low_hz: 4000, high_hz: 6000 },
        FrequencyBand { low_hz: 6000, high_hz: sample_rate / 2 },
    ];
    assert(r@ =~= band_table(sample_rate));
    r
}

/// Converts a frequency to its bin at `sample_rate`.
fn bin_of(hz: usize, sample_rate: usize) -> (r: usize)
    requires
        sample_rate > 0,
    ensures
        r == hz_to_bin(hz as nat, sample_rate as nat),
{
    let b: u128 = (hz as u128) * (FRAME_SIZE as u128) / (sample_rate as u128);
    if b > HALF_FRAME as u128 {
        HALF_FRAME
    } else {
        b as usize
    }
}

/// The bins that `b` covers at `sample_rate`; both ends lie in
/// `[0, FRAME_SIZE / 2]`.
pub fn band_bin_range(b: &FrequencyBand, sample_rate: usize) -> (r: BandBinRange)
    requires
        sample_rate > 0,
    ensures
        r == bin_range_of(*b, sample_rate as nat),
        r.low_bin <= HALF_FRAME,
        r.high_bin <= HALF_FRAME,
{
    BandBinRange { low_bin: bin_of(b.low_hz, sample_rate), high_bin: bin_of(b.high_hz, sample_rate) }
}

} // verus!
