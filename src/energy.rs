//! Framing of a sample buffer and accumulation of per-band energy over the
//! frames of one track.
use vstd::prelude::*;
use crate::bands::{
    band_bin_range, bin_range_of, BandBinRange, FrequencyBand, FRAME_SIZE, HALF_FRAME,
};

verus! {

/// Distance between the starts of two consecutive frames.
pub const HOP_SIZE: usize = 512;

/// Why a track cannot be analysed.
#[derive(Clone, Copy, Debug, PartialEq, Eq, Structural)]
pub enum AnalysisError {
    /// No audio data: no samples, or no sample rate.
    EmptyInput,
    /// Fewer samples than one frame, so no frame can be processed.
    InsufficientFrames,
}

/// Checks that a track of `sample_count` samples at `sample_rate` holds at
/// least one whole frame.
pub fn check_input(sample_count: usize, sample_rate: usize) -> (r: Result<(), AnalysisError>)
    ensures
        r == Err::<(), AnalysisError>(AnalysisError::EmptyInput) <==> (sample_count == 0
            || sample_rate == 0),
        r == Err::<(), AnalysisError>(AnalysisError::InsufficientFrames) <==> (sample_count > 0
            && sample_rate > 0 && sample_count < FRAME_SIZE),
        r is Ok <==> (sample_rate > 0 && sample_count >= FRAME_SIZE),
{
    if sample_count == 0 || sample_rate == 0 {
        Err(AnalysisError::EmptyInput)
    } else if sample_count < FRAME_SIZE {
        Err(AnalysisError::InsufficientFrames)
    } else {
        Ok(())
    }
}

/// Number of whole frames in a buffer of `n` samples.
pub open spec fn frame_count_of(n: int) -> int {
    if n < FRAME_SIZE {
        0
    } else {
        (n - FRAME_SIZE) / HOP_SIZE as int + 1
    }
}

/// The start of every frame `[start, start + FRAME_SIZE)` that fits in a
/// buffer of `sample_count` samples, one every `HOP_SIZE` samples from 0.
pub fn frame_starts(sample_count: usize) -> (r: Vec<usize>)
    ensures
        forall|k: int| 0 <= k < r@.len() ==> r@[k] == k * HOP_SIZE,
        forall|k: int| 0 <= k < r@.len() ==> r@[k] + FRAME_SIZE <= sample_count,
        r@.len() * HOP_SIZE + FRAME_SIZE > sample_count,
        r@.len() == frame_count_of(sample_count as int),
        sample_count < FRAME_SIZE ==> r@.len() == 0,
{
    let mut r: Vec<usize> = Vec::new();
    let mut start: usize = 0;
    while sample_count >= FRAME_SIZE && start <= sample_count - FRAME_SIZE
        invariant
            start == r@.len() * HOP_SIZE,
            start <= sample_count + HOP_SIZE,
            forall|k: int| 0 <= k < r@.len() ==> r@[k] == k * HOP_SIZE,
            forall|k: int| 0 <= k < r@.len() ==> r@[k] + FRAME_SIZE <= sample_count,
        decreases sample_count + HOP_SIZE - start,
    {
        r.push(start);
        start = start + HOP_SIZE;
    }
    proof {
        if r@.len() > 0 {
            assert(r@[0] + FRAME_SIZE <= sample_count);
            let k = r@.len() - 1;
            assert(r@[k] + FRAME_SIZE <= sample_count);
            vstd::arithmetic::div_mod::lemma_fundamental_div_mod_converse(
                sample_count - FRAME_SIZE,
                HOP_SIZE as int,
                k,
                sample_count - FRAME_SIZE - k * HOP_SIZE,
            );
        }
    }
    r
}

/// Sum of `s[j]` for `lo <= j < hi`; zero when `lo >= hi`.
pub open spec fn sum_between(s: Seq<u64>, lo: int, hi: int) -> int
    decreases hi - lo,
{
    if hi <= lo {
        0
    } else {
        sum_between(s, lo, hi - 1) + s[hi - 1]
    }
}

/// Energy of one frame in the bins of `range`.
pub open spec fn band_power(power: Seq<u64>, range: BandBinRange) -> int {
    sum_between(power, range.low_bin as int, range.high_bin as int)
}

pub open spec fn u128_max() -> int {
    0xffff_ffff_ffff_ffff_ffff_ffff_ffff_ffff
}

pub open spec fn u64_max() -> int {
    0xffff_ffff_ffff_ffff
}

pub open spec fn saturate(x: int, cap: int) -> int {
    if x > cap {
        cap
    } else {
        x
    }
}

/// Running per-band energy totals over the frames of one track.
pub struct BandEnergyAccumulator {
    ranges: Vec<BandBinRange>,
    totals: Vec<u128>,
    frames: u64,
}

impl BandEnergyAccumulator {
    /// The bins of each band.
    pub closed spec fn spec_ranges(&self) -> Seq<BandBinRange> {
        self.ranges@
    }

    /// The energy summed so far in each band (saturating at `u128::MAX`).
    pub closed spec fn spec_totals(&self) -> Seq<int> {
        self.totals@.map_values(|t: u128| t as int)
    }

    /// The number of frames added so far.
    pub closed spec fn spec_frames(&self) -> int {
        self.frames as int
    }

    pub closed spec fn wf(&self) -> bool {
        &&& self.ranges@.len() == self.totals@.len()
        &&& forall|i: int| 0 <= i < self.ranges@.len() ==> self.ranges@[i].high_bin <= HALF_FRAME
    }

    /// An accumulator for `bands` at `sample_rate`, with every total zero.
    pub fn new(bands: &Vec<FrequencyBand>, sample_rate: usize) -> (r: Self)
        requires
            sample_rate > 0,
        ensures
            r.wf(),
            r.spec_ranges().len() == bands@.len(),
            forall|i: int|
                0 <= i < bands@.len() ==> r.spec_ranges()[i] == bin_range_of(
                    bands@[i],
                    sample_rate as nat,
                ),
            r.spec_totals().len() == bands@.len(),
            forall|i: int| 0 <= i < bands@.len() ==> r.spec_totals()[i] == 0,
            r.spec_frames() == 0,
    {
        let mut ranges: Vec<BandBinRange> = Vec::new();
        let mut totals: Vec<u128> = Vec::new();
        let mut i: usize = 0;
        while i < bands.len()
            invariant
                0 <= i <= bands@.len(),
                sample_rate > 0,
                ranges@.len() == i,
                totals@.len() == i,
                forall|j: int|
                    0 <= j < i ==> ranges@[j] == bin_range_of(bands@[j], sample_rate as nat),
                forall|j: int| 0 <= j < i ==> ranges@[j].high_bin <= HALF_FRAME,
                forall|j: int| 0 <= j < i ==> totals@[j] == 0,
            decreases bands@.len() - i,
        {
            ranges.push(band_bin_range(&bands[i], sample_rate));
            totals.push(0);
            i = i + 1;
        }
        BandEnergyAccumulator { ranges, totals, frames: 0 }
    }

    /// The number of frames added so far.
    pub fn frame_count(&self) -> (r: u64)
        ensures
            r == self.spec_frames(),
    {
        self.frames
    }

    /// Adds one frame's power spectrum (`power[j]` is the squared magnitude
    /// of bin `j`) to the total of every band.
    pub fn add_frame(&mut self, power: &Vec<u64>)
        requires
            old(self).wf(),
            power@.len() == HALF_FRAME,
            old(self).spec_frames() < u64_max(),
        ensures
            final(self).wf(),
            final(self).spec_ranges() == old(self).spec_ranges(),
            final(self).spec_frames() == old(self).spec_frames() + 1,
            final(self).spec_totals().len() == old(self).spec_totals().len(),
            forall|i: int|
                0 <= i < old(self).spec_totals().len() ==> final(self).spec_totals()[i] == saturate(
                    old(self).spec_totals()[i] + band_power(power@, old(self).spec_ranges()[i]),
                    u128_max(),
                ),
    {
        let mut i: usize = 0;
        while i < self.ranges.len()
            invariant
                self.wf(),
                self.ranges@ == old(self).ranges@,
                self.frames == old(self).frames,
                power@.len() == HALF_FRAME,
                0 <= i <= self.totals@.len(),
                self.totals@.len() == old(self).totals@.len(),
                forall|j: int|
                    0 <= j < i ==> self.totals@[j] as int == saturate(
                        old(self).totals@[j] + band_power(power@, self.ranges@[j]),
                        u128_max(),
                    ),
                forall|j: int| i <= j < self.totals@.len() ==> self.totals@[j] == old(self).totals@[j],
            decreases self.ranges@.len() - i,
        {
            let e: u128 = bins_sum(power, self.ranges[i]);
            let t: u128 = self.totals[i];
            let v: u128 = if t > u128::MAX - e {
                u128::MAX
            } else {
                t + e
            };
            self.totals.set(i, v);
            i = i + 1;
        }
        self.frames = self.frames + 1;
        assert(self.spec_totals().len() == old(self).spec_totals().len());
    }

    /// The average energy of each band over the frames added, capped at
    /// `u64::MAX`; `InsufficientFrames` when no frame was added.
    pub fn finish(&self) -> (r: Result<Vec<u64>, AnalysisError>)
        requires
            self.wf(),
        ensures
            self.spec_frames() == 0 <==> r == Err::<Vec<u64>, AnalysisError>(
                AnalysisError::InsufficientFrames,
            ),
            r is Ok <==> self.spec_frames() > 0,
            r is Ok ==> r->Ok_0@.len() == self.spec_totals().len(),
            r is Ok ==> forall|i: int|
                0 <= i < self.spec_totals().len() ==> r->Ok_0@[i] == saturate(
                    self.spec_totals()[i] / self.spec_frames(),
                    u64_max(),
                ),
    {
        if self.frames == 0 {
            return Err(AnalysisError::InsufficientFrames);
        }
        let mut r: Vec<u64> = Vec::new();
        let mut i: usize = 0;
        while i < self.totals.len()
            invariant
                self.frames > 0,
                0 <= i <= self.totals@.len(),
                r@.len() == i,
                forall|j: int|
                    0 <= j < i ==> r@[j] == saturate(
                        self.totals@[j] as int / self.frames as int,
                        u64_max(),
                    ),
            decreases self.totals@.len() - i,
        {
            let a: u128 = self.totals[i] / (self.frames as u128);
            let v: u64 = if a > u64::MAX as u128 {
                u64::MAX
            } else {
                a as u64
            };
            r.push(v);
            i = i + 1;
        }
        Ok(r)
    }
}

proof fn lemma_sum_between_bound(s: Seq<u64>, lo: int, hi: int)
    requires
        0 <= lo,
        hi <= s.len(),
    ensures
        0 <= sum_between(s, lo, hi),
        lo <= hi ==> sum_between(s, lo, hi) <= (hi - lo) * u64_max(),
    decreases hi - lo,
{
    if lo < hi {
        lemma_sum_between_bound(s, lo, hi - 1);
    }
}

/// The energy of one frame in the bins of `range`.
fn bins_sum(power: &Vec<u64>, range: BandBinRange) -> (r: u128)
    requires
        power@.len() == HALF_FRAME,
        range.high_bin <= HALF_FRAME,
    ensures
        r == band_power(power@, range),
{
    let mut s: u128 = 0;
    let mut j: usize = range.low_bin;
    if j >= range.high_bin {
        return 0;
    }
    while j < range.high_bin
        invariant
            range.low_bin <= j <= range.high_bin <= HALF_FRAME,
            power@.len() == HALF_FRAME,
            s == sum_between(power@, range.low_bin as int, j as int),
        decreases range.high_bin - j,
    {
        proof {
            lemma_sum_between_bound(power@, range.low_bin as int, j as int);
        }
        s = s + power[j] as u128;
        j = j + 1;
    }
    s
}

} // verus!
