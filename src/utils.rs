//! The cached record of a track's metrics, the decision to analyse a track
//! again, and shortening of file names for display.
use vstd::prelude::*;
use vstd::string::*;
use vstd::utf8::{decode_utf8, encode_utf8_decode_utf8, is_char_boundary};
use crate::cache::MetricsCache;
use crate::descriptors::SpectrumMetrics;

verus! {

/// The metrics of one file, as kept between runs, with the size and
/// modification time (Unix seconds) that the file had when it was analysed.
#[derive(Clone, Debug)]
pub struct CachedMetrics {
    pub filename: String,
    pub centroid: u64,
    pub spread: u64,
    pub zero_crossing_rate: u64,
    pub band_percentages: Vec<u64>,
    pub file_size: Option<u64>,
    pub modified_time: Option<u64>,
}

impl CachedMetrics {
    /// The record of `metrics` for `filename`.
    pub fn from_metrics(
        filename: String,
        metrics: &SpectrumMetrics,
        file_size: Option<u64>,
        modified_time: Option<u64>,
    ) -> (r: CachedMetrics)
        ensures
            r.filename@ == filename@,
            r.centroid == metrics.centroid,
            r.spread == metrics.spread,
            r.zero_crossing_rate == metrics.zero_crossing_rate,
            r.band_percentages@ == metrics.band_percentages@,
            r.file_size == file_size,
            r.modified_time == modified_time,
    {
        CachedMetrics {
            filename,
            centroid: metrics.centroid,
            spread: metrics.spread,
            zero_crossing_rate: metrics.zero_crossing_rate,
            band_percentages: metrics.band_percentages.clone(),
            file_size,
            modified_time,
        }
    }

    /// The metrics that this record holds.
    pub fn to_metrics(&self) -> (r: SpectrumMetrics)
        ensures
            r.centroid == self.centroid,
            r.spread == self.spread,
            r.zero_crossing_rate == self.zero_crossing_rate,
            r.band_percentages@ == self.band_percentages@,
    {
        SpectrumMetrics {
            centroid: self.centroid,
            spread: self.spread,
            zero_crossing_rate: self.zero_crossing_rate,
            band_percentages: self.band_percentages.clone(),
        }
    }
}

/// Both values are known and they differ.
pub open spec fn known_and_different(recorded: Option<u64>, current: Option<u64>) -> bool {
    recorded is Some && current is Some && recorded->Some_0 != current->Some_0
}

/// Whether the file with this cached record must be analysed again: it has
/// no record, or its current size or modification time is known and differs
/// from the one recorded. Unknown values (not recorded, or not readable now)
/// never invalidate a record.
pub open spec fn needs_analysis(
    cached: Option<CachedMetrics>,
    file_size: Option<u64>,
    modified_time: Option<u64>,
) -> bool {
    cached is None || known_and_different(cached->Some_0.file_size, file_size)
        || known_and_different(cached->Some_0.modified_time, modified_time)
}

/// Whether `filename`, whose current size and modification time are
/// `file_size` and `modified_time` where they could be read, must be analysed
/// rather than taken from `cache`.
pub fn should_analyze(
    cache: &MetricsCache,
    filename: &String,
    file_size: Option<u64>,
    modified_time: Option<u64>,
) -> (r: bool)
    requires
        cache.wf(),
    ensures
        r == needs_analysis(cache.record(filename@), file_size, modified_time),
{
    match cache.get(filename) {
        None => true,
        Some(c) => {
            let size_changed = match (c.file_size, file_size) {
                (Some(a), Some(b)) => a != b,
                _ => false,
            };
            let time_changed = match (c.modified_time, modified_time) {
                (Some(a), Some(b)) => a != b,
                _ => false,
            };
            size_changed || time_changed
        },
    }
}

/// `name` itself when its UTF-8 encoding is at most `max_len` bytes long;
/// otherwise the text of its first `max_len - 3` bytes followed by `...`.
/// Cutting is allowed only at a character boundary.
pub fn truncate_filename(name: &str, max_len: usize) -> (r: String)
    requires
        name.spec_bytes().len() <= usize::MAX,
        name.spec_bytes().len() <= max_len || (max_len >= 3 && is_char_boundary(
            name.spec_bytes(),
            max_len - 3,
        )),
    ensures
        name.spec_bytes().len() <= max_len ==> r@ == name@,
        name.spec_bytes().len() > max_len ==> r@ == decode_utf8(
            name.spec_bytes().subrange(0, max_len - 3),
        ) + "..."@,
{
    if name.len() <= max_len {
        String::from_str(name)
    } else {
        let (head, _tail) = name.split_at(max_len - 3);
        proof {
            encode_utf8_decode_utf8(head@);
        }
        let mut r = String::from_str(head);
        r.append("...");
        r
    }
}

} // verus!
