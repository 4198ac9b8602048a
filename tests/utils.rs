use band_spectrum::cache::MetricsCache;
use band_spectrum::descriptors::SpectrumMetrics;
use band_spectrum::utils::{should_analyze, truncate_filename, CachedMetrics};

fn record(size: Option<u64>, time: Option<u64>) -> CachedMetrics {
    let m = SpectrumMetrics {
        centroid: 4_500_000_000,
        spread: 1_200_000_000,
        zero_crossing_rate: 300_000_000,
        band_percentages: vec![0, 0, 0, 10_000_000_000, 0, 0, 0],
    };
    CachedMetrics::from_metrics("a.mp3".to_string(), &m, size, time)
}

#[test]
fn record_round_trip() {
    let c = record(Some(10), Some(20));
    assert_eq!(c.filename, "a.mp3");
    let m = c.to_metrics();
    assert_eq!(m.centroid, 4_500_000_000);
    assert_eq!(m.spread, 1_200_000_000);
    assert_eq!(m.zero_crossing_rate, 300_000_000);
    assert_eq!(m.band_percentages, vec![0, 0, 0, 10_000_000_000, 0, 0, 0]);
}

fn cache_with(record: CachedMetrics) -> MetricsCache {
    let mut cache = MetricsCache::new();
    cache.insert(record);
    cache
}

#[test]
fn missing_record_is_analysed() {
    let name = "a.mp3".to_string();
    assert!(should_analyze(&MetricsCache::new(), &name, Some(1), Some(2)));
    assert!(should_analyze(&MetricsCache::new(), &name, None, None));
    let other = cache_with(record(Some(1), Some(2)));
    assert!(should_analyze(&other, &"b.mp3".to_string(), Some(1), Some(2)));
}

#[test]
fn unchanged_file_uses_record() {
    let name = "a.mp3".to_string();
    let cache = cache_with(record(Some(10), Some(20)));
    assert!(!should_analyze(&cache, &name, Some(10), Some(20)));
    assert!(!should_analyze(&cache, &name, None, None));
    let unknown = cache_with(record(None, None));
    assert!(!should_analyze(&unknown, &name, Some(99), Some(99)));
}

#[test]
fn changed_size_or_time_is_analysed() {
    let name = "a.mp3".to_string();
    let cache = cache_with(record(Some(10), Some(20)));
    assert!(should_analyze(&cache, &name, Some(11), Some(20)));
    assert!(should_analyze(&cache, &name, Some(10), Some(21)));
    assert!(!should_analyze(&cache, &name, Some(10), None));
}

#[test]
fn short_names_are_kept() {
    assert_eq!(truncate_filename("song.mp3", 40), "song.mp3");
    assert_eq!(truncate_filename("abcdefgh", 8), "abcdefgh");
}

#[test]
fn long_names_are_shortened() {
    assert_eq!(truncate_filename("abcdefghij", 8), "abcde...");
    assert_eq!(truncate_filename("abcd", 3), "...");
    // "é" is two bytes long: lengths and cuts count bytes
    assert_eq!(truncate_filename("ééé", 5), "é...");
    assert_eq!(truncate_filename("ééééé.mp3", 7), "éé...");
    assert_eq!(truncate_filename("ééé", 6), "ééé");
}
