use std::time::Duration;
use typthon::metrics::{PerformanceMetrics, TimingStats};

fn nanos(d: Duration) -> u64 {
    d.as_nanos() as u64
}

#[test]
fn test_timing() {
    let mut metrics = PerformanceMetrics::new();

    metrics.record_timing("test".to_string(), nanos(Duration::from_millis(100)));
    metrics.record_timing("test".to_string(), nanos(Duration::from_millis(200)));
    metrics.record_timing("test".to_string(), nanos(Duration::from_millis(150)));

    let stats = metrics.get_timing_stats("test").unwrap();
    assert_eq!(stats.count, 3);
    assert_eq!(stats.min, nanos(Duration::from_millis(100)));
    assert_eq!(stats.max, nanos(Duration::from_millis(200)));
}

#[test]
fn test_counter() {
    let mut metrics = PerformanceMetrics::new();

    metrics.increment("requests".to_string());
    metrics.increment("requests".to_string());
    metrics.add("bytes".to_string(), 1000);

    assert_eq!(metrics.get_counter("requests"), 2);
    assert_eq!(metrics.get_counter("bytes"), 1000);
}

#[test]
fn timing_stats_of_no_measurements_are_zero() {
    let stats = TimingStats::from_durations(&[]);
    assert_eq!(stats, TimingStats { count: 0, total: 0, mean: 0, min: 0, max: 0 });
}

#[test]
fn timing_stats_total_and_mean_round_down() {
    let stats = TimingStats::from_durations(&[7, 3, 4]);
    assert_eq!(stats.count, 3);
    assert_eq!(stats.total, 14);
    assert_eq!(stats.mean, 4);
    assert_eq!(stats.min, 3);
    assert_eq!(stats.max, 7);
}

#[test]
fn timing_stats_total_beyond_one_measurement_range() {
    let stats = TimingStats::from_durations(&[u64::MAX, u64::MAX]);
    assert_eq!(stats.total, 2 * (u64::MAX as u128));
    assert_eq!(stats.mean, u64::MAX as u128);
}

#[test]
fn unknown_names_have_no_stats_and_zero_counters() {
    let mut metrics = PerformanceMetrics::new();
    assert!(metrics.get_timing_stats("parse").is_none());
    assert_eq!(metrics.get_counter("files"), 0);
    metrics.record_timing("parse".to_string(), 50);
    metrics.increment("files".to_string());
    assert!(metrics.get_timing_stats("parse").is_some());
    assert_eq!(metrics.get_counter("files"), 1);
    metrics.reset();
    assert!(metrics.get_timing_stats("parse").is_none());
    assert_eq!(metrics.get_counter("files"), 0);
}
