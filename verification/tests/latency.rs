use cm108::latency::LatencyHistogram;
use cm108::types::LatencyStats;

#[test]
fn empty_returns_zeros() {
    let s = LatencyHistogram::new().to_stats();
    assert_eq!(s, LatencyStats::default());
}

#[test]
fn single_sample_min_max() {
    let mut h = LatencyHistogram::new();
    h.record(17);
    let s = h.to_stats();
    assert_eq!(s.min_us, 17);
    assert_eq!(s.max_us, 17);
    // ilog2(17) = 4, upper bound = 2^5 = 32
    assert_eq!(s.p99_us, 32);
}

#[test]
fn p99_separates_tail() {
    let mut h = LatencyHistogram::new();
    // 99 samples at 1 us (bucket 0), 1 sample at 1000 us (bucket 9)
    for _ in 0..99 {
        h.record(1);
    }
    h.record(1000);
    let s = h.to_stats();
    // threshold = ceil(100*99/100) = 99; cumulative reaches 99 at bucket 0 -> upper bound 2
    assert_eq!(s.p99_us, 2, "p99 should be upper bound of bucket 0 (≤ 2 µs)");
    assert_eq!(s.max_us, 1000);
}

#[test]
fn p99_uniform_distribution() {
    let mut h = LatencyHistogram::new();
    // All 100 samples at 7 us (bucket 2, upper bound 8)
    for _ in 0..100 {
        h.record(7);
    }
    let s = h.to_stats();
    assert_eq!(s.p99_us, 8);
    assert_eq!(s.min_us, 7);
    assert_eq!(s.max_us, 7);
}

#[test]
fn reset_clears_all() {
    let mut h = LatencyHistogram::new();
    h.record(100);
    h.record(200);
    h.reset();
    assert_eq!(h.to_stats(), LatencyStats::default());
}

#[test]
fn zero_latency_does_not_panic() {
    let mut h = LatencyHistogram::new();
    h.record(0);
    let s = h.to_stats();
    assert_eq!(s.min_us, 0);
}

#[test]
fn largest_bucket_reports_u32_max() {
    let mut h = LatencyHistogram::new();
    h.record(u32::MAX);
    let s = h.to_stats();
    assert_eq!(s.p99_us, u32::MAX);
    assert_eq!(s.min_us, u32::MAX);
    assert_eq!(s.max_us, u32::MAX);
}

#[test]
fn bucket_thirty_reports_two_to_the_31() {
    let mut h = LatencyHistogram::new();
    h.record(1 << 30);
    assert_eq!(h.to_stats().p99_us, 1 << 31);
}

#[test]
fn p99_is_a_ceiling_for_99_percent() {
    let mut h = LatencyHistogram::new();
    for i in 0..200u32 {
        h.record(i * 3);
    }
    let s = h.to_stats();
    assert_eq!(s.min_us, 0);
    assert_eq!(s.max_us, 597);
    // 198 samples (99% of 200) must be at most p99
    assert_eq!(s.p99_us, 1024);
}
