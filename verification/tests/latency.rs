use kce::latency::{HistogramConfig, LatencyHistogram};

#[test]
fn reset_clears_all() {
    let mut h = LatencyHistogram::new();
    h.record_us(1000);
    h.record_us(2000);
    assert_eq!(h.count(), 2);
    h.reset();
    assert_eq!(h.count(), 0);
    let b = h.percentile_buckets();
    assert_eq!(b.count, 0);
    assert_eq!(b.min_us, 0);
    assert_eq!(b.max_us, 0);
    assert!(b.points.is_empty());
}

#[test]
fn overflow_counted() {
    let config = HistogramConfig {
        bucket_width_us: 100,
        max_latency_us: 1000, // only 10 buckets, up to 1ms
    };
    let mut h = LatencyHistogram::with_config(config);
    assert_eq!(h.bucket_count(), 10);
    h.record_us(500); // bucket 5
    h.record_us(50_000); // overflow: last bucket
    assert_eq!(h.count(), 2);
    let b = h.percentile_buckets();
    assert_eq!(b.count, 2);
    assert_eq!(b.max_us, 50_000);
    assert_eq!(b.min_us, 500);
    assert_eq!(b.sum_us, 50_500);
    // p50: target 1, reached in bucket 5; p95, p99, p99.9: target 1 as well.
    for p in &b.points {
        assert!(p.found);
        assert_eq!(p.target, 1);
        assert_eq!(p.bucket, 5);
        assert_eq!(p.bucket_start_us, 500);
        assert_eq!(p.before, 0);
        assert_eq!(p.in_bucket, 1);
    }
}

#[test]
fn single_sample() {
    let mut h = LatencyHistogram::new();
    assert_eq!(h.bucket_count(), 10_000);
    h.record_us(5000);
    let b = h.percentile_buckets();
    assert_eq!(b.count, 1);
    assert_eq!(b.points.len(), 4);
    assert_eq!(b.points[0].target, 0);
    assert_eq!(b.points[0].bucket, 500);
    assert_eq!(b.points[0].bucket_start_us, 5000);
}

#[test]
fn percentile_ordering() {
    let mut h = LatencyHistogram::new();
    for i in 0..1000u64 {
        h.record_us(i * 100);
    }
    let b = h.percentile_buckets();
    assert_eq!(b.count, 1000);
    let targets: Vec<u64> = b.points.iter().map(|p| p.target).collect();
    assert_eq!(targets, vec![500, 950, 990, 999]);
    // The k-th sample (k from 1) lies at (k - 1) * 100 µs, in bucket (k - 1) * 10.
    assert_eq!(b.points[0].bucket, 4990);
    assert_eq!(b.points[0].before, 499);
    assert_eq!(b.points[1].bucket, 9490);
    assert_eq!(b.points[3].bucket, 9980);
}

#[test]
fn duration_recording() {
    let mut h = LatencyHistogram::new();
    h.record_duration(std::time::Duration::from_millis(5));
    let b = h.percentile_buckets();
    assert_eq!(b.count, 1);
    assert_eq!(b.sum_us, 5000);
}

#[test]
fn real_world_latency_distribution() {
    let mut h = LatencyHistogram::new();
    for _ in 0..800 {
        h.record_us(1500);
    }
    for _ in 0..150 {
        h.record_us(4000);
    }
    for _ in 0..50 {
        h.record_us(9000);
    }
    let b = h.percentile_buckets();
    let buckets: Vec<usize> = b.points.iter().map(|p| p.bucket).collect();
    assert_eq!(buckets, vec![150, 400, 900, 900]);
    assert!(b.points.iter().all(|p| p.found));
    assert_eq!(b.points[1].target, 950);
    assert_eq!(b.points[1].before, 800);
    assert_eq!(b.points[1].in_bucket, 150);
}
