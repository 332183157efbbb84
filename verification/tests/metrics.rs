use kce::metrics::{gcd, prime_totals, sinkhorn_name, CosineMetric, PrimeMetric, WassersteinMetric};

#[test]
fn name_is_cosine() {
    assert_eq!(CosineMetric::new().name(), "cosine");
}

#[test]
fn name_is_prime() {
    assert_eq!(PrimeMetric::new().name(), "prime");
}

#[test]
fn gcd_values() {
    assert_eq!(gcd(12, 18), 6);
    assert_eq!(gcd(17, 5), 1);
    assert_eq!(gcd(0, 7), 7);
    assert_eq!(gcd(7, 0), 7);
    assert_eq!(gcd(0, 0), 0);
    assert_eq!(PrimeMetric::gcd(100, 75), 25);
}

#[test]
fn prime_totals_sum_gcds_and_maxima() {
    assert_eq!(prime_totals(&[12, 7, 0], &[18, 5, 4]), (6 + 1 + 4, 18 + 7 + 4));
    assert_eq!(prime_totals(&[], &[]), (0, 0));
}

#[test]
fn other_metric_names() {
    assert_eq!(WassersteinMetric::new().name(), "wasserstein");
    assert_eq!(sinkhorn_name(), "sinkhorn");
}
