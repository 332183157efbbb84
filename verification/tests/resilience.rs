use kce::error::KceError;
use kce::idempotency::IdempotencyCache;
use kce::resilience::{
    admit_request, exhausted_error, plan_attempt, Admission, AttemptPlan, CircuitBreaker, CircuitState,
    PipelineMetrics, OPEN_NANOS, WINDOW_NANOS,
};

const SEC: u64 = 1_000_000_000;

#[test]
fn circuit_breaker_starts_closed() {
    let cb = CircuitBreaker::new();
    assert_eq!(cb.state(), CircuitState::Closed);
}

#[test]
fn opens_when_more_than_a_fifth_fail() {
    let mut cb = CircuitBreaker::new();
    for t in 0..4 {
        cb.record_success_at(t * SEC);
    }
    // 1 failure of 5: exactly a fifth, stays closed.
    cb.record_failure_at(4 * SEC);
    assert_eq!(cb.state(), CircuitState::Closed);
    // 2 of 6: opens.
    cb.record_failure_at(5 * SEC);
    assert_eq!(cb.state(), CircuitState::Open);
    assert!(matches!(cb.check_at(6 * SEC), Err(KceError::CircuitOpen)));
}

#[test]
fn few_requests_never_open() {
    let mut cb = CircuitBreaker::new();
    for t in 0..4 {
        cb.record_failure_at(t);
    }
    assert_eq!(cb.state(), CircuitState::Closed);
    assert!(matches!(cb.check_at(10), Ok(CircuitState::Closed)));
}

#[test]
fn open_turns_half_open_after_wait_and_success_closes() {
    let mut cb = CircuitBreaker::new();
    for t in 0..5 {
        cb.record_failure_at(t);
    }
    assert_eq!(cb.state(), CircuitState::Open);
    let opened = 4;
    assert!(matches!(cb.check_at(opened + OPEN_NANOS - 1), Err(KceError::CircuitOpen)));
    assert!(matches!(cb.check_at(opened + OPEN_NANOS), Ok(CircuitState::HalfOpen)));
    assert_eq!(cb.state(), CircuitState::HalfOpen);
    cb.record_success_at(opened + OPEN_NANOS + 1);
    assert_eq!(cb.state(), CircuitState::Closed);
}

#[test]
fn old_outcomes_leave_the_window() {
    let mut cb = CircuitBreaker::new();
    for t in 0..4 {
        cb.record_failure_at(t);
    }
    // Sixty seconds later the first four have left the window: one
    // failure alone does not open the breaker.
    cb.record_failure_at(WINDOW_NANOS + 3);
    assert_eq!(cb.state(), CircuitState::Closed);
}

#[test]
fn breaker_clock_forms_run() {
    let mut cb = CircuitBreaker::new();
    cb.record_success();
    cb.record_failure();
    assert!(cb.check().is_ok());
}

#[test]
fn retry_schedule() {
    assert_eq!(plan_attempt(0), AttemptPlan::Run { attempt: 0, delay_ms: 0 });
    assert_eq!(plan_attempt(1), AttemptPlan::Run { attempt: 1, delay_ms: 50 });
    assert_eq!(plan_attempt(2), AttemptPlan::Run { attempt: 2, delay_ms: 100 });
    assert_eq!(plan_attempt(3), AttemptPlan::Run { attempt: 3, delay_ms: 200 });
    assert_eq!(plan_attempt(4), AttemptPlan::Exhausted);
    assert_eq!(plan_attempt(u32::MAX), AttemptPlan::Exhausted);
}

#[test]
fn exhausted_error_keeps_last() {
    assert!(matches!(exhausted_error(Some(KceError::CircuitOpen)), KceError::CircuitOpen));
    match exhausted_error(None) {
        KceError::Validation(s) => assert_eq!(s, "all retries exhausted"),
        other => panic!("unexpected {:?}", other),
    }
}

#[test]
fn request_hash_is_stable() {
    let mut cache: IdempotencyCache<u32> = IdempotencyCache::new(10, std::time::Duration::from_secs(60));
    let mut cb = CircuitBreaker::new();
    let (a1, d1) = admit_request(&mut cache, &mut cb, "req_a");
    let (a2, _) = admit_request(&mut cache, &mut cb, "req_a");
    let (b, _) = admit_request(&mut cache, &mut cb, "req_b");
    assert!(matches!(d1, Admission::Proceed));
    assert_eq!(a1, a2);
    assert_ne!(a1, b);
}

#[test]
fn admitted_request_is_answered_from_cache() {
    let mut cache: IdempotencyCache<u32> = IdempotencyCache::new(10, std::time::Duration::from_secs(60));
    let mut cb = CircuitBreaker::new();
    let (key, first) = admit_request(&mut cache, &mut cb, "req_cached");
    assert!(matches!(first, Admission::Proceed));
    cache.insert(key, 42);
    let (key2, second) = admit_request(&mut cache, &mut cb, "req_cached");
    assert_eq!(key, key2);
    assert!(matches!(second, Admission::Cached(42)));
}

#[test]
fn open_breaker_refuses_admission() {
    let mut cache: IdempotencyCache<u32> = IdempotencyCache::new(10, std::time::Duration::from_secs(60));
    let mut cb = CircuitBreaker::new();
    for _ in 0..5 {
        cb.record_failure();
    }
    let (_, d) = admit_request(&mut cache, &mut cb, "req_refused");
    assert!(matches!(d, Admission::Refused(KceError::CircuitOpen)));
}

#[test]
fn metrics_record_queries() {
    let mut m = PipelineMetrics::new();
    m.record_query(3, 3500, 2);
    m.record_error();
    assert_eq!(m.total_count, 2);
    assert_eq!(m.error_count, 1);
    assert_eq!(m.retrieval_hits, 2);
    assert_eq!(m.query_latency_ms, 3);
    assert_eq!(m.latency_histogram.count(), 1);
    m.retrieval_hits = u64::MAX;
    m.record_query(1, 1, 2);
    assert_eq!(m.retrieval_hits, 1);
}
