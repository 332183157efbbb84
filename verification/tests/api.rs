use kce::api::{
    action_failure, admit_tenant, check_api_key, health_http_status, parse_intent,
    pipeline_failure, request_id_from_nanos, tenant_from_header, ApiError, TenantRateLimiter,
};
use kce::error::KceError;
use kce::types::{HealthStatus, MrnaIntent};

#[test]
fn test_missing_tenant_id_returns_400() {
    let e = tenant_from_header(None).unwrap_err();
    assert_eq!(e.status(), 400);
    assert_eq!(e.error_code(), "VALIDATION_ERROR");
    assert!(
        e.message().contains("Missing x-tenant-id"),
        "Expected 'Missing x-tenant-id' in message, got: {}",
        e.message()
    );
}

#[test]
fn test_empty_tenant_id_returns_400() {
    let e = tenant_from_header(Some(Some(""))).unwrap_err();
    assert_eq!(e.status(), 400);
    assert_eq!(e.error_code(), "VALIDATION_ERROR");
    assert!(
        e.message().contains("Invalid x-tenant-id"),
        "Expected 'Invalid x-tenant-id' in message, got: {}",
        e.message()
    );
}

#[test]
fn test_valid_tenant_id_accepted() {
    let t = tenant_from_header(Some(Some("tenant-alpha")));
    assert_eq!(t.unwrap(), "tenant-alpha");
}

#[test]
fn test_tenant_limiter_basic() {
    let mut limiter = TenantRateLimiter::new(50);
    assert!(limiter.try_acquire("t1", 2));
    assert!(limiter.try_acquire("t1", 2));
    assert!(!limiter.try_acquire("t1", 2));
    limiter.release("t1");
    assert!(limiter.try_acquire("t1", 2));
    limiter.release("t1");
    limiter.release("t1");
}

#[test]
fn test_tenant_limiter_independent_tenants() {
    let mut limiter = TenantRateLimiter::new(50);
    assert!(limiter.try_acquire("tenant-a", 1));
    assert!(!limiter.try_acquire("tenant-a", 1));
    assert!(limiter.try_acquire("tenant-b", 1));
    limiter.release("tenant-a");
    limiter.release("tenant-b");
}

#[test]
fn limiter_keeps_first_cap_and_zero_cap_refuses() {
    let mut limiter = TenantRateLimiter::new(50);
    assert!(!limiter.try_acquire("z", 0));
    // The quota made on the first call stays: still a cap of 0.
    assert!(!limiter.try_acquire("z", 5));
    limiter.release("unknown");
    limiter.release("z");
    assert!(!limiter.try_acquire("z", 5));
}

#[test]
fn admission_and_refusals() {
    let mut limiter = TenantRateLimiter::new(50);
    let e = ApiError::Backpressure;
    assert_eq!((e.status(), e.error_code()), (429, "BACKPRESSURE"));
    assert_eq!(e.message(), "too many concurrent requests");
    for _ in 0..50 {
        assert!(admit_tenant(&mut limiter, "t").is_ok());
    }
    let e = admit_tenant(&mut limiter, "t").unwrap_err();
    assert_eq!((e.status(), e.error_code()), (429, "RATE_LIMIT_EXCEEDED"));
    assert_eq!(e.message(), "Tenant t exceeded concurrent request limit");
}

#[test]
fn intents_parse() {
    assert_eq!(parse_intent("risk_eval").unwrap(), MrnaIntent::RiskEval);
    assert_eq!(parse_intent("data_enrich").unwrap(), MrnaIntent::DataEnrich);
    assert_eq!(parse_intent("alert").unwrap(), MrnaIntent::Alert);
    assert_eq!(parse_intent("classify").unwrap(), MrnaIntent::Classify);
    let e = parse_intent("dance").unwrap_err();
    assert_eq!(e.status(), 400);
    assert_eq!(e.message(), "unknown intent: dance");
}

#[test]
fn action_failures_expired_is_timeout() {
    let e = action_failure(&KceError::MrnaExpired { ttl_ms: 5000 });
    assert_eq!(e.status(), 408);
    assert_eq!(e.error_code(), "ACTION_FAILURE");
    assert_eq!(e.message(), "mRNA expired (ttl=5000ms)");
    let e = action_failure(&KceError::Validation("mRNA payload is empty".to_string()));
    assert_eq!(e.status(), 400);
    assert_eq!(e.message(), "validation: mRNA payload is empty");
    assert_eq!(
        ApiError::ActionFailure { message: "x".to_string(), expired: false }.status(),
        400
    );
}

#[test]
fn pipeline_failure_message() {
    let e = pipeline_failure(&KceError::Timeout { ms: 100 });
    assert_eq!(e.status(), 500);
    assert_eq!(e.error_code(), "PIPELINE_FAILURE");
    assert_eq!(e.message(), "operation timed out after 100ms");
}

#[test]
fn api_key_checks() {
    assert!(check_api_key("/health", None, Some("k")).is_ok());
    assert_eq!(check_api_key("/query", None, None), Err(ApiError::MissingApiKey));
    assert!(check_api_key("/query", Some(Some("anything")), None).is_ok());
    assert!(check_api_key("/query", Some(Some("k")), Some("k")).is_ok());
    assert_eq!(check_api_key("/query", Some(Some("j")), Some("k")), Err(ApiError::InvalidApiKey));
    assert_eq!(check_api_key("/query", Some(None), Some("k")), Err(ApiError::InvalidApiKey));
    let e = ApiError::MissingApiKey;
    assert_eq!((e.status(), e.error_code()), (401, "UNAUTHORIZED"));
    assert_eq!(e.message(), "Missing or invalid x-api-key header");
    assert_eq!(ApiError::InvalidApiKey.message(), "Invalid x-api-key header");
}

#[test]
fn request_ids_and_health_codes() {
    assert_eq!(request_id_from_nanos(0), "req_0");
    assert_eq!(request_id_from_nanos(255), "req_ff");
    assert_eq!(request_id_from_nanos(0x1a2b3c), "req_1a2b3c");
    assert_eq!(health_http_status(HealthStatus::Healthy), 200);
    assert_eq!(health_http_status(HealthStatus::Degraded), 200);
    assert_eq!(health_http_status(HealthStatus::Unhealthy), 503);
}
