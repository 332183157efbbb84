use kce::types::{overall_status, HealthStatus, MrnaIntent, NodeState, Severity};

#[test]
fn node_state_display() {
    assert_eq!(NodeState::Stem.name(), "Stem");
    assert_eq!(NodeState::Apoptosis.name(), "Apoptosis");
}

#[test]
fn mrna_intent_display() {
    assert_eq!(MrnaIntent::RiskEval.name(), "risk_eval");
    assert_eq!(MrnaIntent::Classify.name(), "classify");
}

#[test]
fn health_status_equality() {
    assert_eq!(HealthStatus::Healthy, HealthStatus::Healthy);
    assert_ne!(HealthStatus::Healthy, HealthStatus::Unhealthy);
}

#[test]
fn severity_ordering() {
    assert!(Severity::Low < Severity::Critical);
    assert!(Severity::Medium < Severity::High);
}

#[test]
fn overall_status_rules() {
    assert_eq!(overall_status(true, true, true), HealthStatus::Healthy);
    assert_eq!(overall_status(true, true, false), HealthStatus::Degraded);
    assert_eq!(overall_status(false, true, true), HealthStatus::Degraded);
    assert_eq!(overall_status(true, false, true), HealthStatus::Unhealthy);
    assert_eq!(NodeState::Specialized.ordinal(), 2);
    assert!(Severity::Low.is_below(&Severity::Medium));
    assert!(!Severity::High.is_below(&Severity::High));
}
