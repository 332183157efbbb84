use kce::amplifier::{effective_boost, AmplifierConfig, AmplifyTrigger, ResponseAmplifier};
use kce::memory::Severity;

#[test]
fn trigger_increases_level() {
    let mut amp = ResponseAmplifier::default();
    // Low severity: boost=2 * 1.5 = 3
    amp.trigger(1, AmplifyTrigger::AnomalyDetected(Severity::Low));
    assert_eq!(amp.get_level(1), 3);
}

#[test]
fn trigger_caps_at_max() {
    let mut amp = ResponseAmplifier::default();
    for _ in 0..10 {
        amp.trigger(1, AmplifyTrigger::AnomalyDetected(Severity::Medium));
    }
    assert_eq!(amp.get_level(1), 10);
}

#[test]
fn decay_reduces_level() {
    let mut amp = ResponseAmplifier::default();
    amp.trigger(1, AmplifyTrigger::AnomalyDetected(Severity::Low)); // +3
    amp.decay_all(); // 3 - 1 = 2
    assert_eq!(amp.get_level(1), 2);
}

#[test]
fn decay_removes_zero_entries() {
    let mut amp = ResponseAmplifier::new(AmplifierConfig {
        boost_per_trigger: 1,
        max_priority: 10,
        decay_per_cycle: 1,
    });
    amp.trigger(1, AmplifyTrigger::AnomalyDetected(Severity::Low)); // 1 * 1.5 = 1.5 -> 2
    amp.decay_all(); // 2 - 1 = 1
    amp.decay_all(); // 1 - 1 = 0 -> removed
    assert_eq!(amp.active_count(), 0);
}

#[test]
fn inactive_context_returns_zero() {
    let amp = ResponseAmplifier::default();
    assert_eq!(amp.get_level(999), 0);
}

#[test]
fn test_low_severity_multiplier() {
    let mut amp = ResponseAmplifier::default();
    amp.trigger(1, AmplifyTrigger::AnomalyDetected(Severity::Low));
    // boost_per_trigger=2 * 1.5 = 3.0 -> 3
    assert_eq!(amp.get_level(1), 3);
}

#[test]
fn test_critical_severity_multiplier() {
    let mut amp = ResponseAmplifier::default();
    amp.trigger(1, AmplifyTrigger::AnomalyDetected(Severity::Critical));
    // boost_per_trigger=2 * 5.0 = 10
    assert_eq!(amp.get_level(1), 10);
}

#[test]
fn test_cap_respected_with_critical() {
    let mut amp = ResponseAmplifier::default();
    amp.trigger(1, AmplifyTrigger::AnomalyDetected(Severity::Critical));
    assert_eq!(amp.get_level(1), 10);
    amp.trigger(1, AmplifyTrigger::MemoryHit(Severity::Critical));
    assert_eq!(amp.get_level(1), 10);
}

#[test]
fn severity_respects_max_priority() {
    let mut amp = ResponseAmplifier::default();
    amp.trigger(1, AmplifyTrigger::AnomalyDetected(Severity::Medium)); // 2 * 2.0 = 4
    amp.trigger(1, AmplifyTrigger::MemoryHit(Severity::Critical)); // 2 * 5.0 = 10, total=14, capped to 10
    assert_eq!(amp.get_level(1), 10);
}

#[test]
fn effective_boost_rounds_half_up() {
    // 1.5 * 1 = 1.5 rounds to 2; 1.5 * 3 = 4.5 rounds to 5; 5 * 51 = 255.
    assert_eq!(effective_boost(1, Severity::Low), 2);
    assert_eq!(effective_boost(3, Severity::Low), 5);
    assert_eq!(effective_boost(4, Severity::Medium), 8);
    assert_eq!(effective_boost(4, Severity::High), 12);
    assert_eq!(effective_boost(51, Severity::Critical), 255);
    assert_eq!(effective_boost(0, Severity::Critical), 0);
}

#[test]
fn decay_keeps_other_contexts_independent() {
    let mut amp = ResponseAmplifier::default();
    amp.trigger(1, AmplifyTrigger::RegulationAlert(Severity::Low)); // 3
    amp.trigger(2, AmplifyTrigger::RegulationAlert(Severity::Critical)); // 10
    assert_eq!(amp.active_count(), 2);
    amp.decay_all();
    amp.decay_all();
    amp.decay_all();
    assert_eq!(amp.get_level(1), 0);
    assert_eq!(amp.get_level(2), 7);
    assert_eq!(amp.active_count(), 1);
}

#[test]
fn zero_boost_leaves_context_unamplified() {
    let mut amp = ResponseAmplifier::new(AmplifierConfig { boost_per_trigger: 0, max_priority: 10, decay_per_cycle: 1 });
    amp.trigger(7, AmplifyTrigger::AnomalyDetected(Severity::Low));
    assert_eq!(amp.get_level(7), 0);
    assert_eq!(amp.active_count(), 0);
}

#[test]
fn repeated_critical_triggers_saturate_at_cap() {
    let mut amp = ResponseAmplifier::new(AmplifierConfig { boost_per_trigger: 60, max_priority: 200, decay_per_cycle: 1 });
    amp.trigger(1, AmplifyTrigger::AnomalyDetected(Severity::Critical));
    assert_eq!(amp.get_level(1), 200);
    amp.trigger(1, AmplifyTrigger::AnomalyDetected(Severity::Critical));
    assert_eq!(amp.get_level(1), 200);
    let mut amp2 = ResponseAmplifier::new(AmplifierConfig { boost_per_trigger: 100, max_priority: 255, decay_per_cycle: 1 });
    amp2.trigger(2, AmplifyTrigger::MemoryHit(Severity::Medium));
    amp2.trigger(2, AmplifyTrigger::MemoryHit(Severity::Medium));
    assert_eq!(amp2.get_level(2), 255);
}
