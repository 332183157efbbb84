use kce::regulation::{choose_action, status_label, MetricAlarms, RegulatoryAction};

fn alarms(r: bool, l: bool, e: bool, a: bool, s: bool) -> MetricAlarms {
    MetricAlarms { resources_critical: r, latency_high: l, errors_high: e, anomalies_high: a, entropy_low: s }
}

#[test]
fn precedence_of_actions() {
    assert_eq!(choose_action(&alarms(false, false, false, false, false)), RegulatoryAction::NoAction);
    assert_eq!(choose_action(&alarms(true, true, true, true, true)), RegulatoryAction::CircuitBreak);
    assert_eq!(choose_action(&alarms(false, true, false, true, true)), RegulatoryAction::ReduceLoad);
    assert_eq!(choose_action(&alarms(false, false, true, false, false)), RegulatoryAction::ReduceLoad);
    assert_eq!(choose_action(&alarms(false, false, false, true, true)), RegulatoryAction::TightenSecurity);
    assert_eq!(choose_action(&alarms(false, false, false, false, true)), RegulatoryAction::IncreaseExploration);
}

#[test]
fn status_labels() {
    assert_eq!(status_label(RegulatoryAction::NoAction), "BALANCED");
    assert_eq!(status_label(RegulatoryAction::ReduceLoad), "REDUCING_LOAD");
    assert_eq!(status_label(RegulatoryAction::IncreaseExploration), "EXPLORING");
    assert_eq!(status_label(RegulatoryAction::TightenSecurity), "TIGHTENING_SECURITY");
    assert_eq!(status_label(RegulatoryAction::CircuitBreak), "CIRCUIT_BREAK");
}
