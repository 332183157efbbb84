//! Homeostasis: which regulatory action the system's metrics call for,
//! and how the regulator reports its last action.
//!
//! The metrics are floating-point readings; the rules read only which of
//! them are out of bounds, which the caller measures and hands in as
//! [`MetricAlarms`].
use vstd::prelude::*;

verus! {

/// Regulatory action to take.
#[derive(Debug, Clone, Copy, PartialEq, Eq, Structural)]
pub enum RegulatoryAction {
    /// No action needed: the system is healthy.
    NoAction,
    /// Reduce load.
    ReduceLoad,
    /// Increase exploration.
    IncreaseExploration,
    /// Tighten security.
    TightenSecurity,
    /// Emergency: circuit-break incoming requests.
    CircuitBreak,
}

/// A single parameter adjustment applied during regulation.
#[derive(Debug, Clone, PartialEq, Eq)]
pub struct Adjustment {
    /// Name of the adjusted parameter.
    pub parameter: String,
    /// Value before adjustment.
    pub from_value: String,
    /// Value after adjustment.
    pub to_value: String,
    /// Why it was adjusted.
    pub reason: String,
}

/// Which metrics are out of bounds.
#[derive(Debug, Clone, Copy, PartialEq, Eq, Structural)]
pub struct MetricAlarms {
    /// Resource utilization above its maximum.
    pub resources_critical: bool,
    /// p95 latency above its maximum.
    pub latency_high: bool,
    /// Error rate above its maximum.
    pub errors_high: bool,
    /// Anomaly rate above its maximum.
    pub anomalies_high: bool,
    /// Pheromone entropy below its minimum.
    pub entropy_low: bool,
}

/// The action the alarms call for, by precedence: critical resources,
/// then latency or errors, then anomalies, then stagnation.
pub open spec fn spec_choose_action(a: MetricAlarms) -> RegulatoryAction {
    if a.resources_critical {
        RegulatoryAction::CircuitBreak
    } else if a.latency_high || a.errors_high {
        RegulatoryAction::ReduceLoad
    } else if a.anomalies_high {
        RegulatoryAction::TightenSecurity
    } else if a.entropy_low {
        RegulatoryAction::IncreaseExploration
    } else {
        RegulatoryAction::NoAction
    }
}

/// The action the alarms call for.
pub fn choose_action(alarms: &MetricAlarms) -> (r: RegulatoryAction)
    ensures
        r == spec_choose_action(*alarms),
{
    if alarms.resources_critical {
        return RegulatoryAction::CircuitBreak;
    }
    if alarms.latency_high || alarms.errors_high {
        return RegulatoryAction::ReduceLoad;
    }
    if alarms.anomalies_high {
        return RegulatoryAction::TightenSecurity;
    }
    if alarms.entropy_low {
        return RegulatoryAction::IncreaseExploration;
    }
    RegulatoryAction::NoAction
}

/// Critical resources break the circuit whatever else is wrong, and no
/// action is taken only when nothing is out of bounds.
pub proof fn lemma_action_precedence(a: MetricAlarms)
    ensures
        a.resources_critical ==> spec_choose_action(a) == RegulatoryAction::CircuitBreak,
        spec_choose_action(a) == RegulatoryAction::NoAction <==> !a.resources_critical
            && !a.latency_high && !a.errors_high && !a.anomalies_high && !a.entropy_low,
{
}

/// The status label of the last action.
pub open spec fn status_text(a: RegulatoryAction) -> Seq<char> {
    match a {
        RegulatoryAction::NoAction => "BALANCED"@,
        RegulatoryAction::ReduceLoad => "REDUCING_LOAD"@,
        RegulatoryAction::IncreaseExploration => "EXPLORING"@,
        RegulatoryAction::TightenSecurity => "TIGHTENING_SECURITY"@,
        RegulatoryAction::CircuitBreak => "CIRCUIT_BREAK"@,
    }
}

/// The status label of the last action.
pub fn status_label(a: RegulatoryAction) -> (r: &'static str)
    ensures
        r@ == status_text(a),
{
    match a {
        RegulatoryAction::NoAction => "BALANCED",
        RegulatoryAction::ReduceLoad => "REDUCING_LOAD",
        RegulatoryAction::IncreaseExploration => "EXPLORING",
        RegulatoryAction::TightenSecurity => "TIGHTENING_SECURITY",
        RegulatoryAction::CircuitBreak => "CIRCUIT_BREAK",
    }
}

} // verus!
