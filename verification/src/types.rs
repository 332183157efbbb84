//! Shared data types.
use vstd::prelude::*;

verus! {

/// Health status of the system or a component.
#[derive(Debug, Clone, Copy, PartialEq, Eq, Structural)]
pub enum HealthStatus {
    /// All components are healthy.
    Healthy,
    /// Some components are degraded but the system is operational.
    Degraded,
    /// The system is not operational.
    Unhealthy,
}

/// Component-level health check result.
#[derive(Debug, Clone)]
pub struct HealthReport {
    /// Overall status.
    pub status: HealthStatus,
    /// WAL health.
    pub wal_ok: bool,
    /// Database / storage health.
    pub db_ok: bool,
    /// Latency within acceptable bounds.
    pub latency_ok: bool,
    /// Application version.
    pub version: String,
    /// Uptime in seconds.
    pub uptime_seconds: u64,
}

/// The overall status a health check reports: healthy when every check
/// passes, degraded when storage works but something else does not, and
/// unhealthy when storage does not work.
pub open spec fn spec_overall_status(wal_ok: bool, db_ok: bool, latency_ok: bool) -> HealthStatus {
    if wal_ok && db_ok && latency_ok {
        HealthStatus::Healthy
    } else if db_ok {
        HealthStatus::Degraded
    } else {
        HealthStatus::Unhealthy
    }
}

/// The overall status of a health check from its component checks.
pub fn overall_status(wal_ok: bool, db_ok: bool, latency_ok: bool) -> (r: HealthStatus)
    ensures
        r == spec_overall_status(wal_ok, db_ok, latency_ok),
{
    if wal_ok && db_ok && latency_ok {
        HealthStatus::Healthy
    } else if db_ok {
        HealthStatus::Degraded
    } else {
        HealthStatus::Unhealthy
    }
}

/// Lifecycle states of a knowledge node.
#[derive(Debug, Clone, Copy, PartialEq, Eq, Hash, Structural)]
pub enum NodeState {
    /// Newly created, immature knowledge.
    Stem,
    /// Growing, gaining connections.
    Progenitor,
    /// Mature, highly relevant knowledge.
    Specialized,
    /// Marked for removal (obsolescence).
    Apoptosis,
}

/// The display name of a node state.
pub open spec fn node_state_text(s: NodeState) -> Seq<char> {
    match s {
        NodeState::Stem => "Stem"@,
        NodeState::Progenitor => "Progenitor"@,
        NodeState::Specialized => "Specialized"@,
        NodeState::Apoptosis => "Apoptosis"@,
    }
}

impl NodeState {
    /// The display name of the state.
    pub fn name(&self) -> (r: &'static str)
        ensures
            r@ == node_state_text(*self),
    {
        match self {
            NodeState::Stem => "Stem",
            NodeState::Progenitor => "Progenitor",
            NodeState::Specialized => "Specialized",
            NodeState::Apoptosis => "Apoptosis",
        }
    }

    /// The ordinal of the state in its lifecycle (Stem 0 .. Apoptosis 3).
    pub fn ordinal(&self) -> (r: u64)
        ensures
            r == match *self {
                NodeState::Stem => 0u64,
                NodeState::Progenitor => 1u64,
                NodeState::Specialized => 2u64,
                NodeState::Apoptosis => 3u64,
            },
    {
        match self {
            NodeState::Stem => 0,
            NodeState::Progenitor => 1,
            NodeState::Specialized => 2,
            NodeState::Apoptosis => 3,
        }
    }
}

/// Supported mRNA intent types.
#[derive(Debug, Clone, Copy, PartialEq, Eq, Hash, Structural)]
pub enum MrnaIntent {
    /// Risk evaluation action.
    RiskEval,
    /// Data enrichment action.
    DataEnrich,
    /// Alert / notification action.
    Alert,
    /// Classification action.
    Classify,
}

/// The display name of an intent.
pub open spec fn intent_text(i: MrnaIntent) -> Seq<char> {
    match i {
        MrnaIntent::RiskEval => "risk_eval"@,
        MrnaIntent::DataEnrich => "data_enrich"@,
        MrnaIntent::Alert => "alert"@,
        MrnaIntent::Classify => "classify"@,
    }
}

impl MrnaIntent {
    /// The display name of the intent.
    pub fn name(&self) -> (r: &'static str)
        ensures
            r@ == intent_text(*self),
    {
        match self {
            MrnaIntent::RiskEval => "risk_eval",
            MrnaIntent::DataEnrich => "data_enrich",
            MrnaIntent::Alert => "alert",
            MrnaIntent::Classify => "classify",
        }
    }
}

/// Severity level for anomalies and antigens, ordered Low < Medium < High
/// < Critical.
#[derive(Debug, Clone, Copy, PartialEq, Eq, PartialOrd, Ord, Structural)]
pub enum Severity {
    /// Low severity.
    Low,
    /// Medium severity.
    Medium,
    /// High severity.
    High,
    /// Critical severity.
    Critical,
}

/// The rank of a severity in its order.
pub open spec fn severity_rank(s: Severity) -> int {
    match s {
        Severity::Low => 0,
        Severity::Medium => 1,
        Severity::High => 2,
        Severity::Critical => 3,
    }
}

impl Severity {
    /// Whether `self` is strictly less severe than `other`.
    pub fn is_below(&self, other: &Severity) -> (r: bool)
        ensures
            r == (severity_rank(*self) < severity_rank(*other)),
    {
        let a: u8 = match self {
            Severity::Low => 0,
            Severity::Medium => 1,
            Severity::High => 2,
            Severity::Critical => 3,
        };
        let b: u8 = match other {
            Severity::Low => 0,
            Severity::Medium => 1,
            Severity::High => 2,
            Severity::Critical => 3,
        };
        a < b
    }
}

/// Status of a stored antigen.
#[derive(Debug, Clone, Copy, PartialEq, Eq, Structural)]
pub enum AntigenStatus {
    /// Active and being monitored.
    Active,
    /// Expired, no longer relevant.
    Expired,
    /// Manually resolved.
    Resolved,
}

/// An antigen stored in the immune memory.
#[derive(Debug, Clone)]
pub struct Antigen {
    /// The anomalous pattern hash.
    pub pattern: String,
    /// Severity level.
    pub severity: Severity,
    /// First time this antigen was seen.
    pub first_seen: u64,
    /// Last time this antigen was seen.
    pub last_seen: u64,
    /// Number of times matched.
    pub match_count: u64,
    /// Expiry in days (0 = permanent).
    pub expiry_days: u32,
    /// Current status.
    pub status: AntigenStatus,
}

/// Classification label for self/non-self.
#[derive(Debug, Clone, Copy, PartialEq, Eq, Structural)]
pub enum ClassificationLabel {
    /// Trusted, known-good context.
    SelfContext,
    /// Unknown, potentially anomalous context.
    NonSelf,
}

/// Status of a feature in classification.
#[derive(Debug, Clone, Copy, PartialEq, Eq, Structural)]
pub enum FeatureStatus {
    /// Within normal bounds.
    Normal,
    /// Outside normal bounds, potentially anomalous.
    Anomalous,
}

/// The overall status of a health check: healthy exactly when every
/// component check passes; unhealthy whenever storage (`db_ok`) fails, whatever the other
/// checks say; degraded only while storage works and some other check
/// fails.
pub proof fn lemma_health_status(wal_ok: bool, db_ok: bool, latency_ok: bool)
    ensures
        (spec_overall_status(wal_ok, db_ok, latency_ok) == HealthStatus::Healthy) == (wal_ok && db_ok
            && latency_ok),
        !db_ok ==> spec_overall_status(wal_ok, db_ok, latency_ok) == HealthStatus::Unhealthy,
        spec_overall_status(wal_ok, db_ok, latency_ok) == HealthStatus::Degraded ==> db_ok && !(wal_ok
            && latency_ok),
        db_ok ==> spec_overall_status(wal_ok, db_ok, latency_ok) != HealthStatus::Unhealthy,
{
}

} // verus!
