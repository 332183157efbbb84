//! mRNA instructions: encoding lifecycle nodes into a compact payload,
//! validating instructions, enforcing their time-to-live, and choosing
//! the outcome of each action from a hash of the payload.
use vstd::prelude::*;
use vstd::string::*;
use crate::clock::now_ms;
use crate::ecma::EcmaNode;
use crate::error::KceError;
use crate::types::{MrnaIntent, NodeState};

verus! {

/// Configuration for mRNA encoding.
#[derive(Debug, Clone, Copy, PartialEq, Eq, Structural)]
pub struct MceConfig {
    /// Default time-to-live in milliseconds.
    pub default_ttl_ms: u64,
    /// Minimum priority.
    pub min_priority: u8,
    /// Maximum priority.
    pub max_priority: u8,
}

impl Default for MceConfig {
    fn default() -> (r: Self)
        ensures
            r.default_ttl_ms == 5000,
            r.min_priority == 1,
            r.max_priority == 10,
    {
        MceConfig { default_ttl_ms: 5000, min_priority: 1, max_priority: 10 }
    }
}

/// An mRNA instruction.  The ratio of the payload size to the original
/// size is derived from the two sizes.
#[derive(Debug, Clone, PartialEq, Eq)]
pub struct Mrna {
    /// The action to take.
    pub intent: MrnaIntent,
    /// Execution priority.
    pub priority: u8,
    /// Time-to-live in milliseconds.
    pub ttl_ms: u64,
    /// Encoded payload.
    pub payload: Vec<u8>,
    /// Size of the encoded payload in bytes.
    pub payload_size_bytes: usize,
    /// Size of the original input in bytes.
    pub original_size_bytes: usize,
}

/// Little-endian bytes of a `u64`.
pub open spec fn le64(x: u64) -> Seq<u8> {
    seq![
        x as u8,
        (x >> 8u64) as u8,
        (x >> 16u64) as u8,
        (x >> 24u64) as u8,
        (x >> 32u64) as u8,
        (x >> 40u64) as u8,
        (x >> 48u64) as u8,
        (x >> 56u64) as u8,
    ]
}

/// The ordinal a state is encoded with.
pub open spec fn state_ordinal(s: NodeState) -> u64 {
    match s {
        NodeState::Stem => 0,
        NodeState::Progenitor => 1,
        NodeState::Specialized => 2,
        NodeState::Apoptosis => 3,
    }
}

/// The 48 bytes a node encodes to: id, state ordinal, usage count,
/// entropy, connections and maturity, each as 8 little-endian bytes.
pub open spec fn node_bytes(n: EcmaNode) -> Seq<u8> {
    le64(n.id) + le64(state_ordinal(n.state)) + le64(n.usage_count) + le64(n.entropy_bits) + le64(
        n.connections as u64,
    ) + le64(n.maturity_bits)
}

/// The payload of a list of nodes: their encodings one after another.
pub open spec fn payload_of(nodes: Seq<EcmaNode>) -> Seq<u8>
    decreases nodes.len(),
{
    if nodes.len() == 0 {
        Seq::empty()
    } else {
        payload_of(nodes.drop_last()) + node_bytes(nodes.last())
    }
}

proof fn lemma_payload_len(nodes: Seq<EcmaNode>)
    ensures
        payload_of(nodes).len() == 48 * nodes.len(),
    decreases nodes.len(),
{
    if nodes.len() > 0 {
        lemma_payload_len(nodes.drop_last());
    }
}

fn push_le64(buf: &mut Vec<u8>, x: u64)
    ensures
        final(buf)@ == old(buf)@ + le64(x),
{
    buf.push(x as u8);
    buf.push((x >> 8) as u8);
    buf.push((x >> 16) as u8);
    buf.push((x >> 24) as u8);
    buf.push((x >> 32) as u8);
    buf.push((x >> 40) as u8);
    buf.push((x >> 48) as u8);
    buf.push((x >> 56) as u8);
    assert(final(buf)@ =~= old(buf)@ + le64(x));
}

/// Encode nodes into a payload: 48 bytes per node.
pub fn encode_payload(nodes: &[EcmaNode]) -> (r: Vec<u8>)
    requires
        48 * nodes@.len() <= usize::MAX,
    ensures
        r@ == payload_of(nodes@),
        r@.len() == 48 * nodes@.len(),
{
    let mut payload: Vec<u8> = Vec::new();
    let mut i: usize = 0;
    while i < nodes.len()
        invariant
            i <= nodes@.len(),
            payload@ == payload_of(nodes@.take(i as int)),
        decreases nodes@.len() - i,
    {
        let n = nodes[i];
        let ord: u64 = match n.state {
            NodeState::Stem => 0,
            NodeState::Progenitor => 1,
            NodeState::Specialized => 2,
            NodeState::Apoptosis => 3,
        };
        let ghost before = payload@;
        push_le64(&mut payload, n.id);
        push_le64(&mut payload, ord);
        push_le64(&mut payload, n.usage_count);
        push_le64(&mut payload, n.entropy_bits);
        push_le64(&mut payload, n.connections as u64);
        push_le64(&mut payload, n.maturity_bits);
        proof {
            assert(nodes@.take(i as int + 1).drop_last() =~= nodes@.take(i as int));
            assert(payload@ =~= before + node_bytes(n));
        }
        i += 1;
    }
    proof {
        assert(nodes@.take(nodes@.len() as int) =~= nodes@);
        lemma_payload_len(nodes@);
    }
    payload
}

/// `p` clamped into `[lo, hi]`.
pub open spec fn clamp(p: u8, lo: u8, hi: u8) -> u8 {
    if p < lo {
        lo
    } else if p > hi {
        hi
    } else {
        p
    }
}

/// Build an mRNA instruction from nodes.  `raw_priority` is the nodes'
/// mean maturity scaled to the maximum priority and rounded; it is
/// clamped into the configured range.  `original_size` is the size of the
/// nodes' unencoded form.
pub fn encode(
    nodes: &[EcmaNode],
    intent: MrnaIntent,
    raw_priority: u8,
    original_size: usize,
    config: &MceConfig,
) -> (r: Mrna)
    requires
        config.min_priority <= config.max_priority,
        48 * nodes@.len() <= usize::MAX,
    ensures
        r.intent == intent,
        r.priority == clamp(raw_priority, config.min_priority, config.max_priority),
        r.ttl_ms == config.default_ttl_ms,
        r.payload@ == payload_of(nodes@),
        r.payload_size_bytes == 48 * nodes@.len(),
        r.original_size_bytes == original_size,
{
    let payload = encode_payload(nodes);
    let priority = if raw_priority < config.min_priority {
        config.min_priority
    } else if raw_priority > config.max_priority {
        config.max_priority
    } else {
        raw_priority
    };
    let payload_size = payload.len();
    Mrna {
        intent,
        priority,
        ttl_ms: config.default_ttl_ms,
        payload,
        payload_size_bytes: payload_size,
        original_size_bytes: original_size,
    }
}

/// The message of the validation error of an instruction, if any: an
/// empty payload, then a zero time-to-live.
pub open spec fn validation_message(m: Mrna) -> Option<Seq<char>> {
    if m.payload@.len() == 0 {
        Some("mRNA payload is empty"@)
    } else if m.ttl_ms == 0 {
        Some("mRNA TTL is zero"@)
    } else {
        None
    }
}

/// Validate an instruction.
pub fn validate(mrna: &Mrna) -> (r: Result<(), KceError>)
    ensures
        match validation_message(*mrna) {
            None => r is Ok,
            Some(msg) => (r matches Err(KceError::Validation(s)) && s@ == msg),
        },
{
    if mrna.payload.len() == 0 {
        return Err(KceError::Validation(String::from_str("mRNA payload is empty")));
    }
    if mrna.ttl_ms == 0 {
        return Err(KceError::Validation(String::from_str("mRNA TTL is zero")));
    }
    Ok(())
}

/// More than `ttl_ms` has passed between `created_at_ms` and `now_ms`
/// (no time has passed when `now_ms` is earlier).
pub open spec fn spec_is_expired(ttl_ms: u64, created_at_ms: u64, now_ms: u64) -> bool {
    now_ms > created_at_ms && now_ms - created_at_ms > ttl_ms
}

/// Whether an instruction created at `created_at_ms` has expired at
/// `now_ms`.
pub fn is_expired(mrna: &Mrna, created_at_ms: u64, now_ms: u64) -> (r: bool)
    ensures
        r == spec_is_expired(mrna.ttl_ms, created_at_ms, now_ms),
{
    now_ms.saturating_sub(created_at_ms) > mrna.ttl_ms
}

/// One step of the payload hash: `h * 31 + b`, wrapping.
pub open spec fn hash_step(h: u64, b: u8) -> u64 {
    vstd::wrapping::u64_specs::wrapping_add(vstd::wrapping::u64_specs::wrapping_mul(h, 31), b as u64)
}

/// The payload hash: starting from 0, `h * 31 + b` for each byte,
/// wrapping.
pub open spec fn spec_payload_hash(p: Seq<u8>) -> u64
    decreases p.len(),
{
    if p.len() == 0 {
        0
    } else {
        hash_step(spec_payload_hash(p.drop_last()), p.last())
    }
}

/// The payload hash that decides the action outcomes.
pub fn payload_hash(payload: &[u8]) -> (r: u64)
    ensures
        r == spec_payload_hash(payload@),
{
    let mut h: u64 = 0;
    let mut i: usize = 0;
    while i < payload.len()
        invariant
            i <= payload@.len(),
            h == spec_payload_hash(payload@.take(i as int)),
        decreases payload@.len() - i,
    {
        proof {
            assert(payload@.take(i as int + 1).drop_last() =~= payload@.take(i as int));
        }
        h = h.wrapping_mul(31).wrapping_add(payload[i] as u64);
        i += 1;
    }
    proof {
        assert(payload@.take(payload@.len() as int) =~= payload@);
    }
    h
}

/// A grade of an outcome, named in lower case.
#[derive(Debug, Clone, Copy, PartialEq, Eq, Structural)]
pub enum Level {
    Low,
    Medium,
    High,
    Critical,
}

/// The name of a level.
pub open spec fn level_text(l: Level) -> Seq<char> {
    match l {
        Level::Low => "low"@,
        Level::Medium => "medium"@,
        Level::High => "high"@,
        Level::Critical => "critical"@,
    }
}

impl Level {
    /// The name of the level.
    pub fn name(&self) -> (r: &'static str)
        ensures
            r@ == level_text(*self),
    {
        match self {
            Level::Low => "low",
            Level::Medium => "medium",
            Level::High => "high",
            Level::Critical => "critical",
        }
    }
}

/// The outcome of an action.  Scores are hundredths (0 ..= 99) of the
/// floating-point score the action reports; `nodes` is the number of
/// nodes the payload encodes, 48 bytes each (see [`encode`]).
#[derive(Debug, Clone, Copy, PartialEq, Eq, Structural)]
pub enum Dispatch {
    /// Risk evaluation: a score and its level.
    RiskEval { score_pct: u64, level: Level, nodes: usize },
    /// Data enrichment: fields added (1 ..= 5) and an enrichment score.
    DataEnrich { fields_added: u64, score_pct: u64, nodes: usize },
    /// Alert: its severity and id.
    Alert { severity: Level, alert_id: u64, nodes: usize },
    /// Classification: self or not, with a confidence.
    Classify { is_self: bool, confidence_pct: u64, nodes: usize },
}

/// The node count an outcome reports.
pub open spec fn dispatch_nodes(d: Dispatch) -> usize {
    match d {
        Dispatch::RiskEval { nodes, .. } => nodes,
        Dispatch::DataEnrich { nodes, .. } => nodes,
        Dispatch::Alert { nodes, .. } => nodes,
        Dispatch::Classify { nodes, .. } => nodes,
    }
}

/// An action on the encoding of `nodes` reports as many nodes as were
/// encoded, whatever the intent.
pub proof fn lemma_dispatch_counts_nodes(nodes: Seq<EcmaNode>, intent: MrnaIntent)
    requires
        nodes.len() <= usize::MAX,
    ensures
        dispatch_nodes(spec_dispatch(intent, payload_of(nodes))) == nodes.len(),
{
    lemma_payload_len(nodes);
    assert((48 * nodes.len()) / 48 == nodes.len()) by (nonlinear_arith);
}

/// The outcome of an action with this intent on this payload.  Scores
/// above 70 are high risk, above 40 medium; the alert severity is the
/// hash modulo 4; a confidence above 50 classifies as self.
pub open spec fn spec_dispatch(intent: MrnaIntent, payload: Seq<u8>) -> Dispatch {
    let h = spec_payload_hash(payload);
    let nodes = (payload.len() / 48) as usize;
    match intent {
        MrnaIntent::RiskEval => Dispatch::RiskEval {
            score_pct: h % 100,
            level: if h % 100 > 70 {
                Level::High
            } else if h % 100 > 40 {
                Level::Medium
            } else {
                Level::Low
            },
            nodes,
        },
        MrnaIntent::DataEnrich => Dispatch::DataEnrich {
            fields_added: (h % 5 + 1) as u64,
            score_pct: h % 100,
            nodes,
        },
        MrnaIntent::Alert => Dispatch::Alert {
            severity: if h % 4 == 0 {
                Level::Low
            } else if h % 4 == 1 {
                Level::Medium
            } else if h % 4 == 2 {
                Level::High
            } else {
                Level::Critical
            },
            alert_id: h,
            nodes,
        },
        MrnaIntent::Classify => Dispatch::Classify {
            is_self: h % 100 > 50,
            confidence_pct: h % 100,
            nodes,
        },
    }
}

/// Choose the outcome of an instruction's action.
pub fn dispatch_intent(mrna: &Mrna) -> (r: Dispatch)
    ensures
        r == spec_dispatch(mrna.intent, mrna.payload@),
{
    let h = payload_hash(mrna.payload.as_slice());
    let nodes = mrna.payload.len() / 48;
    match mrna.intent {
        MrnaIntent::RiskEval => {
            let score_pct = h % 100;
            let level = if score_pct > 70 {
                Level::High
            } else if score_pct > 40 {
                Level::Medium
            } else {
                Level::Low
            };
            Dispatch::RiskEval { score_pct, level, nodes }
        },
        MrnaIntent::DataEnrich => Dispatch::DataEnrich {
            fields_added: h % 5 + 1,
            score_pct: h % 100,
            nodes,
        },
        MrnaIntent::Alert => {
            let n = h % 4;
            let severity = if n == 0 {
                Level::Low
            } else if n == 1 {
                Level::Medium
            } else if n == 2 {
                Level::High
            } else {
                Level::Critical
            };
            Dispatch::Alert { severity, alert_id: h, nodes }
        },
        MrnaIntent::Classify => {
            let confidence_pct = h % 100;
            Dispatch::Classify { is_self: confidence_pct > 50, confidence_pct, nodes }
        },
    }
}

/// What executing an instruction created at `created_at_ms` gives at
/// `now_ms`: a validation error, then expiry, else the action's outcome.
pub open spec fn execute_outcome(
    m: Mrna,
    created_at_ms: u64,
    now_ms: u64,
    r: Result<Dispatch, KceError>,
) -> bool {
    match validation_message(m) {
        Some(msg) => (r matches Err(KceError::Validation(s)) && s@ == msg),
        None => if spec_is_expired(m.ttl_ms, created_at_ms, now_ms) {
            r == Err::<Dispatch, KceError>(KceError::MrnaExpired { ttl_ms: m.ttl_ms })
        } else {
            r == Ok::<Dispatch, KceError>(spec_dispatch(m.intent, m.payload@))
        },
    }
}

/// Encodes nodes into instructions and executes them.
#[derive(Debug)]
pub struct MceEngine {
    config: MceConfig,
}

impl MceEngine {
    pub closed spec fn config(&self) -> MceConfig {
        self.config
    }

    /// An engine with the given configuration.
    pub fn new(config: MceConfig) -> (r: Self)
        ensures
            r.config() == config,
    {
        MceEngine { config }
    }

    /// An engine with the default configuration.
    pub fn with_defaults() -> (r: Self)
        ensures
            r.config().default_ttl_ms == 5000,
            r.config().min_priority == 1,
            r.config().max_priority == 10,
    {
        Self::new(MceConfig::default())
    }

    /// The engine's configuration.
    pub fn get_config(&self) -> (r: MceConfig)
        ensures
            r == self.config(),
    {
        self.config
    }

    /// Encode nodes into an instruction with this engine's configuration.
    pub fn encode(
        &self,
        nodes: &[EcmaNode],
        intent: MrnaIntent,
        raw_priority: u8,
        original_size: usize,
    ) -> (r: Mrna)
        requires
            self.config().min_priority <= self.config().max_priority,
            48 * nodes@.len() <= usize::MAX,
        ensures
            r.intent == intent,
            r.priority == clamp(raw_priority, self.config().min_priority, self.config().max_priority),
            r.ttl_ms == self.config().default_ttl_ms,
            r.payload@ == payload_of(nodes@),
            r.payload_size_bytes == 48 * nodes@.len(),
            r.original_size_bytes == original_size,
    {
        encode(nodes, intent, raw_priority, original_size, &self.config)
    }

    /// Execute an instruction created at `created_at_ms` (milliseconds
    /// since the UNIX epoch) at time `now_ms`.
    pub fn execute_at(&self, mrna: &Mrna, created_at_ms: u64, now_ms: u64) -> (r: Result<
        Dispatch,
        KceError,
    >)
        ensures
            execute_outcome(*mrna, created_at_ms, now_ms, r),
    {
        validate(mrna)?;
        if is_expired(mrna, created_at_ms, now_ms) {
            return Err(KceError::MrnaExpired { ttl_ms: mrna.ttl_ms });
        }
        Ok(dispatch_intent(mrna))
    }

    /// Execute an instruction created at `created_at_ms`, checking its
    /// time-to-live against the wall clock.
    pub fn execute(&self, mrna: &Mrna, created_at_ms: u64) -> (r: Result<Dispatch, KceError>)
        ensures
            exists|now: u64| #[trigger] execute_outcome(*mrna, created_at_ms, now, r),
    {
        let now = now_ms();
        self.execute_at(mrna, created_at_ms, now)
    }
}

/// The order of levels, lowest first.
pub open spec fn level_rank(l: Level) -> int {
    match l {
        Level::Low => 0,
        Level::Medium => 1,
        Level::High => 2,
        Level::Critical => 3,
    }
}

/// A risk evaluation scores the payload hash modulo 100 and grades the
/// score: above 70 is high, above 40 and at most 70 medium, at most 40
/// low.
pub proof fn lemma_risk_grade(payload: Seq<u8>)
    ensures
        spec_dispatch(MrnaIntent::RiskEval, payload) is RiskEval,
        ({
            let d = spec_dispatch(MrnaIntent::RiskEval, payload);
            let score = d->RiskEval_score_pct;
            let level = d->RiskEval_level;
            &&& score == spec_payload_hash(payload) % 100
            &&& score < 100
            &&& (level == Level::High) == (score > 70)
            &&& (level == Level::Medium) == (40 < score && score <= 70)
            &&& (level == Level::Low) == (score <= 40)
        }),
{
}

/// The risk grade never falls as the score rises: of two evaluations,
/// the one with the higher score is graded at least as high.
pub proof fn lemma_risk_grade_monotone(p1: Seq<u8>, p2: Seq<u8>)
    ensures
        ({
            let d1 = spec_dispatch(MrnaIntent::RiskEval, p1);
            let d2 = spec_dispatch(MrnaIntent::RiskEval, p2);
            d1->RiskEval_score_pct <= d2->RiskEval_score_pct ==> level_rank(d1->RiskEval_level)
                <= level_rank(d2->RiskEval_level)
        }),
{
}

/// Each intent gives its own kind of outcome, derived from the payload
/// hash: an enrichment adds between 1 and 5 fields (the hash modulo 5, plus
/// one) and scores the hash modulo 100; an alert's id is the hash and its
/// severity climbs Low, Medium, High, Critical with the hash modulo 4; a
/// classification is "self" exactly when its confidence (the hash modulo
/// 100) is above 50.
pub proof fn lemma_action_outcomes(payload: Seq<u8>)
    ensures
        ({
            let h = spec_payload_hash(payload);
            let e = spec_dispatch(MrnaIntent::DataEnrich, payload);
            let a = spec_dispatch(MrnaIntent::Alert, payload);
            let c = spec_dispatch(MrnaIntent::Classify, payload);
            &&& e is DataEnrich && 1 <= e->fields_added <= 5 && e->fields_added == h % 5 + 1
                && e->DataEnrich_score_pct == h % 100
            &&& a is Alert && a->alert_id == h && level_rank(a->severity) == h % 4
            &&& c is Classify && c->confidence_pct == h % 100 && c->confidence_pct < 100
                && c->is_self == (c->confidence_pct > 50)
        }),
{
}

} // verus!
