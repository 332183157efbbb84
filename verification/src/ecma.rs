//! Node lifecycle: nodes evolve `Stem -> Progenitor -> Specialized` with
//! use, and degrade to `Apoptosis`, from which no transition leads out.
//!
//! Entropies and thresholds are floating-point numbers; the rules read
//! only how a node's entropy compares with the apoptosis threshold, which
//! the caller measures and hands in as an [`EntropyLevel`].
use vstd::prelude::*;
use vstd::string::*;
use crate::error::KceError;
use crate::text::{decimal, spec_decimal};
use crate::types::NodeState;

verus! {

/// A knowledge node.  `entropy_bits` and `maturity_bits` hold the bit
/// patterns of the node's `f64` entropy (0 stable .. 1 chaotic) and
/// maturity (0 .. 1).
#[derive(Debug, Clone, Copy, PartialEq, Eq, Structural)]
pub struct EcmaNode {
    pub id: u64,
    pub state: NodeState,
    pub usage_count: u64,
    pub entropy_bits: u64,
    pub connections: usize,
    pub maturity_bits: u64,
}

/// Thresholds for the state transitions.  `apoptosis_entropy_threshold_bits`
/// holds the bit pattern of an `f64`.
#[derive(Debug, Clone, Copy, PartialEq, Eq, Structural)]
pub struct EcmaConfig {
    /// Usage count to move Stem -> Progenitor.
    pub stem_to_progenitor_usage: u64,
    /// Usage count to move Progenitor -> Specialized.
    pub progenitor_to_specialized_usage: u64,
    /// Connections needed to move Progenitor -> Specialized.
    pub progenitor_to_specialized_connections: usize,
    /// Entropy at or above which a node may degrade to Apoptosis.
    pub apoptosis_entropy_threshold_bits: u64,
    /// Usage count at or below which a node may degrade (with high entropy).
    pub apoptosis_usage_threshold: u64,
}

/// The bit pattern of the `f64` 0.9.
pub const ENTROPY_THRESHOLD_BITS: u64 = 0x3FEC_CCCC_CCCC_CCCD;

impl Default for EcmaConfig {
    fn default() -> (r: Self)
        ensures
            r.stem_to_progenitor_usage == 5,
            r.progenitor_to_specialized_usage == 10,
            r.progenitor_to_specialized_connections == 3,
            r.apoptosis_entropy_threshold_bits == ENTROPY_THRESHOLD_BITS,
            r.apoptosis_usage_threshold == 2,
    {
        EcmaConfig {
            stem_to_progenitor_usage: 5,
            progenitor_to_specialized_usage: 10,
            progenitor_to_specialized_connections: 3,
            apoptosis_entropy_threshold_bits: ENTROPY_THRESHOLD_BITS,
            apoptosis_usage_threshold: 2,
        }
    }
}

/// How a node's entropy compares with the apoptosis threshold.
#[derive(Debug, Clone, Copy, PartialEq, Eq, Structural)]
pub enum EntropyLevel {
    /// Below the threshold.
    Below,
    /// At or above the threshold.
    AtOrAbove,
    /// Not comparable (a NaN): neither below nor at or above.
    Unordered,
}

/// The state after one transition step, or `None` for a node already in
/// Apoptosis, which has no transition.
pub open spec fn spec_next_state(
    state: NodeState,
    usage_count: u64,
    connections: usize,
    entropy: EntropyLevel,
    c: EcmaConfig,
) -> Option<NodeState> {
    let degrades = entropy == EntropyLevel::AtOrAbove && usage_count <= c.apoptosis_usage_threshold;
    match state {
        NodeState::Stem => Some(
            if usage_count >= c.stem_to_progenitor_usage {
                NodeState::Progenitor
            } else {
                NodeState::Stem
            },
        ),
        NodeState::Progenitor => Some(
            if usage_count >= c.progenitor_to_specialized_usage && entropy == EntropyLevel::Below
                && connections >= c.progenitor_to_specialized_connections {
                NodeState::Specialized
            } else if degrades {
                NodeState::Apoptosis
            } else {
                NodeState::Progenitor
            },
        ),
        NodeState::Specialized => Some(
            if degrades {
                NodeState::Apoptosis
            } else {
                NodeState::Specialized
            },
        ),
        NodeState::Apoptosis => None,
    }
}

/// The error for a transition out of `state`: `InvalidTransition` from the
/// state's name to "any".
pub open spec fn is_transition_error(e: KceError, state: NodeState) -> bool {
    &&& e is InvalidTransition
    &&& e->from@ == crate::types::node_state_text(state)
    &&& e->to@ == "any"@
}

/// The state after one transition step.
pub fn next_state(
    state: NodeState,
    usage_count: u64,
    connections: usize,
    entropy: EntropyLevel,
    config: &EcmaConfig,
) -> (r: Result<NodeState, KceError>)
    ensures
        match r {
            Ok(s) => spec_next_state(state, usage_count, connections, entropy, *config) == Some(s),
            Err(e) => spec_next_state(state, usage_count, connections, entropy, *config) is None
                && is_transition_error(e, state),
        },
{
    let degrades = entropy == EntropyLevel::AtOrAbove && usage_count
        <= config.apoptosis_usage_threshold;
    match state {
        NodeState::Stem => {
            if usage_count >= config.stem_to_progenitor_usage {
                Ok(NodeState::Progenitor)
            } else {
                Ok(NodeState::Stem)
            }
        },
        NodeState::Progenitor => {
            if usage_count >= config.progenitor_to_specialized_usage && entropy
                == EntropyLevel::Below && connections
                >= config.progenitor_to_specialized_connections {
                Ok(NodeState::Specialized)
            } else if degrades {
                Ok(NodeState::Apoptosis)
            } else {
                Ok(NodeState::Progenitor)
            }
        },
        NodeState::Specialized => {
            if degrades {
                Ok(NodeState::Apoptosis)
            } else {
                Ok(NodeState::Specialized)
            }
        },
        NodeState::Apoptosis => {
            let from = String::from_str(state.name());
            let to = String::from_str("any");
            Err(KceError::InvalidTransition { from, to })
        },
    }
}

/// Apply one transition step to `node`, whose entropy compares with the
/// threshold as `entropy` says.  Only the state changes; a node in
/// Apoptosis is left as it is and the call fails.
pub fn transition(node: &mut EcmaNode, config: &EcmaConfig, entropy: EntropyLevel) -> (r: Result<
    (),
    KceError,
>)
    ensures
        match r {
            Ok(_) => spec_next_state(
                old(node).state,
                old(node).usage_count,
                old(node).connections,
                entropy,
                *config,
            ) == Some(final(node).state) && *final(node) == (EcmaNode {
                state: final(node).state,
                ..*old(node)
            }),
            Err(e) => spec_next_state(
                old(node).state,
                old(node).usage_count,
                old(node).connections,
                entropy,
                *config,
            ) is None && is_transition_error(e, old(node).state) && *final(node) == *old(node),
        },
{
    let s = next_state(node.state, node.usage_count, node.connections, entropy, config)?;
    if s != node.state {
        node.state = s;
    }
    Ok(())
}

/// Rank of a state along the lifecycle.
pub open spec fn rank(s: NodeState) -> int {
    match s {
        NodeState::Stem => 0,
        NodeState::Progenitor => 1,
        NodeState::Specialized => 2,
        NodeState::Apoptosis => 3,
    }
}

/// Apoptosis is terminal: no transition leads out of it.
pub proof fn lemma_apoptosis_terminal(
    usage_count: u64,
    connections: usize,
    entropy: EntropyLevel,
    c: EcmaConfig,
)
    ensures
        spec_next_state(NodeState::Apoptosis, usage_count, connections, entropy, c) is None,
{
}

/// A transition never moves a node back along the lifecycle, and never
/// jumps more than one stage, but for the drop to Apoptosis.
pub proof fn lemma_forward_only(
    state: NodeState,
    usage_count: u64,
    connections: usize,
    entropy: EntropyLevel,
    c: EcmaConfig,
)
    requires
        state != NodeState::Apoptosis,
    ensures
        ({
            let n = spec_next_state(state, usage_count, connections, entropy, c)->0;
            &&& rank(state) <= rank(n)
            &&& rank(n) <= rank(state) + 1 || n == NodeState::Apoptosis
        }),
{
}

/// A Stem node never degrades: it only stays or becomes a Progenitor.
pub proof fn lemma_stem_never_dies(
    usage_count: u64,
    connections: usize,
    entropy: EntropyLevel,
    c: EcmaConfig,
)
    ensures
        spec_next_state(NodeState::Stem, usage_count, connections, entropy, c)->0
            != NodeState::Apoptosis,
{
}

/// The storage key of a node: `ecma:node:` and its id in decimal.
pub fn node_key(id: u64) -> (r: String)
    ensures
        r@ == "ecma:node:"@ + spec_decimal(id as nat),
{
    let mut s = String::from_str("ecma:node:");
    let d = decimal(id);
    s.append(d.as_str());
    s
}

/// A progenitor specializes only when it has been used at least
/// `progenitor_to_specialized_usage` times, its entropy is below the
/// threshold and it has at least `progenitor_to_specialized_connections`
/// connections; and it always does then.  With fewer uses it never
/// becomes specialized, whatever its entropy and connections.
pub proof fn lemma_specialization_requires_use(
    usage_count: u64,
    connections: usize,
    entropy: EntropyLevel,
    c: EcmaConfig,
)
    ensures
        (spec_next_state(NodeState::Progenitor, usage_count, connections, entropy, c) == Some(
            NodeState::Specialized,
        )) == (usage_count >= c.progenitor_to_specialized_usage && entropy == EntropyLevel::Below
            && connections >= c.progenitor_to_specialized_connections),
        usage_count < c.progenitor_to_specialized_usage ==> spec_next_state(
            NodeState::Progenitor,
            usage_count,
            connections,
            entropy,
            c,
        ) != Some(NodeState::Specialized),
{
}

/// The other transitions: a stem cell becomes a progenitor exactly when
/// used at least `stem_to_progenitor_usage` times and otherwise stays a
/// stem cell; a progenitor that does not specialize dies exactly when its
/// entropy is at or above the threshold and it was used at most
/// `apoptosis_usage_threshold` times, and otherwise stays; a specialized
/// cell dies under that same condition and otherwise stays.
pub proof fn lemma_lifecycle_rules(usage_count: u64, connections: usize, entropy: EntropyLevel, c: EcmaConfig)
    ensures
        ({
            let degrades = entropy == EntropyLevel::AtOrAbove && usage_count <= c.apoptosis_usage_threshold;
            let specializes = usage_count >= c.progenitor_to_specialized_usage && entropy == EntropyLevel::Below
                && connections >= c.progenitor_to_specialized_connections;
            &&& spec_next_state(NodeState::Stem, usage_count, connections, entropy, c) == Some(
                if usage_count >= c.stem_to_progenitor_usage { NodeState::Progenitor } else { NodeState::Stem },
            )
            &&& (spec_next_state(NodeState::Progenitor, usage_count, connections, entropy, c) == Some(
                NodeState::Apoptosis,
            )) == (!specializes && degrades)
            &&& (spec_next_state(NodeState::Progenitor, usage_count, connections, entropy, c) == Some(
                NodeState::Progenitor,
            )) == (!specializes && !degrades)
            &&& spec_next_state(NodeState::Specialized, usage_count, connections, entropy, c) == Some(
                if degrades { NodeState::Apoptosis } else { NodeState::Specialized },
            )
        }),
{
}

} // verus!
