use kce::ecma::{next_state, node_key, transition, EcmaConfig, EcmaNode, EntropyLevel};
use kce::error::KceError;
use kce::types::NodeState;

fn make_node(state: NodeState, usage: u64, entropy: f64, connections: usize) -> EcmaNode {
    EcmaNode {
        id: 1,
        state,
        usage_count: usage,
        entropy_bits: entropy.to_bits(),
        connections,
        maturity_bits: 0.0f64.to_bits(),
    }
}

/// How the node's entropy compares with the configured threshold.
fn level(node: &EcmaNode, config: &EcmaConfig) -> EntropyLevel {
    let e = f64::from_bits(node.entropy_bits);
    let t = f64::from_bits(config.apoptosis_entropy_threshold_bits);
    if e < t {
        EntropyLevel::Below
    } else if e >= t {
        EntropyLevel::AtOrAbove
    } else {
        EntropyLevel::Unordered
    }
}

fn step(node: &mut EcmaNode, config: &EcmaConfig) -> Result<(), KceError> {
    let l = level(node, config);
    transition(node, config, l)
}

#[test]
fn stem_to_progenitor() {
    let config = EcmaConfig::default();
    let mut node = make_node(NodeState::Stem, 5, 0.3, 3);
    step(&mut node, &config).expect("transition");
    assert_eq!(node.state, NodeState::Progenitor);
}

#[test]
fn progenitor_to_specialized() {
    let config = EcmaConfig::default();
    let mut node = make_node(NodeState::Progenitor, 10, 0.2, 5);
    step(&mut node, &config).expect("transition");
    assert_eq!(node.state, NodeState::Specialized);
}

#[test]
fn progenitor_to_specialized_requires_connections() {
    let config = EcmaConfig::default();
    let mut node = make_node(NodeState::Progenitor, 10, 0.2, 2);
    step(&mut node, &config).expect("transition");
    assert_eq!(node.state, NodeState::Progenitor);
}

#[test]
fn degrade_to_apoptosis() {
    let config = EcmaConfig::default();
    let mut node = make_node(NodeState::Progenitor, 1, 0.95, 0);
    step(&mut node, &config).expect("transition");
    assert_eq!(node.state, NodeState::Apoptosis);
}

#[test]
fn apoptosis_is_terminal() {
    let config = EcmaConfig::default();
    let mut node = make_node(NodeState::Apoptosis, 0, 0.5, 0);
    let result = step(&mut node, &config);
    assert!(result.is_err());
}

#[test]
fn stem_stays_stem_below_threshold() {
    let config = EcmaConfig::default();
    let mut node = make_node(NodeState::Stem, 2, 0.3, 1);
    step(&mut node, &config).expect("transition");
    assert_eq!(node.state, NodeState::Stem);
}

#[test]
fn default_threshold_is_point_nine() {
    let config = EcmaConfig::default();
    assert_eq!(f64::from_bits(config.apoptosis_entropy_threshold_bits), 0.9);
    assert_eq!(config.stem_to_progenitor_usage, 5);
    assert_eq!(config.progenitor_to_specialized_usage, 10);
    assert_eq!(config.progenitor_to_specialized_connections, 3);
    assert_eq!(config.apoptosis_usage_threshold, 2);
}

#[test]
fn apoptosis_error_names_state() {
    let config = EcmaConfig::default();
    let mut node = make_node(NodeState::Apoptosis, 0, 0.5, 0);
    let before = node;
    match step(&mut node, &config) {
        Err(KceError::InvalidTransition { from, to }) => {
            assert_eq!(from, "Apoptosis");
            assert_eq!(to, "any");
        }
        other => panic!("expected InvalidTransition, got {:?}", other),
    }
    assert_eq!(node, before);
}

#[test]
fn specialized_degrades_only_with_high_entropy_and_low_use() {
    let config = EcmaConfig::default();
    assert_eq!(
        next_state(NodeState::Specialized, 2, 0, EntropyLevel::AtOrAbove, &config).unwrap(),
        NodeState::Apoptosis
    );
    assert_eq!(
        next_state(NodeState::Specialized, 3, 0, EntropyLevel::AtOrAbove, &config).unwrap(),
        NodeState::Specialized
    );
    assert_eq!(
        next_state(NodeState::Specialized, 0, 0, EntropyLevel::Unordered, &config).unwrap(),
        NodeState::Specialized
    );
    // A NaN entropy is neither below nor above: a Progenitor stays.
    let mut node = make_node(NodeState::Progenitor, 50, f64::NAN, 9);
    step(&mut node, &config).expect("transition");
    assert_eq!(node.state, NodeState::Progenitor);
}

#[test]
fn node_key_format() {
    assert_eq!(node_key(42), "ecma:node:42");
    assert_eq!(node_key(0), "ecma:node:0");
}
