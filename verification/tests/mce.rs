use kce::ecma::EcmaNode;
use kce::error::KceError;
use kce::mce::{
    dispatch_intent, encode, encode_payload, is_expired, payload_hash, validate, Dispatch, Level,
    MceConfig, MceEngine, Mrna,
};
use kce::types::{MrnaIntent, NodeState};

fn node(id: u64, state: NodeState, usage: u64, entropy: f64, connections: usize, maturity: f64) -> EcmaNode {
    EcmaNode {
        id,
        state,
        usage_count: usage,
        entropy_bits: entropy.to_bits(),
        connections,
        maturity_bits: maturity.to_bits(),
    }
}

fn sample_nodes() -> Vec<EcmaNode> {
    vec![
        node(42, NodeState::Specialized, 15, 0.2, 8, 0.87),
        node(17, NodeState::Progenitor, 8, 0.4, 4, 0.55),
    ]
}

fn mrna(ttl_ms: u64, payload: Vec<u8>) -> Mrna {
    let n = payload.len();
    Mrna {
        intent: MrnaIntent::RiskEval,
        priority: 5,
        ttl_ms,
        payload,
        payload_size_bytes: n,
        original_size_bytes: n,
    }
}

#[test]
fn encode_produces_valid_mrna() {
    let config = MceConfig::default();
    let m = encode(&sample_nodes(), MrnaIntent::RiskEval, 7, 300, &config);
    assert_eq!(m.intent, MrnaIntent::RiskEval);
    assert!(m.priority >= 1 && m.priority <= 10);
    assert!(m.ttl_ms > 0);
    assert!(!m.payload.is_empty());
}

#[test]
fn encode_empty_nodes() {
    let config = MceConfig::default();
    let m = encode(&[], MrnaIntent::Alert, 0, 2, &config);
    assert_eq!(m.payload.len(), 0);
}

#[test]
fn validate_empty_payload_errors() {
    let m = mrna(1000, vec![]);
    assert!(validate(&m).is_err());
}

#[test]
fn validate_zero_ttl_errors() {
    let m = mrna(0, vec![0x01]);
    assert!(validate(&m).is_err());
}

#[test]
fn expired_detection_works() {
    let m = mrna(100, vec![0x01]);
    assert!(is_expired(&m, 1000, 2000));
    assert!(!is_expired(&m, 1000, 1050));
}

#[test]
fn payload_layout_is_little_endian() {
    let nodes = vec![node(0x0102, NodeState::Specialized, 3, 0.5, 7, 0.25)];
    let p = encode_payload(&nodes);
    assert_eq!(p.len(), 48);
    assert_eq!(&p[0..8], &0x0102u64.to_le_bytes());
    assert_eq!(&p[8..16], &2u64.to_le_bytes());
    assert_eq!(&p[16..24], &3u64.to_le_bytes());
    assert_eq!(&p[24..32], &0.5f64.to_le_bytes());
    assert_eq!(&p[32..40], &7u64.to_le_bytes());
    assert_eq!(&p[40..48], &0.25f64.to_le_bytes());
}

#[test]
fn priority_is_clamped() {
    let config = MceConfig::default();
    assert_eq!(encode(&sample_nodes(), MrnaIntent::Classify, 0, 1, &config).priority, 1);
    assert_eq!(encode(&sample_nodes(), MrnaIntent::Classify, 9, 1, &config).priority, 9);
    assert_eq!(encode(&sample_nodes(), MrnaIntent::Classify, 200, 1, &config).priority, 10);
    let m = encode(&sample_nodes(), MrnaIntent::Classify, 4, 321, &config);
    assert_eq!(m.ttl_ms, 5000);
    assert_eq!(m.payload_size_bytes, 96);
    assert_eq!(m.original_size_bytes, 321);
}

#[test]
fn validation_messages() {
    match validate(&mrna(1000, vec![])) {
        Err(KceError::Validation(s)) => assert_eq!(s, "mRNA payload is empty"),
        other => panic!("unexpected {:?}", other),
    }
    match validate(&mrna(0, vec![1])) {
        Err(KceError::Validation(s)) => assert_eq!(s, "mRNA TTL is zero"),
        other => panic!("unexpected {:?}", other),
    }
    assert!(validate(&mrna(1, vec![1])).is_ok());
}

#[test]
fn payload_hash_folds_times_31() {
    assert_eq!(payload_hash(&[]), 0);
    assert_eq!(payload_hash(&[1, 2, 3]), (1 * 31 + 2) * 31 + 3);
    // Wraps on overflow.
    let long = vec![255u8; 40];
    let mut h: u64 = 0;
    for b in &long {
        h = h.wrapping_mul(31).wrapping_add(*b as u64);
    }
    assert_eq!(payload_hash(&long), h);
}

#[test]
fn dispatch_outcomes_follow_hash() {
    // hash([1, 2, 3]) = 1026: 26 of 100, 1 of 5, 2 of 4.
    let mut m = mrna(1000, vec![1, 2, 3]);
    assert_eq!(
        dispatch_intent(&m),
        Dispatch::RiskEval { score_pct: 26, level: Level::Low, nodes: 0 }
    );
    m.intent = MrnaIntent::DataEnrich;
    assert_eq!(
        dispatch_intent(&m),
        Dispatch::DataEnrich { fields_added: 2, score_pct: 26, nodes: 0 }
    );
    m.intent = MrnaIntent::Alert;
    assert_eq!(
        dispatch_intent(&m),
        Dispatch::Alert { severity: Level::High, alert_id: 1026, nodes: 0 }
    );
    m.intent = MrnaIntent::Classify;
    assert_eq!(
        dispatch_intent(&m),
        Dispatch::Classify { is_self: false, confidence_pct: 26, nodes: 0 }
    );
    // 48 zero bytes hash to 0: the encoding of one node.
    let z = Mrna { intent: MrnaIntent::Alert, ..mrna(1000, vec![0u8; 48]) };
    assert_eq!(dispatch_intent(&z), Dispatch::Alert { severity: Level::Low, alert_id: 0, nodes: 1 });
    assert_eq!(Level::Critical.name(), "critical");
}

#[test]
fn execute_empty_payload_fails() {
    let engine = MceEngine::with_defaults();
    let m = mrna(1000, vec![]);
    assert!(engine.execute(&m, now_ms()).is_err());
}

#[test]
fn execute_expired_mrna_fails() {
    let engine = MceEngine::with_defaults();
    let m = engine.encode(&[node(42, NodeState::Specialized, 15, 0.2, 8, 0.87)], MrnaIntent::RiskEval, 9, 100);
    // created 10000ms ago, ttl is only 5000ms by default
    let result = engine.execute(&m, now_ms() - 10_000);
    assert!(result.is_err());
    match result {
        Err(KceError::MrnaExpired { .. }) => {}
        other => panic!("expected MrnaExpired, got {:?}", other),
    }
}

#[test]
fn execute_at_checks_in_order() {
    let engine = MceEngine::new(MceConfig { default_ttl_ms: 100, min_priority: 1, max_priority: 10 });
    let m = engine.encode(&sample_nodes(), MrnaIntent::Classify, 5, 10);
    assert_eq!(m.ttl_ms, 100);
    let expected = dispatch_intent(&m);
    assert!(matches!(engine.execute_at(&m, 1000, 1100), Ok(d) if d == expected));
    assert!(matches!(engine.execute_at(&m, 1000, 1101), Err(KceError::MrnaExpired { ttl_ms: 100 })));
    // A clock behind the creation time never expires.
    assert!(engine.execute_at(&m, 5000, 10).is_ok());
    let empty = mrna(0, vec![]);
    assert!(matches!(engine.execute_at(&empty, 0, u64::MAX), Err(KceError::Validation(_))));
}

fn now_ms() -> u64 {
    std::time::SystemTime::now()
        .duration_since(std::time::UNIX_EPOCH)
        .map(|d| d.as_millis() as u64)
        .unwrap_or(0)
}

#[test]
fn dispatch_counts_encoded_nodes() {
    let engine = MceEngine::with_defaults();
    let nodes = vec![
        node(1, NodeState::Stem, 1, 0.5, 0, 0.1),
        node(2, NodeState::Progenitor, 2, 0.4, 1, 0.2),
        node(3, NodeState::Specialized, 3, 0.3, 2, 0.3),
    ];
    for intent in [MrnaIntent::RiskEval, MrnaIntent::DataEnrich, MrnaIntent::Alert, MrnaIntent::Classify] {
        let m = engine.encode(&nodes, intent, 3, 100);
        let n = match dispatch_intent(&m) {
            Dispatch::RiskEval { nodes, .. } => nodes,
            Dispatch::DataEnrich { nodes, .. } => nodes,
            Dispatch::Alert { nodes, .. } => nodes,
            Dispatch::Classify { nodes, .. } => nodes,
        };
        assert_eq!(n, 3);
    }
}
