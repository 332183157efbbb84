use kce::swarm::{
    calculate_shard, gossip_targets, id_greater, LwwElement, MessageType, RaftLite, RaftRole,
    SwarmPacket, HEADER_LEN, MAGIC_BYTE,
};

fn id(b: u8) -> [u8; 16] {
    let mut x = [0u8; 16];
    x[15] = b;
    x
}

#[test]
fn packet_roundtrip() {
    let p = SwarmPacket {
        source_node_id: id(7),
        sequence_number: 0x0102_0304,
        message_type: MessageType::AntigenSync,
        causal_watermark: 0x1122_3344_5566_7788,
        payload: b"hello".to_vec(),
    };
    let bytes = p.serialize();
    assert_eq!(bytes.len(), HEADER_LEN + 5);
    assert_eq!(bytes[0], MAGIC_BYTE);
    assert_eq!(&bytes[17..21], &[1, 2, 3, 4]);
    assert_eq!(bytes[21], 2);
    let back = SwarmPacket::deserialize(&bytes).expect("decode");
    assert_eq!(back.source_node_id, id(7));
    assert_eq!(back.sequence_number, 0x0102_0304);
    assert_eq!(back.message_type, MessageType::AntigenSync);
    assert_eq!(back.causal_watermark, 0x1122_3344_5566_7788);
    assert_eq!(back.payload, b"hello".to_vec());
}

#[test]
fn packet_errors() {
    assert!(SwarmPacket::deserialize(&[0u8; 10]).is_err());
    let p = SwarmPacket {
        source_node_id: id(1),
        sequence_number: 1,
        message_type: MessageType::PheromoneSync,
        causal_watermark: 1,
        payload: vec![],
    };
    let mut bytes = p.serialize();
    bytes[0] = 0x04;
    assert!(SwarmPacket::deserialize(&bytes).is_err());
    let mut bytes = p.serialize();
    bytes[21] = 9;
    assert!(SwarmPacket::deserialize(&bytes).is_err());
}

#[test]
fn message_type_codes() {
    assert_eq!(MessageType::GraphDeltaSync.code(), 3);
    assert_eq!(MessageType::try_from(1), Ok(MessageType::PheromoneSync));
    assert_eq!(MessageType::try_from(0x2a), Err("unknown message type: 0x2a".to_string()));
}

#[test]
fn lww_later_write_wins() {
    let mut a = LwwElement { value: 1u32, timestamp: 10, source_node_id: id(1) };
    let b = LwwElement { value: 2u32, timestamp: 11, source_node_id: id(0) };
    a.merge(&b);
    assert_eq!(a.value, 2);
    assert_eq!(a.timestamp, 11);
    let older = LwwElement { value: 3u32, timestamp: 5, source_node_id: id(9) };
    a.merge(&older);
    assert_eq!(a.value, 2);
    // Equal timestamps: the greater node id wins.
    let tie = LwwElement { value: 4u32, timestamp: 11, source_node_id: id(1) };
    a.merge(&tie);
    assert_eq!(a.value, 4);
    assert!(id_greater(&id(2), &id(1)));
    assert!(!id_greater(&id(1), &id(1)));
}

#[test]
fn raft_election_and_append() {
    let mut r = RaftLite::new(id(3));
    assert_eq!(r.state(), RaftRole::Follower);
    assert_eq!(r.term(), 0);
    r.start_election();
    assert_eq!(r.state(), RaftRole::Candidate);
    assert_eq!(r.term(), 1);
    r.promote();
    assert_eq!(r.state(), RaftRole::Leader);
    assert_eq!(r.append("SET".to_string(), vec![1]), 1);
    assert_eq!(r.append("SET".to_string(), vec![2]), 2);
}

#[test]
fn shards_and_gossip() {
    let s = calculate_shard("tenant", 1000);
    assert_eq!(s.id, 1000 % 256);
    assert_eq!(s.tenant_id, "tenant");
    assert_eq!(gossip_targets(&[1, 2, 3, 4, 5]), vec![1, 2, 3]);
    assert_eq!(gossip_targets(&[9, 8]), vec![9, 8]);
}
