//! Swarm protocol: the binary gossip packet format, last-write-wins
//! registers, a simplified Raft log, hash-based sharding and gossip target
//! selection.
//!
//! Node identifiers are the 16 bytes of a UUID.
use vstd::prelude::*;
use vstd::string::*;
use crate::text::{spec_hex_digits, push_hex_digits};

verus! {

/// Unique identifier for a cluster node: the bytes of its UUID.
pub type NodeId = [u8; 16];

/// Swarm message types, by wire code: 0x01, 0x02, 0x03.
#[derive(Debug, Clone, Copy, PartialEq, Eq, Structural)]
pub enum MessageType {
    PheromoneSync,
    AntigenSync,
    GraphDeltaSync,
}

/// The wire code of a message type.
pub open spec fn type_code(t: MessageType) -> u8 {
    match t {
        MessageType::PheromoneSync => 1u8,
        MessageType::AntigenSync => 2u8,
        MessageType::GraphDeltaSync => 3u8,
    }
}

/// The message type a wire code names, if any.
pub open spec fn type_of_code(v: u8) -> Option<MessageType> {
    if v == 1 {
        Some(MessageType::PheromoneSync)
    } else if v == 2 {
        Some(MessageType::AntigenSync)
    } else if v == 3 {
        Some(MessageType::GraphDeltaSync)
    } else {
        None
    }
}

/// The error text for an unknown wire code.
pub open spec fn unknown_type_text(v: u8) -> Seq<char> {
    "unknown message type: 0x"@ + spec_hex_digits(v as nat, 2)
}

impl MessageType {
    /// The wire code of this message type.
    pub fn code(&self) -> (r: u8)
        ensures
            r == type_code(*self),
    {
        match self {
            MessageType::PheromoneSync => 1,
            MessageType::AntigenSync => 2,
            MessageType::GraphDeltaSync => 3,
        }
    }

    /// The message type with wire code `v`, or an error naming the code.
    pub fn try_from(v: u8) -> (r: Result<MessageType, String>)
        ensures
            match r {
                Ok(t) => type_of_code(v) == Some(t),
                Err(e) => type_of_code(v) is None && e@ == unknown_type_text(v),
            },
    {
        if v == 1 {
            Ok(MessageType::PheromoneSync)
        } else if v == 2 {
            Ok(MessageType::AntigenSync)
        } else if v == 3 {
            Ok(MessageType::GraphDeltaSync)
        } else {
            let mut e = String::from_str("unknown message type: 0x");
            push_hex_digits(&mut e, v as u64, 2);
            Err(e)
        }
    }
}

/// The magic byte every packet starts with.
pub const MAGIC_BYTE: u8 = 0x03;

/// Length of the fixed packet header: magic, node id, sequence number,
/// type, watermark.
pub const HEADER_LEN: usize = 30;

/// Swarm binary packet.
#[derive(Debug, Clone)]
pub struct SwarmPacket {
    pub source_node_id: NodeId,
    pub sequence_number: u32,
    pub message_type: MessageType,
    pub causal_watermark: u64,
    pub payload: Vec<u8>,
}

/// Big-endian bytes of a `u32`.
pub open spec fn be32(x: u32) -> Seq<u8> {
    seq![(x >> 24u32) as u8, (x >> 16u32) as u8, (x >> 8u32) as u8, x as u8]
}

/// Big-endian bytes of a `u64`.
pub open spec fn be64(x: u64) -> Seq<u8> {
    seq![
        (x >> 56u64) as u8,
        (x >> 48u64) as u8,
        (x >> 40u64) as u8,
        (x >> 32u64) as u8,
        (x >> 24u64) as u8,
        (x >> 16u64) as u8,
        (x >> 8u64) as u8,
        x as u8,
    ]
}

/// The `u32` whose big-endian bytes are `b[0..4]`.
pub open spec fn from_be32(b: Seq<u8>) -> u32 {
    ((b[0] as u32) << 24u32) | ((b[1] as u32) << 16u32) | ((b[2] as u32) << 8u32) | (b[3] as u32)
}

/// The `u64` whose big-endian bytes are `b[0..8]`.
pub open spec fn from_be64(b: Seq<u8>) -> u64 {
    ((b[0] as u64) << 56u64) | ((b[1] as u64) << 48u64) | ((b[2] as u64) << 40u64) | ((
    b[3] as u64) << 32u64) | ((b[4] as u64) << 24u64) | ((b[5] as u64) << 16u64) | ((
    b[6] as u64) << 8u64) | (b[7] as u64)
}

/// The wire form of a packet: magic byte, the 16 id bytes, the sequence
/// number (big endian), the type code, the watermark (big endian), then the
/// payload.
pub open spec fn encode_packet(
    id: Seq<u8>,
    seq_no: u32,
    t: MessageType,
    watermark: u64,
    payload: Seq<u8>,
) -> Seq<u8> {
    seq![MAGIC_BYTE] + id + be32(seq_no) + seq![type_code(t)] + be64(watermark) + payload
}

/// Why a byte string is not a packet, if it is not one.
pub open spec fn decode_error(d: Seq<u8>) -> Option<Seq<char>> {
    if d.len() < 30 {
        Some("packet too short"@)
    } else if d[0] != MAGIC_BYTE {
        Some("invalid magic byte"@)
    } else if type_of_code(d[21]) is None {
        Some(unknown_type_text(d[21]))
    } else {
        None
    }
}

/// Reading back the big-endian bytes of a `u32` gives the `u32`.
pub proof fn lemma_be32(x: u32)
    ensures
        from_be32(be32(x)) == x,
{
    let b = be32(x);
    assert(((((x >> 24u32) as u8) as u32) << 24u32) | ((((x >> 16u32) as u8) as u32) << 16u32)
        | ((((x >> 8u32) as u8) as u32) << 8u32) | ((x as u8) as u32) == x) by (bit_vector);
}

/// Reading back the big-endian bytes of a `u64` gives the `u64`.
pub proof fn lemma_be64(x: u64)
    ensures
        from_be64(be64(x)) == x,
{
    assert(((((x >> 56u64) as u8) as u64) << 56u64) | ((((x >> 48u64) as u8) as u64) << 48u64)
        | ((((x >> 40u64) as u8) as u64) << 40u64) | ((((x >> 32u64) as u8) as u64) << 32u64)
        | ((((x >> 24u64) as u8) as u64) << 24u64) | ((((x >> 16u64) as u8) as u64) << 16u64)
        | ((((x >> 8u64) as u8) as u64) << 8u64) | ((x as u8) as u64) == x) by (bit_vector);
}

/// Writing out the `u32` read from four bytes gives the bytes back.
pub proof fn lemma_from_be32(b: Seq<u8>)
    requires
        b.len() == 4,
    ensures
        be32(from_be32(b)) == b,
{
    let (b0, b1, b2, b3) = (b[0], b[1], b[2], b[3]);
    let x = from_be32(b);
    assert(((x >> 24u32) as u8) == b0 && ((x >> 16u32) as u8) == b1 && ((x >> 8u32) as u8) == b2
        && (x as u8) == b3) by (bit_vector)
        requires
            x == ((b0 as u32) << 24u32) | ((b1 as u32) << 16u32) | ((b2 as u32) << 8u32) | (
            b3 as u32),
    ;
    assert(be32(x) =~= b);
}

/// Writing out the `u64` read from eight bytes gives the bytes back.
pub proof fn lemma_from_be64(b: Seq<u8>)
    requires
        b.len() == 8,
    ensures
        be64(from_be64(b)) == b,
{
    let (b0, b1, b2, b3, b4, b5, b6, b7) = (b[0], b[1], b[2], b[3], b[4], b[5], b[6], b[7]);
    let x = from_be64(b);
    assert(((x >> 56u64) as u8) == b0 && ((x >> 48u64) as u8) == b1 && ((x >> 40u64) as u8) == b2
        && ((x >> 32u64) as u8) == b3 && ((x >> 24u64) as u8) == b4 && ((x >> 16u64) as u8) == b5
        && ((x >> 8u64) as u8) == b6 && (x as u8) == b7) by (bit_vector)
        requires
            x == ((b0 as u64) << 56u64) | ((b1 as u64) << 48u64) | ((b2 as u64) << 40u64) | ((
            b3 as u64) << 32u64) | ((b4 as u64) << 24u64) | ((b5 as u64) << 16u64) | ((
            b6 as u64) << 8u64) | (b7 as u64),
    ;
    assert(be64(x) =~= b);
}

fn push_be32(buf: &mut Vec<u8>, x: u32)
    ensures
        final(buf)@ == old(buf)@ + be32(x),
{
    buf.push((x >> 24) as u8);
    buf.push((x >> 16) as u8);
    buf.push((x >> 8) as u8);
    buf.push(x as u8);
    assert(final(buf)@ =~= old(buf)@ + be32(x));
}

fn push_be64(buf: &mut Vec<u8>, x: u64)
    ensures
        final(buf)@ == old(buf)@ + be64(x),
{
    buf.push((x >> 56) as u8);
    buf.push((x >> 48) as u8);
    buf.push((x >> 40) as u8);
    buf.push((x >> 32) as u8);
    buf.push((x >> 24) as u8);
    buf.push((x >> 16) as u8);
    buf.push((x >> 8) as u8);
    buf.push(x as u8);
    assert(final(buf)@ =~= old(buf)@ + be64(x));
}

fn push_all(buf: &mut Vec<u8>, s: &[u8])
    ensures
        final(buf)@ == old(buf)@ + s@,
{
    let mut i: usize = 0;
    while i < s.len()
        invariant
            i <= s@.len(),
            buf@ == old(buf)@ + s@.subrange(0, i as int),
        decreases s@.len() - i,
    {
        buf.push(s[i]);
        i += 1;
        proof {
            assert(buf@ =~= old(buf)@ + s@.subrange(0, i as int));
        }
    }
    proof {
        assert(s@.subrange(0, s@.len() as int) =~= s@);
    }
}

impl SwarmPacket {
    /// Serialize the packet to its wire form.
    pub fn serialize(&self) -> (r: Vec<u8>)
        ensures
            r@ == encode_packet(
                self.source_node_id@,
                self.sequence_number,
                self.message_type,
                self.causal_watermark,
                self.payload@,
            ),
    {
        let mut buf: Vec<u8> = Vec::new();
        buf.push(MAGIC_BYTE);
        push_all(&mut buf, &self.source_node_id);
        push_be32(&mut buf, self.sequence_number);
        buf.push(self.message_type.code());
        push_be64(&mut buf, self.causal_watermark);
        push_all(&mut buf, self.payload.as_slice());
        proof {
            assert(buf@ =~= encode_packet(
                self.source_node_id@,
                self.sequence_number,
                self.message_type,
                self.causal_watermark,
                self.payload@,
            ));
        }
        buf
    }

    /// Deserialize a packet from its wire form.  Fails with "packet too
    /// short" under 30 bytes, "invalid magic byte" when the first byte is
    /// not 0x03, and with the unknown-type error for a bad type code.
    pub fn deserialize(data: &[u8]) -> (r: Result<SwarmPacket, String>)
        ensures
            match r {
                Ok(p) => {
                    &&& decode_error(data@) is None
                    &&& p.source_node_id@ == data@.subrange(1, 17)
                    &&& p.sequence_number == from_be32(data@.subrange(17, 21))
                    &&& type_of_code(data@[21]) == Some(p.message_type)
                    &&& p.causal_watermark == from_be64(data@.subrange(22, 30))
                    &&& p.payload@ == data@.subrange(30, data@.len() as int)
                },
                Err(e) => decode_error(data@) == Some(e@),
            },
    {
        if data.len() < HEADER_LEN {
            return Err(String::from_str("packet too short"));
        }
        if data[0] != MAGIC_BYTE {
            return Err(String::from_str("invalid magic byte"));
        }
        let mut node_bytes: [u8; 16] = [0u8; 16];
        let mut i: usize = 0;
        while i < 16
            invariant
                data@.len() >= 30,
                i <= 16,
                node_bytes@.len() == 16,
                forall|j: int| 0 <= j < i ==> node_bytes@[j] == data@[j + 1],
            decreases 16 - i,
        {
            node_bytes.set(i, data[i + 1]);
            i += 1;
        }
        proof {
            assert(node_bytes@ =~= data@.subrange(1, 17));
        }
        let sequence_number: u32 = ((data[17] as u32) << 24) | ((data[18] as u32) << 16) | ((
        data[19] as u32) << 8) | (data[20] as u32);
        let message_type = match MessageType::try_from(data[21]) {
            Ok(t) => t,
            Err(e) => return Err(e),
        };
        let causal_watermark: u64 = ((data[22] as u64) << 56) | ((data[23] as u64) << 48) | ((
        data[24] as u64) << 40) | ((data[25] as u64) << 32) | ((data[26] as u64) << 24) | ((
        data[27] as u64) << 16) | ((data[28] as u64) << 8) | (data[29] as u64);
        let mut payload: Vec<u8> = Vec::new();
        let mut k: usize = HEADER_LEN;
        while k < data.len()
            invariant
                30 <= k <= data@.len(),
                payload@ == data@.subrange(30, k as int),
            decreases data@.len() - k,
        {
            payload.push(data[k]);
            k += 1;
            proof {
                assert(payload@ =~= data@.subrange(30, k as int));
            }
        }
        proof {
            assert(data@.subrange(17, 21)[0] == data@[17]);
            assert(data@.subrange(17, 21)[3] == data@[20]);
            assert(data@.subrange(22, 30)[0] == data@[22]);
            assert(data@.subrange(22, 30)[7] == data@[29]);
        }
        Ok(SwarmPacket {
            source_node_id: node_bytes,
            sequence_number,
            message_type,
            causal_watermark,
            payload,
        })
    }
}

/// Decoding the wire form of a packet gives the packet back.
pub proof fn lemma_decode_encode(id: Seq<u8>, seq_no: u32, t: MessageType, watermark: u64, payload: Seq<u8>)
    requires
        id.len() == 16,
    ensures
        ({
            let d = encode_packet(id, seq_no, t, watermark, payload);
            &&& decode_error(d) is None
            &&& d.subrange(1, 17) == id
            &&& from_be32(d.subrange(17, 21)) == seq_no
            &&& type_of_code(d[21]) == Some(t)
            &&& from_be64(d.subrange(22, 30)) == watermark
            &&& d.subrange(30, d.len() as int) == payload
        }),
{
    let d = encode_packet(id, seq_no, t, watermark, payload);
    assert(d.subrange(1, 17) =~= id);
    assert(d.subrange(17, 21) =~= be32(seq_no));
    assert(d.subrange(22, 30) =~= be64(watermark));
    assert(d.subrange(30, d.len() as int) =~= payload);
    lemma_be32(seq_no);
    lemma_be64(watermark);
}

/// A byte string that decodes as a packet is exactly that packet's wire
/// form: the format has one encoding per packet.
pub proof fn lemma_encode_decode(d: Seq<u8>)
    requires
        decode_error(d) is None,
    ensures
        encode_packet(
            d.subrange(1, 17),
            from_be32(d.subrange(17, 21)),
            type_of_code(d[21]).unwrap(),
            from_be64(d.subrange(22, 30)),
            d.subrange(30, d.len() as int),
        ) == d,
{
    lemma_from_be32(d.subrange(17, 21));
    lemma_from_be64(d.subrange(22, 30));
    let t = type_of_code(d[21]).unwrap();
    assert(type_code(t) == d[21]);
    assert(encode_packet(
        d.subrange(1, 17),
        from_be32(d.subrange(17, 21)),
        t,
        from_be64(d.subrange(22, 30)),
        d.subrange(30, d.len() as int),
    ) =~= d);
}

/// Lexicographic order on node ids: `a` comes after `b`.
pub open spec fn id_after(a: Seq<u8>, b: Seq<u8>) -> bool {
    exists|i: int|
        0 <= i < a.len() && i < b.len() && a[i] > b[i] && (forall|j: int|
            0 <= j < i ==> #[trigger] a[j] == b[j])
}

/// Whether `a` compares greater than `b`, byte by byte from the first.
pub fn id_greater(a: &NodeId, b: &NodeId) -> (r: bool)
    ensures
        r == id_after(a@, b@),
{
    let mut i: usize = 0;
    while i < 16
        invariant
            i <= 16,
            a@.len() == 16,
            b@.len() == 16,
            forall|j: int| 0 <= j < i ==> a@[j] == b@[j],
        decreases 16 - i,
    {
        if a[i] != b[i] {
            let r = a[i] > b[i];
            proof {
                if !r {
                    assert forall|k: int|
                        0 <= k < a@.len() && k < b@.len() && a@[k] > b@[k] implies !(forall|j: int|
                        0 <= j < k ==> #[trigger] a@[j] == b@[j]) by {
                        if k > i {
                            assert(a@[i as int] != b@[i as int]);
                        }
                    }
                }
            }
            return r;
        }
        i += 1;
    }
    proof {
        assert forall|k: int| 0 <= k < a@.len() && k < b@.len() implies !(a@[k] > b@[k]) by {
        }
    }
    false
}

/// Last-write-wins register element.
#[derive(Debug, Clone)]
pub struct LwwElement<T: Clone> {
    pub value: T,
    pub timestamp: u64,
    pub source_node_id: NodeId,
}

/// Whether a write stamped `(t2, n2)` wins over one stamped `(t1, n1)`:
/// a later timestamp wins, and on equal timestamps the greater node id.
pub open spec fn wins(t2: u64, n2: Seq<u8>, t1: u64, n1: Seq<u8>) -> bool {
    t2 > t1 || (t2 == t1 && id_after(n2, n1))
}

impl<T: Clone> LwwElement<T> {
    /// Merge another element in: if its write wins, its value, timestamp
    /// and node id replace ours; otherwise nothing changes.
    pub fn merge(&mut self, other: &Self)
        ensures
            if wins(other.timestamp, other.source_node_id@, old(self).timestamp, old(self).source_node_id@) {
                &&& cloned(other.value, final(self).value)
                &&& final(self).timestamp == other.timestamp
                &&& final(self).source_node_id == other.source_node_id
            } else {
                *final(self) == *old(self)
            },
    {
        if other.timestamp > self.timestamp || (other.timestamp == self.timestamp && id_greater(
            &other.source_node_id,
            &self.source_node_id,
        )) {
            self.value = other.value.clone();
            self.timestamp = other.timestamp;
            self.source_node_id = other.source_node_id;
        }
    }
}

/// The later of two writes never loses to the earlier: among two
/// distinct stamps exactly one wins, so merging in either order keeps the
/// same stamp.
pub proof fn lemma_wins_total(t1: u64, n1: NodeId, t2: u64, n2: NodeId)
    requires
        t1 != t2 || n1@ != n2@,
    ensures
        wins(t2, n2@, t1, n1@) != wins(t1, n1@, t2, n2@),
{
    if t1 == t2 {
        lemma_id_after_total(n1@, n2@);
    }
}

/// Two distinct ids of equal length are ordered one way exactly.
pub proof fn lemma_id_after_total(a: Seq<u8>, b: Seq<u8>)
    requires
        a.len() == b.len(),
        a != b,
    ensures
        id_after(a, b) != id_after(b, a),
{
    assert(exists|i: int| 0 <= i < a.len() && a[i] != b[i]) by {
        if forall|i: int| 0 <= i < a.len() ==> a[i] == b[i] {
            assert(a =~= b);
        }
    }
    let i = choose|i: int| 0 <= i < a.len() && a[i] != b[i] && forall|j: int| 0 <= j < i ==> #[trigger] a[j] == b[j];
    assert(exists|i: int| 0 <= i < a.len() && a[i] != b[i] && forall|j: int| 0 <= j < i ==> #[trigger] a[j] == b[j]) by {
        lemma_first_difference(a, b, 0);
    }
    if id_after(a, b) && id_after(b, a) {
        let k1 = choose|k: int| 0 <= k < a.len() && k < b.len() && a[k] > b[k] && (forall|j: int| 0 <= j < k ==> #[trigger] a[j] == b[j]);
        let k2 = choose|k: int| 0 <= k < b.len() && k < a.len() && b[k] > a[k] && (forall|j: int| 0 <= j < k ==> #[trigger] b[j] == a[j]);
        if k1 < k2 {
            assert(b[k1] == a[k1]);
        } else if k2 < k1 {
            assert(a[k2] == b[k2]);
        }
    }
    if !id_after(a, b) && !id_after(b, a) {
        if a[i] > b[i] {
            assert(id_after(a, b));
        } else {
            assert(forall|j: int| 0 <= j < i ==> #[trigger] b[j] == a[j]);
            assert(id_after(b, a));
        }
    }
}

/// Where two equal-length sequences differ at or after `from`, there is a
/// first such position.
pub proof fn lemma_first_difference(a: Seq<u8>, b: Seq<u8>, from: int)
    requires
        a.len() == b.len(),
        0 <= from <= a.len(),
        forall|j: int| 0 <= j < from ==> #[trigger] a[j] == b[j],
        exists|i: int| from <= i < a.len() && a[i] != b[i],
    ensures
        exists|i: int| 0 <= i < a.len() && a[i] != b[i] && forall|j: int| 0 <= j < i ==> #[trigger] a[j] == b[j],
    decreases a.len() - from,
{
    if a[from] != b[from] {
        assert(0 <= from < a.len() && a[from] != b[from] && forall|j: int| 0 <= j < from ==> #[trigger] a[j] == b[j]);
    } else {
        lemma_first_difference(a, b, from + 1);
    }
}

/// Raft roles.
#[derive(Debug, Clone, Copy, PartialEq, Eq, Structural)]
pub enum RaftRole {
    Follower,
    Candidate,
    Leader,
}

/// One entry of the replicated log.
#[derive(Debug, Clone)]
pub struct RaftLogEntry {
    pub index: u64,
    pub term: u64,
    pub command: String,
    pub payload: Vec<u8>,
}

/// Simplified Raft node state: role, term, vote and log.
pub struct RaftLite {
    pub local_id: NodeId,
    role: RaftRole,
    current_term: u64,
    voted_for: Option<NodeId>,
    log: Vec<RaftLogEntry>,
    commit_index: u64,
}

impl RaftLite {
    pub closed spec fn node_id(&self) -> NodeId {
        self.local_id
    }

    pub closed spec fn role(&self) -> RaftRole {
        self.role
    }

    pub closed spec fn current_term(&self) -> u64 {
        self.current_term
    }

    pub closed spec fn voted_for(&self) -> Option<NodeId> {
        self.voted_for
    }

    pub closed spec fn entries(&self) -> Seq<RaftLogEntry> {
        self.log@
    }

    pub closed spec fn commit_index(&self) -> u64 {
        self.commit_index
    }

    /// Well-formedness: entry `i` of the log has index `i + 1`, and no
    /// entry carries a term later than the current one.
    pub closed spec fn wf(&self) -> bool {
        &&& forall|i: int| 0 <= i < self.log@.len() ==> (#[trigger] self.log@[i]).index == i + 1
        &&& forall|i: int| 0 <= i < self.log@.len() ==> (#[trigger] self.log@[i]).term <= self.current_term
    }

    /// A follower in term 0 with no vote and an empty log.
    pub fn new(local_id: NodeId) -> (r: Self)
        ensures
            r.wf(),
            r.node_id() == local_id,
            r.role() == RaftRole::Follower,
            r.current_term() == 0,
            r.voted_for() is None,
            r.entries().len() == 0,
            r.commit_index() == 0,
    {
        RaftLite {
            local_id,
            role: RaftRole::Follower,
            current_term: 0,
            voted_for: None,
            log: Vec::new(),
            commit_index: 0,
        }
    }

    /// Current role.
    pub fn state(&self) -> (r: RaftRole)
        ensures
            r == self.role(),
    {
        self.role
    }

    /// Current term.
    pub fn term(&self) -> (r: u64)
        ensures
            r == self.current_term(),
    {
        self.current_term
    }

    /// Start an election: become candidate in the next term, voting for
    /// ourselves.
    pub fn start_election(&mut self)
        requires
            old(self).wf(),
            old(self).current_term() < u64::MAX,
        ensures
            final(self).wf(),
            final(self).node_id() == old(self).node_id(),
            final(self).role() == RaftRole::Candidate,
            final(self).current_term() == old(self).current_term() + 1,
            final(self).voted_for() == Some(old(self).node_id()),
            final(self).entries() == old(self).entries(),
            final(self).commit_index() == old(self).commit_index(),
    {
        self.role = RaftRole::Candidate;
        self.current_term = self.current_term + 1;
        self.voted_for = Some(self.local_id);
    }

    /// Promote to leader.
    pub fn promote(&mut self)
        requires
            old(self).wf(),
        ensures
            final(self).wf(),
            final(self).node_id() == old(self).node_id(),
            final(self).role() == RaftRole::Leader,
            final(self).current_term() == old(self).current_term(),
            final(self).voted_for() == old(self).voted_for(),
            final(self).entries() == old(self).entries(),
            final(self).commit_index() == old(self).commit_index(),
    {
        self.role = RaftRole::Leader;
    }

    /// Append an entry in the current term; returns its index, which is
    /// the new length of the log.
    pub fn append(&mut self, command: String, payload: Vec<u8>) -> (index: u64)
        requires
            old(self).wf(),
            old(self).entries().len() < u64::MAX,
        ensures
            final(self).wf(),
            index == old(self).entries().len() + 1,
            final(self).entries() == old(self).entries().push(
                RaftLogEntry { index, term: old(self).current_term(), command, payload },
            ),
            final(self).node_id() == old(self).node_id(),
            final(self).role() == old(self).role(),
            final(self).current_term() == old(self).current_term(),
            final(self).voted_for() == old(self).voted_for(),
            final(self).commit_index() == old(self).commit_index(),
    {
        let index = self.log.len() as u64 + 1;
        self.log.push(RaftLogEntry { index, term: self.current_term, command, payload });
        index
    }
}

/// Shard definition.
#[derive(Debug, Clone)]
pub struct Shard {
    pub id: u32,
    pub tenant_id: String,
}

/// Number of shards data is partitioned into.
pub const SHARD_COUNT: u64 = 256;

/// The shard for a tenant and context hash: the hash modulo 256.
pub fn calculate_shard(tenant_id: &str, context_hash: u64) -> (r: Shard)
    ensures
        r.id == context_hash % SHARD_COUNT,
        r.tenant_id@ == tenant_id@,
{
    Shard { id: (context_hash % SHARD_COUNT) as u32, tenant_id: String::from_str(tenant_id) }
}

/// Number of neighbors a gossip message is sent to.
pub const GOSSIP_FANOUT: usize = 3;

/// The peers a broadcast goes to: the first three peers, or all of them
/// when there are no more than three.
pub fn gossip_targets<T: Copy>(peers: &[T]) -> (r: Vec<T>)
    ensures
        r@ == if peers@.len() <= GOSSIP_FANOUT {
            peers@
        } else {
            peers@.subrange(0, GOSSIP_FANOUT as int)
        },
{
    let n = if peers.len() <= GOSSIP_FANOUT {
        peers.len()
    } else {
        GOSSIP_FANOUT
    };
    let mut r: Vec<T> = Vec::new();
    let mut i: usize = 0;
    while i < n
        invariant
            n <= peers@.len(),
            i <= n,
            r@ == peers@.subrange(0, i as int),
        decreases n - i,
    {
        r.push(peers[i]);
        i += 1;
        proof {
            assert(r@ =~= peers@.subrange(0, i as int));
        }
    }
    proof {
        assert(peers@.subrange(0, peers@.len() as int) =~= peers@);
    }
    r
}

} // verus!
