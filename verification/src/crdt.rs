//! A last-write-wins map of pheromone levels shared between swarm nodes.
//!
//! Each edge `(from, to)` holds the latest write to it, stamped with its
//! timestamp and the writing node's id; a later timestamp wins, and on
//! equal timestamps the greater node id.  Merging two replicas keeps, for
//! each edge, the winning write, so replicas that have seen the same
//! writes agree whatever order they merged in.
//!
//! Levels are `f64` values, carried as their bit patterns.
use vstd::prelude::*;
use crate::assoc::{keys_unique, to_map, lemma_dom, lemma_index, lemma_push, lemma_update};
use crate::swarm::{LwwElement, NodeId, wins, id_after, lemma_id_after_total};

verus! {

/// An edge of the pheromone graph.
pub type EdgeKey = (u64, u64);

/// The write that survives between `a` and `b`: `b` when it wins, else `a`.
pub open spec fn join(a: LwwElement<u64>, b: LwwElement<u64>) -> LwwElement<u64> {
    if wins(b.timestamp, b.source_node_id@, a.timestamp, a.source_node_id@) {
        b
    } else {
        a
    }
}

/// Two replicas merged: every edge of either, with the surviving write
/// where both hold one.
pub open spec fn merged(
    a: Map<EdgeKey, LwwElement<u64>>,
    b: Map<EdgeKey, LwwElement<u64>>,
) -> Map<EdgeKey, LwwElement<u64>> {
    Map::new(
        |k: EdgeKey| a.dom().contains(k) || b.dom().contains(k),
        |k: EdgeKey|
            if a.dom().contains(k) && b.dom().contains(k) {
                join(a[k], b[k])
            } else if b.dom().contains(k) {
                b[k]
            } else {
                a[k]
            },
    )
}

/// Two writes carry the same stamp.
pub open spec fn same_stamp(a: LwwElement<u64>, b: LwwElement<u64>) -> bool {
    a.timestamp == b.timestamp && a.source_node_id@ == b.source_node_id@
}

/// Writes with the same stamp are the same write.
pub open spec fn stamps_consistent(
    a: Map<EdgeKey, LwwElement<u64>>,
    b: Map<EdgeKey, LwwElement<u64>>,
) -> bool {
    forall|k: EdgeKey|
        #![trigger a[k], b[k]]
        a.dom().contains(k) && b.dom().contains(k) && same_stamp(a[k], b[k]) ==> a[k] == b[k]
}

/// A replicated map of pheromone levels.
pub struct CrdtPheromones {
    entries: Vec<(EdgeKey, LwwElement<u64>)>,
}

fn copy_element(e: &LwwElement<u64>) -> (r: LwwElement<u64>)
    ensures
        r == *e,
{
    LwwElement { value: e.value, timestamp: e.timestamp, source_node_id: e.source_node_id }
}

impl CrdtPheromones {
    /// The latest write to each edge.
    pub closed spec fn map(&self) -> Map<EdgeKey, LwwElement<u64>> {
        to_map(self.entries@)
    }

    pub closed spec fn wf(&self) -> bool {
        keys_unique(self.entries@)
    }

    /// A replica with no writes.
    pub fn new() -> (r: Self)
        ensures
            r.wf(),
            r.map() == Map::<EdgeKey, LwwElement<u64>>::empty(),
    {
        let r = CrdtPheromones { entries: Vec::new() };
        assert(r.entries@ =~= Seq::<(EdgeKey, LwwElement<u64>)>::empty());
        r
    }

    fn find(&self, key: EdgeKey) -> (r: Option<usize>)
        requires
            self.wf(),
        ensures
            match r {
                Some(i) => i < self.entries@.len() && self.entries@[i as int].0 == key
                    && self.map().dom().contains(key) && self.map()[key]
                    == self.entries@[i as int].1,
                None => !self.map().dom().contains(key),
            },
    {
        let mut i: usize = 0;
        while i < self.entries.len()
            invariant
                i <= self.entries@.len(),
                keys_unique(self.entries@),
                forall|j: int| 0 <= j < i ==> self.entries@[j].0 != key,
            decreases self.entries@.len() - i,
        {
            let k = self.entries[i].0;
            if k.0 == key.0 && k.1 == key.1 {
                proof {
                    lemma_index(self.entries@, i as int);
                }
                return Some(i);
            }
            i += 1;
        }
        proof {
            lemma_dom(self.entries@, key);
        }
        None
    }

    /// The level last written to edge `(from, to)`, as `f64` bits.
    pub fn get(&self, from: u64, to: u64) -> (r: Option<u64>)
        requires
            self.wf(),
        ensures
            r == (if self.map().dom().contains((from, to)) {
                Some(self.map()[(from, to)].value)
            } else {
                None::<u64>
            }),
    {
        match self.find((from, to)) {
            Some(i) => Some(self.entries[i].1.value),
            None => None,
        }
    }

    /// The number of edges written.
    pub fn len(&self) -> (r: usize)
        requires
            self.wf(),
        ensures
            r == self.map().dom().len(),
    {
        proof {
            crate::assoc::lemma_len(self.entries@);
        }
        self.entries.len()
    }

    /// Fold the element `e` into the entry for `key`.
    fn absorb(&mut self, key: EdgeKey, e: &LwwElement<u64>)
        requires
            old(self).wf(),
        ensures
            final(self).wf(),
            final(self).map() == old(self).map().insert(
                key,
                if old(self).map().dom().contains(key) {
                    join(old(self).map()[key], *e)
                } else {
                    *e
                },
            ),
    {
        let ghost s = self.entries@;
        match self.find(key) {
            Some(i) => {
                let mut cur = copy_element(&self.entries[i].1);
                cur.merge(e);
                proof {
                    lemma_update(s, i as int, cur);
                }
                self.entries.set(i, (key, cur));
            },
            None => {
                let c = copy_element(e);
                proof {
                    lemma_push(s, key, c);
                }
                self.entries.push((key, c));
            },
        }
    }

    /// Record a write of `value_bits` to edge `(from, to)` stamped with
    /// `timestamp` and `node_id`; it takes effect only if it wins over the
    /// edge's current write.
    pub fn update(&mut self, from: u64, to: u64, value_bits: u64, timestamp: u64, node_id: NodeId)
        requires
            old(self).wf(),
        ensures
            final(self).wf(),
            ({
                let e = LwwElement { value: value_bits, timestamp, source_node_id: node_id };
                final(self).map() == old(self).map().insert(
                    (from, to),
                    if old(self).map().dom().contains((from, to)) {
                        join(old(self).map()[(from, to)], e)
                    } else {
                        e
                    },
                )
            }),
    {
        let e = LwwElement { value: value_bits, timestamp, source_node_id: node_id };
        self.absorb((from, to), &e);
    }

    /// Merge another replica into this one.
    pub fn merge(&mut self, other: &CrdtPheromones)
        requires
            old(self).wf(),
            other.wf(),
        ensures
            final(self).wf(),
            final(self).map() == merged(old(self).map(), other.map()),
    {
        let ghost a = self.map();
        let ghost os = other.entries@;
        let mut i: usize = 0;
        while i < other.entries.len()
            invariant
                i <= os.len(),
                os == other.entries@,
                keys_unique(os),
                self.wf(),
                self.map() == merged(a, to_map(os.take(i as int))),
            decreases os.len() - i,
        {
            let key = other.entries[i].0;
            let ghost b = to_map(os.take(i as int));
            let ghost c = self.map();
            proof {
                assert(os.take(i as int + 1).drop_last() =~= os.take(i as int));
                assert(os.take(i as int).len() == i);
                assert(keys_unique(os.take(i as int)));
                lemma_dom(os.take(i as int), key);
                if crate::assoc::has_key(os.take(i as int), key) {
                    let j = choose|j: int| 0 <= j < os.take(i as int).len() && os.take(i as int)[j].0 == key;
                    assert(os[j].0 == os[i as int].0);
                }
            }
            self.absorb(key, &other.entries[i].1);
            proof {
                let v = os[i as int].1;
                assert(to_map(os.take(i as int + 1)) == b.insert(key, v));
                assert(self.map() =~= merged(a, b.insert(key, v)));
            }
            i += 1;
        }
        proof {
            assert(os.take(os.len() as int) =~= os);
        }
    }
}

/// Lexicographic order on node ids is transitive.
pub proof fn lemma_id_after_transitive(a: Seq<u8>, b: Seq<u8>, c: Seq<u8>)
    requires
        a.len() == b.len(),
        b.len() == c.len(),
        id_after(a, b),
        id_after(b, c),
    ensures
        id_after(a, c),
{
    let i = choose|i: int|
        0 <= i < a.len() && i < b.len() && a[i] > b[i] && (forall|j: int|
            0 <= j < i ==> #[trigger] a[j] == b[j]);
    let k = choose|k: int|
        0 <= k < b.len() && k < c.len() && b[k] > c[k] && (forall|j: int|
            0 <= j < k ==> #[trigger] b[j] == c[j]);
    if i <= k {
        if i < k {
            assert(b[i] == c[i]);
        }
        assert(forall|j: int| 0 <= j < i ==> #[trigger] a[j] == c[j]) by {
            assert forall|j: int| 0 <= j < i implies #[trigger] a[j] == c[j] by {
                assert(a[j] == b[j]);
                assert(b[j] == c[j]);
            }
        }
    } else {
        assert(a[k] == b[k]);
        assert(forall|j: int| 0 <= j < k ==> #[trigger] a[j] == c[j]) by {
            assert forall|j: int| 0 <= j < k implies #[trigger] a[j] == c[j] by {
                assert(a[j] == b[j]);
                assert(b[j] == c[j]);
            }
        }
    }
}

/// No id comes after itself.
pub proof fn lemma_id_after_irreflexive(a: Seq<u8>)
    ensures
        !id_after(a, a),
{
}

/// Facts on stamps: winning is irreflexive, asymmetric and transitive,
/// and two stamps neither of which wins are the same stamp.
pub proof fn lemma_stamp_order(x: LwwElement<u64>, y: LwwElement<u64>, z: LwwElement<u64>)
    ensures
        !wins(x.timestamp, x.source_node_id@, x.timestamp, x.source_node_id@),
        wins(x.timestamp, x.source_node_id@, y.timestamp, y.source_node_id@) ==> !wins(
            y.timestamp,
            y.source_node_id@,
            x.timestamp,
            x.source_node_id@,
        ),
        !wins(x.timestamp, x.source_node_id@, y.timestamp, y.source_node_id@) && !wins(
            y.timestamp,
            y.source_node_id@,
            x.timestamp,
            x.source_node_id@,
        ) ==> same_stamp(x, y),
        wins(x.timestamp, x.source_node_id@, y.timestamp, y.source_node_id@) && wins(
            y.timestamp,
            y.source_node_id@,
            z.timestamp,
            z.source_node_id@,
        ) ==> wins(x.timestamp, x.source_node_id@, z.timestamp, z.source_node_id@),
{
    let xn = x.source_node_id@;
    let yn = y.source_node_id@;
    let zn = z.source_node_id@;
    lemma_id_after_irreflexive(xn);
    if x.timestamp == y.timestamp && xn != yn {
        lemma_id_after_total(xn, yn);
    }
    if x.timestamp == y.timestamp && y.timestamp == z.timestamp && id_after(xn, yn) && id_after(yn, zn) {
        lemma_id_after_transitive(xn, yn, zn);
    }
}

/// Merging a replica with itself changes nothing.
pub proof fn lemma_merge_idempotent(a: Map<EdgeKey, LwwElement<u64>>)
    ensures
        merged(a, a) == a,
{
    assert forall|k: EdgeKey| a.dom().contains(k) implies merged(a, a)[k] == a[k] by {
        lemma_stamp_order(a[k], a[k], a[k]);
    }
    assert(merged(a, a) =~= a);
}

/// The order of a merge does not matter, as long as the replicas agree
/// on the writes they share.
pub proof fn lemma_merge_commutative(a: Map<EdgeKey, LwwElement<u64>>, b: Map<EdgeKey, LwwElement<u64>>)
    requires
        stamps_consistent(a, b),
    ensures
        merged(a, b) == merged(b, a),
{
    assert forall|k: EdgeKey| a.dom().contains(k) && b.dom().contains(k) implies merged(a, b)[k]
        == merged(b, a)[k] by {
        lemma_stamp_order(a[k], b[k], a[k]);
    }
    assert(merged(a, b) =~= merged(b, a));
}

/// The surviving write of three does not depend on how they are grouped.
pub proof fn lemma_join_associative(a: LwwElement<u64>, b: LwwElement<u64>, c: LwwElement<u64>)
    ensures
        join(join(a, b), c) == join(a, join(b, c)),
{
    lemma_stamp_order(a, b, c);
    lemma_stamp_order(b, c, a);
    lemma_stamp_order(c, a, b);
    lemma_stamp_order(c, b, a);
    lemma_stamp_order(b, a, c);
    lemma_stamp_order(a, c, b);
}

/// Merges can be grouped either way.
pub proof fn lemma_merge_associative(
    a: Map<EdgeKey, LwwElement<u64>>,
    b: Map<EdgeKey, LwwElement<u64>>,
    c: Map<EdgeKey, LwwElement<u64>>,
)
    ensures
        merged(merged(a, b), c) == merged(a, merged(b, c)),
{
    assert forall|k: EdgeKey| #[trigger] merged(merged(a, b), c).dom().contains(k) implies merged(
        merged(a, b),
        c,
    )[k] == merged(a, merged(b, c))[k] by {
        if a.dom().contains(k) && b.dom().contains(k) && c.dom().contains(k) {
            lemma_join_associative(a[k], b[k], c[k]);
        }
    }
    assert(merged(merged(a, b), c) =~= merged(a, merged(b, c)));
}

} // verus!
