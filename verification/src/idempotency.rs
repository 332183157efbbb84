//! Deduplication of repeated requests.
//!
//! The cache maps a request hash to the time it was stored and the
//! response.  A lookup within the time-to-live hands the stored response
//! back and marks the key most recently used; an expired entry is dropped.
//! A full cache drops entries from the front of its use order before it
//! stores a new one.
//!
//! The use order may name a key more than once (storing a key again
//! appends it again); every stored key occurs in it.
use vstd::prelude::*;
use crate::assoc::{find_key, keys_unique, to_map, lemma_len, lemma_push, lemma_update, lemma_remove};
use crate::clock::{instant_now, nanos_since, duration_as_nanos, saturated_nanos};

verus! {

/// An entry stored at `stored_at` is still live at `now`.
pub open spec fn live_at(stored_at: u64, ttl: u64, now: u64) -> bool {
    if now >= stored_at {
        now - stored_at < ttl
    } else {
        0 < ttl
    }
}

/// `order` with every occurrence of `key` removed.
pub open spec fn without(order: Seq<u64>, key: u64) -> Seq<u64> {
    order.filter(other_than(key))
}

/// The keys other than `key`.
pub open spec fn other_than(key: u64) -> spec_fn(u64) -> bool {
    |k: u64| k != key
}

/// What a lookup of `key` at `now` does to the entries `m` and the use
/// order: the entries, the order, and whether the lookup hits.
pub open spec fn lookup_step<V>(
    m: Map<u64, (u64, V)>,
    order: Seq<u64>,
    ttl: u64,
    key: u64,
    now: u64,
) -> (Map<u64, (u64, V)>, Seq<u64>, bool) {
    if m.dom().contains(key) {
        if live_at(m[key].0, ttl, now) {
            (m, without(order, key).push(key), true)
        } else {
            (m.remove(key), without(order, key), false)
        }
    } else {
        (m, order, false)
    }
}

/// Drop entries from the front of the use order until fewer than
/// `capacity` remain or the order runs out.
pub open spec fn drain<V>(m: Map<u64, (u64, V)>, order: Seq<u64>, capacity: usize) -> (Map<
    u64,
    (u64, V),
>, Seq<u64>)
    decreases order.len(),
{
    if order.len() == 0 {
        (m, order)
    } else {
        let m1 = m.remove(order[0]);
        if m1.dom().len() < capacity {
            (m1, order.drop_first())
        } else {
            drain(m1, order.drop_first(), capacity)
        }
    }
}

/// What storing `value` under `key` at `now` does: a full cache drains
/// first, then the entry is stored and the key appended to the order.
pub open spec fn insert_step<V>(
    m: Map<u64, (u64, V)>,
    order: Seq<u64>,
    capacity: usize,
    key: u64,
    value: V,
    now: u64,
) -> (Map<u64, (u64, V)>, Seq<u64>) {
    let d = if m.dom().len() >= capacity {
        drain(m, order, capacity)
    } else {
        (m, order)
    };
    (d.0.insert(key, (now, value)), d.1.push(key))
}

/// The entries of `m` still live at `now`.
pub open spec fn live_entries<V>(m: Map<u64, (u64, V)>, ttl: u64, now: u64) -> Map<u64, (u64, V)> {
    Map::new(|k: u64| m.dom().contains(k) && live_at(m[k].0, ttl, now), |k: u64| m[k])
}

/// The keys stored in `m` and live at `now`.
pub open spec fn live_key<V>(m: Map<u64, (u64, V)>, ttl: u64, now: u64) -> spec_fn(u64) -> bool {
    |k: u64| m.dom().contains(k) && live_at(m[k].0, ttl, now)
}

/// The use order without the keys that are not stored and live at `now`.
pub open spec fn live_order<V>(m: Map<u64, (u64, V)>, order: Seq<u64>, ttl: u64, now: u64) -> Seq<
    u64,
> {
    order.filter(live_key(m, ttl, now))
}

/// Every stored key occurs in the order.
pub open spec fn order_covers<V>(m: Map<u64, (u64, V)>, order: Seq<u64>) -> bool {
    forall|k: u64| #[trigger] m.dom().contains(k) ==> order.contains(k)
}

proof fn lemma_without_keeps(order: Seq<u64>, key: u64, k: u64)
    requires
        order.contains(k),
        k != key,
    ensures
        without(order, key).contains(k),
{
    let i = choose|i: int| 0 <= i < order.len() && order[i] == k;
    order.lemma_filter_contains(other_than(key), i);
}

proof fn lemma_drain_covers<V>(m: Map<u64, (u64, V)>, order: Seq<u64>, capacity: usize)
    requires
        order_covers(m, order),
    ensures
        order_covers(drain(m, order, capacity).0, drain(m, order, capacity).1),
        drain(m, order, capacity).0.dom().subset_of(m.dom()),
        forall|k: u64| #[trigger] drain(m, order, capacity).0.dom().contains(k) ==> drain(m, order, capacity).0[k] == m[k],
    decreases order.len(),
{
    if order.len() > 0 {
        let m1 = m.remove(order[0]);
        let rest = order.drop_first();
        assert forall|k: u64| #[trigger] m1.dom().contains(k) implies rest.contains(k) by {
            let i = choose|i: int| 0 <= i < order.len() && order[i] == k;
            assert(i != 0);
            assert(rest[i - 1] == k);
        }
        if m1.dom().len() >= capacity {
            lemma_drain_covers(m1, rest, capacity);
        }
    }
}

/// Draining leaves fewer than `capacity` entries, or none at all.
proof fn lemma_drain_size<V>(m: Map<u64, (u64, V)>, order: Seq<u64>, capacity: usize)
    requires
        m.dom().finite(),
        order_covers(m, order),
    ensures
        drain(m, order, capacity).0.dom().finite(),
        drain(m, order, capacity).0.dom().len() < capacity || drain(m, order, capacity).0.dom().len() == 0,
    decreases order.len(),
{
    if order.len() == 0 {
        assert(m.dom() =~= Set::<u64>::empty()) by {
            assert forall|k: u64| !m.dom().contains(k) by {
                if m.dom().contains(k) {
                    assert(order.contains(k));
                }
            }
        }
    } else {
        let m1 = m.remove(order[0]);
        let rest = order.drop_first();
        assert forall|k: u64| #[trigger] m1.dom().contains(k) implies rest.contains(k) by {
            let i = choose|i: int| 0 <= i < order.len() && order[i] == k;
            assert(i != 0);
            assert(rest[i - 1] == k);
        }
        if m1.dom().len() >= capacity {
            lemma_drain_size(m1, rest, capacity);
        }
    }
}

/// Remove every occurrence of `key` from `order`.
fn remove_from_order(order: &mut Vec<u64>, key: u64)
    ensures
        final(order)@ == without(old(order)@, key),
{
    let ghost all = order@;
    let mut kept: Vec<u64> = Vec::new();
    let mut i: usize = 0;
    while i < order.len()
        invariant
            order@ == all,
            i <= all.len(),
            kept@ == all.take(i as int).filter(other_than(key)),
        decreases all.len() - i,
    {
        let k = order[i];
        proof {
            assert(all.take(i as int + 1).drop_last() =~= all.take(i as int));
            reveal(Seq::filter);
        }
        if k != key {
            kept.push(k);
        }
        i += 1;
    }
    proof {
        assert(all.take(all.len() as int) =~= all);
    }
    *order = kept;
}

/// A time-limited cache of responses keyed by request hash.
pub struct IdempotencyCache<V> {
    entries: Vec<(u64, (u64, V))>,
    order: Vec<u64>,
    capacity: usize,
    ttl_nanos: u64,
    origin: std::time::Instant,
}

impl<V: Clone> IdempotencyCache<V> {
    /// Stored entries: time stored and response, by key.
    pub closed spec fn map(&self) -> Map<u64, (u64, V)> {
        to_map(self.entries@)
    }

    /// Keys from least to most recently used.
    pub closed spec fn order(&self) -> Seq<u64> {
        self.order@
    }

    pub closed spec fn capacity_of(&self) -> usize {
        self.capacity
    }

    pub closed spec fn ttl(&self) -> u64 {
        self.ttl_nanos
    }

    pub closed spec fn wf(&self) -> bool {
        &&& keys_unique(self.entries@)
        &&& order_covers(self.map(), self.order@)
    }

    /// An empty cache of the given capacity and time-to-live.
    pub fn new(capacity: usize, ttl: core::time::Duration) -> (r: Self)
        ensures
            r.wf(),
            r.map() == Map::<u64, (u64, V)>::empty(),
            r.order() == Seq::<u64>::empty(),
            r.capacity_of() == capacity,
            r.ttl() == saturated_nanos(ttl),
    {
        let r = IdempotencyCache {
            entries: Vec::new(),
            order: Vec::new(),
            capacity,
            ttl_nanos: duration_as_nanos(&ttl),
            origin: instant_now(),
        };
        assert(r.entries@ =~= Seq::<(u64, (u64, V))>::empty());
        r
    }

    /// Look up `key` at time `now`.  A live entry is handed back (cloned)
    /// and its key moves to the back of the order; an expired one is
    /// dropped.
    pub fn get_at(&mut self, key: u64, now: u64) -> (r: Option<V>)
        requires
            old(self).wf(),
        ensures
            final(self).wf(),
            final(self).capacity_of() == old(self).capacity_of(),
            final(self).ttl() == old(self).ttl(),
            final(self).map() == lookup_step(old(self).map(), old(self).order(), old(self).ttl(), key, now).0,
            final(self).order() == lookup_step(old(self).map(), old(self).order(), old(self).ttl(), key, now).1,
            r is Some == lookup_step(old(self).map(), old(self).order(), old(self).ttl(), key, now).2,
            r is Some ==> cloned(old(self).map()[key].1, r->0),
    {
        match find_key(&self.entries, key) {
            Some(i) => {
                let stored_at = self.entries[i].1.0;
                let live = if now >= stored_at {
                    now - stored_at < self.ttl_nanos
                } else {
                    0 < self.ttl_nanos
                };
                if live {
                    let ghost m = self.map();
                    let ghost o = self.order@;
                    remove_from_order(&mut self.order, key);
                    self.order.push(key);
                    proof {
                        assert forall|k: u64| #[trigger] m.dom().contains(k) implies self.order@.contains(k) by {
                            if k == key {
                                assert(self.order@[self.order@.len() - 1] == key);
                            } else {
                                lemma_without_keeps(o, key, k);
                                let j = choose|j: int| 0 <= j < without(o, key).len() && without(o, key)[j] == k;
                                assert(self.order@[j] == k);
                            }
                        }
                    }
                    return Some(self.entries[i].1.1.clone());
                }
                let ghost m = self.map();
                let ghost o = self.order@;
                proof {
                    lemma_remove(self.entries@, i as int);
                }
                self.entries.remove(i);
                remove_from_order(&mut self.order, key);
                proof {
                    assert forall|k: u64| #[trigger] self.map().dom().contains(k) implies self.order@.contains(k) by {
                        assert(m.dom().contains(k));
                        lemma_without_keeps(o, key, k);
                    }
                }
                None
            },
            None => None,
        }
    }

    /// [`Self::get_at`] at the current time.
    pub fn get(&mut self, key: u64) -> (r: Option<V>)
        requires
            old(self).wf(),
        ensures
            final(self).wf(),
            final(self).capacity_of() == old(self).capacity_of(),
            final(self).ttl() == old(self).ttl(),
            exists|now: u64|
                #![trigger lookup_step(old(self).map(), old(self).order(), old(self).ttl(), key, now)]
                final(self).map() == lookup_step(old(self).map(), old(self).order(), old(self).ttl(), key, now).0
                && final(self).order() == lookup_step(old(self).map(), old(self).order(), old(self).ttl(), key, now).1
                && r is Some == lookup_step(old(self).map(), old(self).order(), old(self).ttl(), key, now).2,
            r is Some ==> cloned(old(self).map()[key].1, r->0),
    {
        let now = nanos_since(&self.origin);
        self.get_at(key, now)
    }

    /// Store `value` under `key` at time `now`.  A cache holding
    /// `capacity` entries or more first drops keys from the front of the
    /// use order until fewer remain; the key is then appended to the
    /// order.
    pub fn insert_at(&mut self, key: u64, value: V, now: u64)
        requires
            old(self).wf(),
        ensures
            final(self).wf(),
            final(self).capacity_of() == old(self).capacity_of(),
            final(self).ttl() == old(self).ttl(),
            final(self).map() == insert_step(old(self).map(), old(self).order(), old(self).capacity_of(), key, value, now).0,
            final(self).order() == insert_step(old(self).map(), old(self).order(), old(self).capacity_of(), key, value, now).1,
    {
        let ghost m0 = self.map();
        let ghost o0 = self.order@;
        proof {
            lemma_len(self.entries@);
            lemma_drain_covers(m0, o0, self.capacity);
        }
        if self.entries.len() >= self.capacity {
            let mut done = false;
            while !done && self.order.len() > 0
                invariant
                    keys_unique(self.entries@),
                    self.capacity == old(self).capacity,
                    self.ttl_nanos == old(self).ttl_nanos,
                    !done ==> drain(self.map(), self.order@, self.capacity) == drain(m0, o0, self.capacity),
                    done ==> self.map() == drain(m0, o0, self.capacity).0 && self.order@ == drain(m0, o0, self.capacity).1,
                decreases self.order@.len(),
            {
                let ghost m = self.map();
                let ghost o = self.order@;
                let oldest = self.order.remove(0);
                proof {
                    assert(self.order@ =~= o.drop_first());
                }
                match find_key(&self.entries, oldest) {
                    Some(j) => {
                        proof {
                            lemma_remove(self.entries@, j as int);
                        }
                        self.entries.remove(j);
                    },
                    None => {
                        proof {
                            assert(m.remove(oldest) =~= m);
                        }
                    },
                }
                proof {
                    lemma_len(self.entries@);
                }
                if self.entries.len() < self.capacity {
                    done = true;
                }
            }
        } else {
            proof {
                lemma_len(self.entries@);
            }
        }
        let ghost mid = self.entries@;
        let e = (now, value);
        match find_key(&self.entries, key) {
            Some(i) => {
                proof {
                    lemma_update(mid, i as int, e);
                }
                self.entries.set(i, (key, e));
            },
            None => {
                proof {
                    lemma_push(mid, key, e);
                }
                self.entries.push((key, e));
            },
        }
        let ghost o1 = self.order@;
        self.order.push(key);
        proof {
            assert forall|k: u64| #[trigger] self.map().dom().contains(k) implies self.order@.contains(k) by {
                if k == key {
                    assert(self.order@[self.order@.len() - 1] == key);
                } else {
                    assert(o1.contains(k));
                    let j = choose|j: int| 0 <= j < o1.len() && o1[j] == k;
                    assert(self.order@[j] == k);
                }
            }
        }
    }

    /// [`Self::insert_at`] at the current time.
    pub fn insert(&mut self, key: u64, value: V)
        requires
            old(self).wf(),
        ensures
            final(self).wf(),
            final(self).capacity_of() == old(self).capacity_of(),
            final(self).ttl() == old(self).ttl(),
            exists|now: u64|
                #![trigger insert_step(old(self).map(), old(self).order(), old(self).capacity_of(), key, value, now)]
                final(self).map() == insert_step(old(self).map(), old(self).order(), old(self).capacity_of(), key, value, now).0
                && final(self).order() == insert_step(old(self).map(), old(self).order(), old(self).capacity_of(), key, value, now).1,
    {
        let now = nanos_since(&self.origin);
        self.insert_at(key, value, now);
    }

    /// Drop every entry that has expired at time `now`, and every key of
    /// the use order that no longer names a live entry.
    pub fn evict_expired_at(&mut self, now: u64)
        requires
            old(self).wf(),
        ensures
            final(self).wf(),
            final(self).capacity_of() == old(self).capacity_of(),
            final(self).ttl() == old(self).ttl(),
            final(self).map() == live_entries(old(self).map(), old(self).ttl(), now),
            final(self).order() == live_order(old(self).map(), old(self).order(), old(self).ttl(), now),
    {
        let ghost m0 = self.map();
        let ghost o0 = self.order@;
        let ghost ttl = self.ttl_nanos;
        let mut kept: Vec<u64> = Vec::new();
        let mut i: usize = 0;
        while i < self.order.len()
            invariant
                keys_unique(self.entries@),
                self.order@ == o0,
                self.ttl_nanos == ttl,
                self.capacity == old(self).capacity,
                order_covers(m0, o0),
                i <= o0.len(),
                self.map() == Map::new(
                    |k: u64| m0.dom().contains(k) && (live_at(m0[k].0, ttl, now) || !o0.take(i as int).contains(k)),
                    |k: u64| m0[k],
                ),
                kept@ == o0.take(i as int).filter(live_key(m0, ttl, now)),
            decreases o0.len() - i,
        {
            let k = self.order[i];
            let ghost m = self.map();
            proof {
                assert(o0.take(i as int + 1).drop_last() =~= o0.take(i as int));
                assert(o0.take(i as int + 1)[i as int] == k);
                reveal(Seq::filter);
            }
            match find_key(&self.entries, k) {
                Some(j) => {
                    let stored_at = self.entries[j].1.0;
                    let live = if now >= stored_at {
                        now - stored_at < self.ttl_nanos
                    } else {
                        0 < self.ttl_nanos
                    };
                    if live {
                        kept.push(k);
                    } else {
                        proof {
                            lemma_remove(self.entries@, j as int);
                        }
                        self.entries.remove(j);
                    }
                },
                None => {},
            }
            proof {
                let mi = Map::new(
                    |x: u64| m0.dom().contains(x) && (live_at(m0[x].0, ttl, now) || !o0.take(i as int + 1).contains(x)),
                    |x: u64| m0[x],
                );
                let t1 = o0.take(i as int + 1);
                let t0 = o0.take(i as int);
                assert forall|x: u64| t1.contains(x) <==> (t0.contains(x) || x == k) by {
                    if t1.contains(x) {
                        let j = choose|j: int| 0 <= j < t1.len() && t1[j] == x;
                        if j < i {
                            assert(t0[j] == x);
                        }
                    }
                    if t0.contains(x) {
                        let j = choose|j: int| 0 <= j < t0.len() && t0[j] == x;
                        assert(t1[j] == x);
                    }
                    if x == k {
                        assert(t1[i as int] == x);
                    }
                }
                assert(self.map() =~= mi);
            }
            i += 1;
        }
        proof {
            assert(o0.take(o0.len() as int) =~= o0);
            assert(self.map() =~= live_entries(m0, ttl, now));
        }
        self.order = kept;
        proof {
            assert forall|k: u64| #[trigger] self.map().dom().contains(k) implies self.order@.contains(k) by {
                assert(o0.contains(k));
                let j = choose|j: int| 0 <= j < o0.len() && o0[j] == k;
                o0.lemma_filter_contains(live_key(m0, ttl, now), j);
            }
        }
    }

    /// [`Self::evict_expired_at`] at the current time.
    pub fn evict_expired(&mut self)
        requires
            old(self).wf(),
        ensures
            final(self).wf(),
            final(self).capacity_of() == old(self).capacity_of(),
            final(self).ttl() == old(self).ttl(),
            exists|now: u64|
                #![trigger live_entries(old(self).map(), old(self).ttl(), now)]
                final(self).map() == live_entries(old(self).map(), old(self).ttl(), now)
                && final(self).order() == live_order(old(self).map(), old(self).order(), old(self).ttl(), now),
    {
        let now = nanos_since(&self.origin);
        self.evict_expired_at(now);
    }
}

/// A repeated request within the time-to-live gets the stored response
/// back: a lookup right after storing `value` under `key` at `t_insert`,
/// at a time `t_get` less than `ttl` later, hits and hands back a clone
/// of `value`.
pub proof fn lemma_hit_after_insert<V: Clone>(
    m: Map<u64, (u64, V)>,
    order: Seq<u64>,
    capacity: usize,
    ttl: u64,
    key: u64,
    value: V,
    t_insert: u64,
    t_get: u64,
)
    requires
        t_get >= t_insert,
        t_get - t_insert < ttl,
    ensures
        ({
            let s = insert_step(m, order, capacity, key, value, t_insert);
            &&& lookup_step(s.0, s.1, ttl, key, t_get).2
            &&& s.0[key].1 == value
            &&& lookup_step(s.0, s.1, ttl, key, t_get).0 == s.0
        }),
{
}

/// The cache never holds more than `capacity` entries (one, when the
/// capacity is zero) after a store.
pub proof fn lemma_insert_bounded<V>(
    m: Map<u64, (u64, V)>,
    order: Seq<u64>,
    capacity: usize,
    key: u64,
    value: V,
    now: u64,
)
    requires
        m.dom().finite(),
        order_covers(m, order),
    ensures
        insert_step(m, order, capacity, key, value, now).0.dom().len() <= if capacity == 0 {
            1
        } else {
            capacity as int
        },
        order_covers(
            insert_step(m, order, capacity, key, value, now).0,
            insert_step(m, order, capacity, key, value, now).1,
        ),
{
    let d = if m.dom().len() >= capacity {
        drain(m, order, capacity)
    } else {
        (m, order)
    };
    if m.dom().len() >= capacity {
        lemma_drain_size(m, order, capacity);
        lemma_drain_covers(m, order, capacity);
    }
    let r = d.0.insert(key, (now, value));
    if d.0.dom().contains(key) {
        assert(r.dom() =~= d.0.dom());
    }
    let o = d.1.push(key);
    assert forall|k: u64| #[trigger] r.dom().contains(k) implies o.contains(k) by {
        if k == key {
            assert(o[o.len() - 1] == key);
        } else {
            assert(d.1.contains(k));
            let j = choose|j: int| 0 <= j < d.1.len() && d.1[j] == k;
            assert(o[j] == k);
        }
    }
}

/// An expired entry is dropped by a lookup, which misses.
pub proof fn lemma_miss_after_expiry<V>(
    m: Map<u64, (u64, V)>,
    order: Seq<u64>,
    ttl: u64,
    key: u64,
    now: u64,
)
    requires
        m.dom().contains(key),
        !live_at(m[key].0, ttl, now),
    ensures
        !lookup_step(m, order, ttl, key, now).2,
        !lookup_step(m, order, ttl, key, now).0.dom().contains(key),
        !lookup_step(m, order, ttl, key, now).1.contains(key),
{
    let o = without(order, key);
    if o.contains(key) {
        let j = choose|j: int| 0 <= j < o.len() && o[j] == key;
        order.lemma_filter_pred(other_than(key), j);
    }
}

} // verus!
