//! Response caches with a time-to-live.
//!
//! The exact-hash cache ([`L1Cache`]) evicts its oldest entry when full;
//! the top-k result cache ([`L3Cache`]) evicts its least accessed entry.
//! Entries older than the time-to-live are misses, and are dropped when
//! looked up or when expired entries are evicted.
//!
//! Times are nanoseconds on the monotonic clock since the cache was made.
//! Every timed operation has a form that takes the time as an argument
//! and is verified for every time; the plain form reads the clock.
use vstd::prelude::*;
use vstd::slice::slice_to_vec;
use crate::assoc::{find_key, keys_unique, to_map, lemma_dom, lemma_index, lemma_index_of, lemma_len, lemma_push, lemma_update, lemma_remove};
use crate::clock::{instant_now, nanos_since, duration_as_nanos, saturated_nanos};

verus! {

/// Cache entry with its insertion time and access count.
#[derive(Debug, Clone)]
pub struct CacheEntry<V> {
    pub value: V,
    /// Insertion time, in nanoseconds since the cache was made.
    pub inserted_at: u64,
    pub access_count: u64,
}

/// Per-level cache statistics.
#[derive(Debug, Clone, Copy, PartialEq, Eq)]
pub struct CacheStats {
    pub hits: u64,
    pub misses: u64,
    pub size: usize,
    pub capacity: usize,
}

/// Aggregated stats for all cache levels.
#[derive(Debug, Clone, Copy)]
pub struct MultiLevelCacheStats {
    pub l1: CacheStats,
    pub l2: CacheStats,
    pub l3: CacheStats,
}

/// `a - b`, or 0 when `b > a`.
pub open spec fn sat_sub(a: u64, b: u64) -> u64 {
    if a >= b {
        (a - b) as u64
    } else {
        0
    }
}

/// An entry is still live at `now` when less than `ttl` has passed since
/// it was inserted.
pub open spec fn is_fresh<V>(e: CacheEntry<V>, ttl: u64, now: u64) -> bool {
    sat_sub(now, e.inserted_at) < ttl
}

impl<V> CacheEntry<V> {
    /// Whether the entry has expired at time `now`: at least `ttl` has
    /// passed since it was inserted.
    pub fn is_expired(&self, ttl: u64, now: u64) -> (r: bool)
        ensures
            r == !is_fresh(*self, ttl, now),
    {
        let elapsed = if now >= self.inserted_at {
            now - self.inserted_at
        } else {
            0
        };
        elapsed >= ttl
    }
}

/// `a + 1` wrapped to 64 bits, as an atomic counter increments.
pub open spec fn bump(a: u64) -> u64 {
    if a == u64::MAX {
        0
    } else {
        (a + 1) as u64
    }
}

fn bump_counter(a: u64) -> (r: u64)
    ensures
        r == bump(a),
{
    a.wrapping_add(1)
}

/// The entries of `m` still live at `now`.
pub open spec fn live_entries<V>(m: Map<u64, CacheEntry<V>>, ttl: u64, now: u64) -> Map<
    u64,
    CacheEntry<V>,
> {
    Map::new(|k: u64| m.dom().contains(k) && is_fresh(m[k], ttl, now), |k: u64| m[k])
}

/// `e` has the smallest insertion time in `m`.
pub open spec fn oldest_in<V>(m: Map<u64, CacheEntry<V>>, e: u64) -> bool {
    m.dom().contains(e) && forall|k: u64| #[trigger]
        m.dom().contains(k) ==> m[e].inserted_at <= m[k].inserted_at
}

/// `e` has the fewest accesses in `m`.
pub open spec fn least_used_in<V>(m: Map<u64, CacheEntry<V>>, e: u64) -> bool {
    m.dom().contains(e) && forall|k: u64| #[trigger]
        m.dom().contains(k) ==> m[e].access_count <= m[k].access_count
}

/// The outcome of a lookup at time `now`: a live entry is a hit, counted
/// and touched, and its value is handed out; an expired entry is dropped
/// and is a miss; an absent key is a miss.  `hits`/`misses` are the
/// counters before and after.
pub open spec fn lookup_outcome<V>(
    m: Map<u64, CacheEntry<V>>,
    ttl: u64,
    key: u64,
    now: u64,
    hits: u64,
    misses: u64,
    m2: Map<u64, CacheEntry<V>>,
    hits2: u64,
    misses2: u64,
    found: Option<V>,
    same_value: spec_fn(V, V) -> bool,
) -> bool {
    if m.dom().contains(key) && is_fresh(m[key], ttl, now) {
        &&& found matches Some(v) && same_value(m[key].value, v)
        &&& m2 == m.insert(
            key,
            CacheEntry { access_count: (m[key].access_count + 1) as u64, ..m[key] },
        )
        &&& hits2 == bump(hits)
        &&& misses2 == misses
    } else {
        &&& found is None
        &&& m2 == m.remove(key)
        &&& hits2 == hits
        &&& misses2 == bump(misses)
    }
}

/// What inserting `value` under `key` at `now` does to the entries `m` of
/// a cache holding at most `capacity` entries, when a full cache evicts
/// its oldest entry: `m2` is the result.
pub open spec fn oldest_first_insert<V>(
    m: Map<u64, CacheEntry<V>>,
    capacity: usize,
    key: u64,
    value: V,
    now: u64,
    m2: Map<u64, CacheEntry<V>>,
) -> bool {
    let e = CacheEntry { value, inserted_at: now, access_count: 0 };
    if m.dom().len() >= capacity && m.dom().len() > 0 {
        exists|victim: u64|
            #![trigger m.remove(victim)]
            oldest_in(m, victim) && m2 == m.remove(victim).insert(key, e)
    } else {
        m2 == m.insert(key, e)
    }
}

/// As [`oldest_first_insert`], for a cache that evicts its least accessed
/// entry when full.
pub open spec fn least_used_first_insert<V>(
    m: Map<u64, CacheEntry<V>>,
    capacity: usize,
    key: u64,
    value: V,
    now: u64,
    m2: Map<u64, CacheEntry<V>>,
) -> bool {
    let e = CacheEntry { value, inserted_at: now, access_count: 0 };
    if m.dom().len() >= capacity && m.dom().len() > 0 {
        exists|victim: u64|
            #![trigger m.remove(victim)]
            least_used_in(m, victim) && m2 == m.remove(victim).insert(key, e)
    } else {
        m2 == m.insert(key, e)
    }
}

/// The relation between a value and its clone.
pub open spec fn clone_relation<V: Clone>() -> spec_fn(V, V) -> bool {
    |a: V, b: V| cloned(a, b)
}

/// Position of an entry with the smallest insertion time.
fn oldest_entry<V>(entries: &Vec<(u64, CacheEntry<V>)>) -> (r: usize)
    requires
        keys_unique(entries@),
        entries@.len() > 0,
    ensures
        r < entries@.len(),
        oldest_in(to_map(entries@), entries@[r as int].0),
{
    let mut best: usize = 0;
    let mut i: usize = 1;
    while i < entries.len()
        invariant
            1 <= i <= entries@.len(),
            best < i,
            forall|j: int|
                0 <= j < i ==> entries@[best as int].1.inserted_at <= (#[trigger] entries@[j]).1.inserted_at,
        decreases entries@.len() - i,
    {
        if entries[i].1.inserted_at < entries[best].1.inserted_at {
            best = i;
        }
        i += 1;
    }
    proof {
        lemma_index(entries@, best as int);
        assert forall|k: u64| #[trigger] to_map(entries@).dom().contains(k) implies to_map(
            entries@,
        )[entries@[best as int].0].inserted_at <= to_map(entries@)[k].inserted_at by {
            let j = lemma_index_of(entries@, k);
        }
    }
    best
}

/// Position of an entry with the fewest accesses.
fn least_used_entry<V>(entries: &Vec<(u64, CacheEntry<V>)>) -> (r: usize)
    requires
        keys_unique(entries@),
        entries@.len() > 0,
    ensures
        r < entries@.len(),
        least_used_in(to_map(entries@), entries@[r as int].0),
{
    let mut best: usize = 0;
    let mut i: usize = 1;
    while i < entries.len()
        invariant
            1 <= i <= entries@.len(),
            best < i,
            forall|j: int|
                0 <= j < i ==> entries@[best as int].1.access_count <= (#[trigger] entries@[j]).1.access_count,
        decreases entries@.len() - i,
    {
        if entries[i].1.access_count < entries[best].1.access_count {
            best = i;
        }
        i += 1;
    }
    proof {
        lemma_index(entries@, best as int);
        assert forall|k: u64| #[trigger] to_map(entries@).dom().contains(k) implies to_map(
            entries@,
        )[entries@[best as int].0].access_count <= to_map(entries@)[k].access_count by {
            let j = lemma_index_of(entries@, k);
        }
    }
    best
}

/// Keep the entries still live at `now`.
fn retain_live<V>(entries: Vec<(u64, CacheEntry<V>)>, ttl: u64, now: u64) -> (r: Vec<(u64, CacheEntry<V>)>)
    requires
        keys_unique(entries@),
    ensures
        keys_unique(r@),
        to_map(r@) == live_entries(to_map(entries@), ttl, now),
{
    let ghost all = entries@;
    let total: usize = entries.len();
    let mut rest = entries;
    let mut kept: Vec<(u64, CacheEntry<V>)> = Vec::new();
    let mut i: usize = 0;
    while rest.len() > 0
        invariant
            rest@ == all.subrange(i as int, all.len() as int),
            i <= all.len(),
            all.len() == total,
            keys_unique(all),
            keys_unique(kept@),
            to_map(kept@) == live_entries(to_map(all.subrange(0, i as int)), ttl, now),
        decreases rest@.len(),
    {
        let e = rest.remove(0);
        proof {
            assert(e == all[i as int]);
            assert(rest@ =~= all.subrange(i + 1, all.len() as int));
        }
        let ghost pre = all.subrange(0, i as int);
        let ghost post = all.subrange(0, i + 1);
        proof {
            assert(post.drop_last() =~= pre);
            lemma_dom(pre, e.0);
            if exists|j: int| 0 <= j < pre.len() && pre[j].0 == e.0 {
                let j = choose|j: int| 0 <= j < pre.len() && pre[j].0 == e.0;
                assert(all[j].0 == all[i as int].0);
            }
        }
        let fresh = !e.1.is_expired(ttl, now);
        if fresh {
            proof {
                assert(!to_map(kept@).dom().contains(e.0));
                lemma_push(kept@, e.0, e.1);
                assert(live_entries(to_map(post), ttl, now) =~= live_entries(to_map(pre), ttl, now).insert(
                    e.0,
                    e.1,
                ));
            }
            kept.push(e);
        } else {
            proof {
                assert(live_entries(to_map(post), ttl, now) =~= live_entries(to_map(pre), ttl, now));
            }
        }
        i += 1;
    }
    proof {
        assert(all.subrange(0, all.len() as int) =~= all);
    }
    kept
}

/// Exact request hash → cached value, evicting the oldest entry when full.
pub struct L1Cache<V: Clone> {
    entries: Vec<(u64, CacheEntry<V>)>,
    capacity: usize,
    ttl_nanos: u64,
    hits: u64,
    misses: u64,
    origin: std::time::Instant,
}

impl<V: Clone> L1Cache<V> {
    pub closed spec fn map(&self) -> Map<u64, CacheEntry<V>> {
        to_map(self.entries@)
    }

    pub closed spec fn capacity_of(&self) -> usize {
        self.capacity
    }

    pub closed spec fn ttl(&self) -> u64 {
        self.ttl_nanos
    }

    pub closed spec fn hit_count(&self) -> u64 {
        self.hits
    }

    pub closed spec fn miss_count(&self) -> u64 {
        self.misses
    }

    pub closed spec fn wf(&self) -> bool {
        keys_unique(self.entries@)
    }

    /// An empty cache of the given capacity and time-to-live.
    pub fn new(capacity: usize, ttl: core::time::Duration) -> (r: Self)
        ensures
            r.wf(),
            r.map() == Map::<u64, CacheEntry<V>>::empty(),
            r.capacity_of() == capacity,
            r.ttl() == saturated_nanos(ttl),
            r.hit_count() == 0,
            r.miss_count() == 0,
    {
        let r = L1Cache {
            entries: Vec::new(),
            capacity,
            ttl_nanos: duration_as_nanos(&ttl),
            hits: 0,
            misses: 0,
            origin: instant_now(),
        };
        assert(r.entries@ =~= Seq::<(u64, CacheEntry<V>)>::empty());
        r
    }

    /// Look up `key` at time `now`.
    pub fn get_at(&mut self, key: u64, now: u64) -> (r: Option<V>)
        requires
            old(self).wf(),
            old(self).map().dom().contains(key) ==> old(self).map()[key].access_count < u64::MAX,
        ensures
            final(self).wf(),
            final(self).capacity_of() == old(self).capacity_of(),
            final(self).ttl() == old(self).ttl(),
            lookup_outcome(
                old(self).map(),
                old(self).ttl(),
                key,
                now,
                old(self).hit_count(),
                old(self).miss_count(),
                final(self).map(),
                final(self).hit_count(),
                final(self).miss_count(),
                r,
                clone_relation::<V>(),
            ),
    {
        match find_key(&self.entries, key) {
            Some(i) => {
                let fresh = !self.entries[i].1.is_expired(self.ttl_nanos, now);
                if fresh {
                    let (k, mut entry) = self.entries.remove(i);
                    entry.access_count = entry.access_count + 1;
                    let v = entry.value.clone();
                    self.entries.insert(i, (k, entry));
                    proof {
                        let s0 = old(self).entries@;
                        assert(self.entries@ =~= s0.update(i as int, (s0[i as int].0, entry)));
                        lemma_update(s0, i as int, entry);
                    }
                    self.hits = bump_counter(self.hits);
                    return Some(v);
                }
                proof {
                    lemma_remove(self.entries@, i as int);
                }
                self.entries.remove(i);
            },
            None => {
                proof {
                    assert(self.map().remove(key) =~= self.map());
                }
            },
        }
        self.misses = bump_counter(self.misses);
        None
    }

    /// Look up `key` now.
    pub fn get(&mut self, key: u64) -> (r: Option<V>)
        requires
            old(self).wf(),
            old(self).map().dom().contains(key) ==> old(self).map()[key].access_count < u64::MAX,
        ensures
            final(self).wf(),
            final(self).capacity_of() == old(self).capacity_of(),
            final(self).ttl() == old(self).ttl(),
            exists|now: u64|
                #[trigger] lookup_outcome(
                    old(self).map(),
                    old(self).ttl(),
                    key,
                    now,
                    old(self).hit_count(),
                    old(self).miss_count(),
                    final(self).map(),
                    final(self).hit_count(),
                    final(self).miss_count(),
                    r,
                    clone_relation::<V>(),
                ),
    {
        let now = nanos_since(&self.origin);
        self.get_at(key, now)
    }

    /// Insert `value` under `key` at time `now`.  When the cache already
    /// holds `capacity` entries, the oldest is evicted first.
    pub fn insert_at(&mut self, key: u64, value: V, now: u64)
        requires
            old(self).wf(),
        ensures
            final(self).wf(),
            final(self).capacity_of() == old(self).capacity_of(),
            final(self).ttl() == old(self).ttl(),
            final(self).hit_count() == old(self).hit_count(),
            final(self).miss_count() == old(self).miss_count(),
            oldest_first_insert(
                old(self).map(),
                old(self).capacity_of(),
                key,
                value,
                now,
                final(self).map(),
            ),
    {
        proof {
            lemma_len(self.entries@);
        }
        if self.entries.len() >= self.capacity && self.entries.len() > 0 {
            let i = oldest_entry(&self.entries);
            proof {
                lemma_remove(self.entries@, i as int);
            }
            self.entries.remove(i);
        }
        let ghost mid = self.entries@;
        let e = CacheEntry { value, inserted_at: now, access_count: 0 };
        match find_key(&self.entries, key) {
            Some(i) => {
                proof {
                    lemma_update(mid, i as int, e);
                }
                self.entries.set(i, (key, e));
            },
            None => {
                proof {
                    lemma_push(mid, key, e);
                }
                self.entries.push((key, e));
            },
        }
    }

    /// Insert `value` under `key` now.
    pub fn insert(&mut self, key: u64, value: V)
        requires
            old(self).wf(),
        ensures
            final(self).wf(),
            final(self).capacity_of() == old(self).capacity_of(),
            final(self).ttl() == old(self).ttl(),
            final(self).hit_count() == old(self).hit_count(),
            final(self).miss_count() == old(self).miss_count(),
            exists|now: u64|
                #[trigger] oldest_first_insert(
                    old(self).map(),
                    old(self).capacity_of(),
                    key,
                    value,
                    now,
                    final(self).map(),
                ),
    {
        let now = nanos_since(&self.origin);
        self.insert_at(key, value, now);
    }

    /// Drop every entry that has expired at time `now`.
    pub fn evict_expired_at(&mut self, now: u64)
        requires
            old(self).wf(),
        ensures
            final(self).wf(),
            final(self).capacity_of() == old(self).capacity_of(),
            final(self).ttl() == old(self).ttl(),
            final(self).hit_count() == old(self).hit_count(),
            final(self).miss_count() == old(self).miss_count(),
            final(self).map() == live_entries(old(self).map(), old(self).ttl(), now),
    {
        let mut entries = Vec::new();
        std::mem::swap(&mut entries, &mut self.entries);
        self.entries = retain_live(entries, self.ttl_nanos, now);
    }

    /// Drop every entry that has expired now.
    pub fn evict_expired(&mut self)
        requires
            old(self).wf(),
        ensures
            final(self).wf(),
            final(self).capacity_of() == old(self).capacity_of(),
            final(self).ttl() == old(self).ttl(),
            final(self).hit_count() == old(self).hit_count(),
            final(self).miss_count() == old(self).miss_count(),
            exists|now: u64| final(self).map() == live_entries(old(self).map(), old(self).ttl(), now),
    {
        let now = nanos_since(&self.origin);
        self.evict_expired_at(now);
    }

    /// Evict the entry with the smallest insertion time, if any.
    pub fn evict_oldest(&mut self)
        requires
            old(self).wf(),
        ensures
            final(self).wf(),
            final(self).capacity_of() == old(self).capacity_of(),
            final(self).ttl() == old(self).ttl(),
            final(self).hit_count() == old(self).hit_count(),
            final(self).miss_count() == old(self).miss_count(),
            old(self).map().dom().len() == 0 ==> final(self).map() == old(self).map(),
            old(self).map().dom().len() > 0 ==> exists|victim: u64|
                #![trigger old(self).map().remove(victim)]
                oldest_in(old(self).map(), victim) && final(self).map() == old(self).map().remove(
                    victim,
                ),
    {
        proof {
            lemma_len(self.entries@);
        }
        if self.entries.len() > 0 {
            let i = oldest_entry(&self.entries);
            proof {
                lemma_remove(self.entries@, i as int);
            }
            self.entries.remove(i);
        }
    }

    /// Hit, miss, size and capacity figures.
    pub fn stats(&self) -> (r: CacheStats)
        requires
            self.wf(),
        ensures
            r.hits == self.hit_count(),
            r.misses == self.miss_count(),
            r.size == self.map().dom().len(),
            r.capacity == self.capacity_of(),
    {
        proof {
            lemma_len(self.entries@);
        }
        CacheStats {
            hits: self.hits,
            misses: self.misses,
            size: self.entries.len(),
            capacity: self.capacity,
        }
    }
}

/// Top-k result cache: key → result ids, evicting the least accessed
/// entry when full.
pub struct L3Cache {
    entries: Vec<(u64, CacheEntry<Vec<u64>>)>,
    capacity: usize,
    ttl_nanos: u64,
    hits: u64,
    misses: u64,
    origin: std::time::Instant,
}

/// Two id lists hold the same ids in the same order.
pub open spec fn same_ids(a: Vec<u64>, b: Vec<u64>) -> bool {
    a@ == b@
}

/// [`same_ids`] as a relation.
pub open spec fn same_ids_relation() -> spec_fn(Vec<u64>, Vec<u64>) -> bool {
    |a: Vec<u64>, b: Vec<u64>| same_ids(a, b)
}

impl L3Cache {
    pub closed spec fn map(&self) -> Map<u64, CacheEntry<Vec<u64>>> {
        to_map(self.entries@)
    }

    pub closed spec fn capacity_of(&self) -> usize {
        self.capacity
    }

    pub closed spec fn ttl(&self) -> u64 {
        self.ttl_nanos
    }

    pub closed spec fn hit_count(&self) -> u64 {
        self.hits
    }

    pub closed spec fn miss_count(&self) -> u64 {
        self.misses
    }

    pub closed spec fn wf(&self) -> bool {
        keys_unique(self.entries@)
    }

    /// An empty cache of the given capacity and time-to-live.
    pub fn new(capacity: usize, ttl: core::time::Duration) -> (r: Self)
        ensures
            r.wf(),
            r.map() == Map::<u64, CacheEntry<Vec<u64>>>::empty(),
            r.capacity_of() == capacity,
            r.ttl() == saturated_nanos(ttl),
            r.hit_count() == 0,
            r.miss_count() == 0,
    {
        let r = L3Cache {
            entries: Vec::new(),
            capacity,
            ttl_nanos: duration_as_nanos(&ttl),
            hits: 0,
            misses: 0,
            origin: instant_now(),
        };
        assert(r.entries@ =~= Seq::<(u64, CacheEntry<Vec<u64>>)>::empty());
        r
    }

    /// Look up `key` at time `now`; a hit hands out a copy of the ids.
    pub fn get_at(&mut self, key: u64, now: u64) -> (r: Option<Vec<u64>>)
        requires
            old(self).wf(),
            old(self).map().dom().contains(key) ==> old(self).map()[key].access_count < u64::MAX,
        ensures
            final(self).wf(),
            final(self).capacity_of() == old(self).capacity_of(),
            final(self).ttl() == old(self).ttl(),
            lookup_outcome(
                old(self).map(),
                old(self).ttl(),
                key,
                now,
                old(self).hit_count(),
                old(self).miss_count(),
                final(self).map(),
                final(self).hit_count(),
                final(self).miss_count(),
                r,
                same_ids_relation(),
            ),
    {
        match find_key(&self.entries, key) {
            Some(i) => {
                let fresh = !self.entries[i].1.is_expired(self.ttl_nanos, now);
                if fresh {
                    let (k, mut entry) = self.entries.remove(i);
                    entry.access_count = entry.access_count + 1;
                    let v = slice_to_vec(entry.value.as_slice());
                    self.entries.insert(i, (k, entry));
                    proof {
                        let s0 = old(self).entries@;
                        assert(self.entries@ =~= s0.update(i as int, (s0[i as int].0, entry)));
                        lemma_update(s0, i as int, entry);
                    }
                    self.hits = bump_counter(self.hits);
                    return Some(v);
                }
                proof {
                    lemma_remove(self.entries@, i as int);
                }
                self.entries.remove(i);
            },
            None => {
                proof {
                    assert(self.map().remove(key) =~= self.map());
                }
            },
        }
        self.misses = bump_counter(self.misses);
        None
    }

    /// Look up `key` now.
    pub fn get(&mut self, key: u64) -> (r: Option<Vec<u64>>)
        requires
            old(self).wf(),
            old(self).map().dom().contains(key) ==> old(self).map()[key].access_count < u64::MAX,
        ensures
            final(self).wf(),
            final(self).capacity_of() == old(self).capacity_of(),
            final(self).ttl() == old(self).ttl(),
            exists|now: u64|
                #[trigger] lookup_outcome(
                    old(self).map(),
                    old(self).ttl(),
                    key,
                    now,
                    old(self).hit_count(),
                    old(self).miss_count(),
                    final(self).map(),
                    final(self).hit_count(),
                    final(self).miss_count(),
                    r,
                    same_ids_relation(),
                ),
    {
        let now = nanos_since(&self.origin);
        self.get_at(key, now)
    }

    /// Insert `value` under `key` at time `now`.  When the cache already
    /// holds `capacity` entries, the least accessed is evicted first.
    pub fn insert_at(&mut self, key: u64, value: Vec<u64>, now: u64)
        requires
            old(self).wf(),
        ensures
            final(self).wf(),
            final(self).capacity_of() == old(self).capacity_of(),
            final(self).ttl() == old(self).ttl(),
            final(self).hit_count() == old(self).hit_count(),
            final(self).miss_count() == old(self).miss_count(),
            least_used_first_insert(
                old(self).map(),
                old(self).capacity_of(),
                key,
                value,
                now,
                final(self).map(),
            ),
    {
        proof {
            lemma_len(self.entries@);
        }
        if self.entries.len() >= self.capacity && self.entries.len() > 0 {
            let i = least_used_entry(&self.entries);
            proof {
                lemma_remove(self.entries@, i as int);
            }
            self.entries.remove(i);
        }
        let ghost mid = self.entries@;
        let e = CacheEntry { value, inserted_at: now, access_count: 0 };
        match find_key(&self.entries, key) {
            Some(i) => {
                proof {
                    lemma_update(mid, i as int, e);
                }
                self.entries.set(i, (key, e));
            },
            None => {
                proof {
                    lemma_push(mid, key, e);
                }
                self.entries.push((key, e));
            },
        }
    }

    /// Insert `value` under `key` now.
    pub fn insert(&mut self, key: u64, value: Vec<u64>)
        requires
            old(self).wf(),
        ensures
            final(self).wf(),
            final(self).capacity_of() == old(self).capacity_of(),
            final(self).ttl() == old(self).ttl(),
            final(self).hit_count() == old(self).hit_count(),
            final(self).miss_count() == old(self).miss_count(),
            exists|now: u64|
                #[trigger] least_used_first_insert(
                    old(self).map(),
                    old(self).capacity_of(),
                    key,
                    value,
                    now,
                    final(self).map(),
                ),
    {
        let now = nanos_since(&self.origin);
        self.insert_at(key, value, now);
    }

    /// Evict the entry with the fewest accesses, if any.
    pub fn evict_lru(&mut self)
        requires
            old(self).wf(),
        ensures
            final(self).wf(),
            final(self).capacity_of() == old(self).capacity_of(),
            final(self).ttl() == old(self).ttl(),
            final(self).hit_count() == old(self).hit_count(),
            final(self).miss_count() == old(self).miss_count(),
            old(self).map().dom().len() == 0 ==> final(self).map() == old(self).map(),
            old(self).map().dom().len() > 0 ==> exists|victim: u64|
                #![trigger old(self).map().remove(victim)]
                least_used_in(old(self).map(), victim) && final(self).map() == old(
                    self,
                ).map().remove(victim),
    {
        proof {
            lemma_len(self.entries@);
        }
        if self.entries.len() > 0 {
            let i = least_used_entry(&self.entries);
            proof {
                lemma_remove(self.entries@, i as int);
            }
            self.entries.remove(i);
        }
    }

    /// Drop every entry that has expired at time `now`.
    pub fn evict_expired_at(&mut self, now: u64)
        requires
            old(self).wf(),
        ensures
            final(self).wf(),
            final(self).capacity_of() == old(self).capacity_of(),
            final(self).ttl() == old(self).ttl(),
            final(self).hit_count() == old(self).hit_count(),
            final(self).miss_count() == old(self).miss_count(),
            final(self).map() == live_entries(old(self).map(), old(self).ttl(), now),
    {
        let mut entries = Vec::new();
        std::mem::swap(&mut entries, &mut self.entries);
        self.entries = retain_live(entries, self.ttl_nanos, now);
    }

    /// Drop every entry that has expired now.
    pub fn evict_expired(&mut self)
        requires
            old(self).wf(),
        ensures
            final(self).wf(),
            final(self).capacity_of() == old(self).capacity_of(),
            final(self).ttl() == old(self).ttl(),
            final(self).hit_count() == old(self).hit_count(),
            final(self).miss_count() == old(self).miss_count(),
            exists|now: u64| final(self).map() == live_entries(old(self).map(), old(self).ttl(), now),
    {
        let now = nanos_since(&self.origin);
        self.evict_expired_at(now);
    }

    /// Hit, miss, size and capacity figures.
    pub fn stats(&self) -> (r: CacheStats)
        requires
            self.wf(),
        ensures
            r.hits == self.hit_count(),
            r.misses == self.miss_count(),
            r.size == self.map().dom().len(),
            r.capacity == self.capacity_of(),
    {
        proof {
            lemma_len(self.entries@);
        }
        CacheStats {
            hits: self.hits,
            misses: self.misses,
            size: self.entries.len(),
            capacity: self.capacity,
        }
    }
}

/// A lookup right after an insert, within the time-to-live, is a hit that
/// hands back the inserted value.
pub proof fn lemma_hit_after_insert<V: Clone>(
    m: Map<u64, CacheEntry<V>>,
    ttl: u64,
    key: u64,
    value: V,
    t_insert: u64,
    t_get: u64,
    hits: u64,
    misses: u64,
    m2: Map<u64, CacheEntry<V>>,
    hits2: u64,
    misses2: u64,
    found: Option<V>,
)
    requires
        m.dom().contains(key) && m[key] == (CacheEntry { value, inserted_at: t_insert, access_count: 0 }),
        t_get >= t_insert,
        t_get - t_insert < ttl,
        lookup_outcome(m, ttl, key, t_get, hits, misses, m2, hits2, misses2, found, clone_relation::<V>()),
    ensures
        found matches Some(v) && cloned(value, v),
        hits2 == bump(hits),
{
}

/// A lookup after the time-to-live has passed is a miss and drops the
/// entry.
pub proof fn lemma_miss_after_expiry<V: Clone>(
    m: Map<u64, CacheEntry<V>>,
    ttl: u64,
    key: u64,
    t_get: u64,
    hits: u64,
    misses: u64,
    m2: Map<u64, CacheEntry<V>>,
    hits2: u64,
    misses2: u64,
    found: Option<V>,
)
    requires
        m.dom().contains(key),
        t_get >= m[key].inserted_at,
        t_get - m[key].inserted_at >= ttl,
        lookup_outcome(m, ttl, key, t_get, hits, misses, m2, hits2, misses2, found, clone_relation::<V>()),
    ensures
        found is None,
        !m2.dom().contains(key),
        misses2 == bump(misses),
{
}

} // verus!
