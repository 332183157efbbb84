//! Antigen memory: the store of previously detected anomalies.
//!
//! Records are kept by id.  The store has a capacity: when it is full, a
//! record with the fewest encounters is evicted to make room.  Records
//! expire after a configured number of days (0 means never).
//!
//! Pattern vectors are carried as the bit patterns of their `f64`
//! components (`f64::to_bits`); nothing here computes on them.
use vstd::prelude::*;
use vstd::string::*;
use crate::assoc::{keys_unique, to_map, has_key, lemma_dom, lemma_index, lemma_index_of, lemma_len, lemma_push, lemma_update, lemma_remove};
use crate::text::{spec_decimal, push_decimal};

verus! {

/// Status of an antigen record.
#[derive(Debug, Clone, Copy, PartialEq, Eq, Structural)]
pub enum AntigenStatus {
    /// The antigen is active and will be used for matching.
    Active,
    /// The antigen has expired beyond the configured retention window.
    Expired,
}

impl Default for AntigenStatus {
    fn default() -> (r: Self)
        ensures
            r == AntigenStatus::Active,
    {
        AntigenStatus::Active
    }
}

/// Severity levels for detected antigens.
#[derive(Debug, Clone, Copy, PartialEq, Eq, Structural)]
pub enum Severity {
    /// Low severity — informational.
    Low,
    /// Medium severity — requires attention.
    Medium,
    /// High severity — immediate action needed.
    High,
    /// Critical severity — system-threatening.
    Critical,
}

/// The name of a severity, as its `Debug` form prints it.
pub open spec fn severity_text(s: Severity) -> Seq<char> {
    match s {
        Severity::Low => "Low"@,
        Severity::Medium => "Medium"@,
        Severity::High => "High"@,
        Severity::Critical => "Critical"@,
    }
}

impl Severity {
    /// The name of the severity ("Low", "Medium", "High", "Critical").
    pub fn name(&self) -> (r: &'static str)
        ensures
            r@ == severity_text(*self),
    {
        match self {
            Severity::Low => "Low",
            Severity::Medium => "Medium",
            Severity::High => "High",
            Severity::Critical => "Critical",
        }
    }
}

/// A stored antigen pattern with metadata.
#[derive(Debug, Clone)]
pub struct AntigenRecord {
    /// Unique identifier for this antigen.
    pub id: u64,
    /// The pattern vector, one `f64` bit pattern per component.
    pub pattern: Vec<u64>,
    /// How many times this antigen has been encountered.
    pub encounter_count: u64,
    /// First seen timestamp (epoch ms).
    pub first_seen_ms: u64,
    /// Last seen timestamp (epoch ms).
    pub last_seen_ms: u64,
    /// Severity classification.
    pub severity: Severity,
    /// Current status of the antigen (active or expired).
    pub status: AntigenStatus,
}

/// Configuration for antigen memory.
#[derive(Debug, Clone, Copy)]
pub struct MemoryConfig {
    /// Maximum number of antigens to store.
    pub max_entries: usize,
    /// Similarity threshold for matching (L2 distance), as `f64` bits.
    pub match_threshold_bits: u64,
    /// Number of days after which an antigen expires; 0 means never.
    pub expiry_days: u32,
}

impl Default for MemoryConfig {
    fn default() -> (r: Self)
        ensures
            r.max_entries == 10_000,
            r.match_threshold_bits == 0x3FB999999999999Au64,
            r.expiry_days == 90,
    {
        // 0x3FB999999999999A is the bit pattern of 0.1.
        MemoryConfig {
            max_entries: 10_000,
            match_threshold_bits: 0x3FB999999999999Au64,
            expiry_days: 90,
        }
    }
}

/// Milliseconds in one day.
pub const MS_PER_DAY: u64 = 86_400_000;

/// Whether a record first seen at `first_seen_ms` has outlived a window of
/// `expiry_days` days at time `now_ms`: strictly more than the window has
/// passed, and a window of 0 days never expires.
pub open spec fn spec_is_expired(first_seen_ms: u64, now_ms: u64, expiry_days: u32) -> bool {
    expiry_days != 0 && now_ms > first_seen_ms && now_ms - first_seen_ms > expiry_days
        * MS_PER_DAY
}

/// One line of the CSV export.
pub open spec fn csv_line(r: AntigenRecord) -> Seq<char> {
    spec_decimal(r.id as nat) + ","@ + severity_text(r.severity) + ","@ + spec_decimal(
        r.first_seen_ms as nat,
    ) + ","@ + spec_decimal(r.last_seen_ms as nat) + ","@ + spec_decimal(
        r.encounter_count as nat,
    ) + ","@ + match r.status {
        AntigenStatus::Active => "ACTIVE"@,
        AntigenStatus::Expired => "EXPIRED"@,
    } + "\n"@
}

/// The CSV lines of a sequence of records, in order.
pub open spec fn csv_lines(rs: Seq<AntigenRecord>) -> Seq<char>
    decreases rs.len(),
{
    if rs.len() == 0 {
        Seq::empty()
    } else {
        csv_lines(rs.drop_last()) + csv_line(rs.last())
    }
}

/// The CSV header line.
pub open spec fn csv_header() -> Seq<char> {
    "antigen_id,severity,first_seen_ms,last_seen_ms,encounter_count,status\n"@
}

/// The records a store holds, as a sequence in storage order.
pub open spec fn records_of(s: Seq<(u64, AntigenRecord)>) -> Seq<AntigenRecord> {
    s.map_values(|e: (u64, AntigenRecord)| e.1)
}

/// Some record of `order` has id `id`.
pub open spec fn holds_id(order: Seq<AntigenRecord>, id: u64) -> bool {
    exists|i: int| 0 <= i < order.len() && order[i].id == id
}

/// Merging saved records, front to back, into records `order` whose next
/// id is `next`: a record whose id is already held is skipped; another is
/// appended, and the next id moves past its id.  Gives the records in
/// storage order and the next id.
pub open spec fn merged_records(order: Seq<AntigenRecord>, next: u64, loaded: Seq<AntigenRecord>) -> (
    Seq<AntigenRecord>,
    u64,
)
    decreases loaded.len(),
{
    if loaded.len() == 0 {
        (order, next)
    } else {
        let (o, n) = merged_records(order, next, loaded.drop_last());
        let r = loaded.last();
        if holds_id(o, r.id) {
            (o, n)
        } else {
            (o.push(r), if r.id >= n { (r.id + 1) as u64 } else { n })
        }
    }
}

/// The records of `m` with every record past its retention window marked
/// `Expired`.
pub open spec fn expired_view(m: Map<u64, AntigenRecord>, now_ms: u64, expiry_days: u32) -> Map<
    u64,
    AntigenRecord,
> {
    Map::new(
        |k: u64| m.dom().contains(k),
        |k: u64|
            if spec_is_expired(m[k].first_seen_ms, now_ms, expiry_days) {
                AntigenRecord { status: AntigenStatus::Expired, ..m[k] }
            } else {
                m[k]
            },
    )
}

/// Antigen memory store.
pub struct AntigenMemory {
    records: Vec<(u64, AntigenRecord)>,
    next_id: u64,
    config: MemoryConfig,
}

impl AntigenMemory {
    /// The stored records, by id.
    pub closed spec fn map(&self) -> Map<u64, AntigenRecord> {
        to_map(self.records@)
    }

    /// The stored records in storage order.
    pub closed spec fn order(&self) -> Seq<AntigenRecord> {
        records_of(self.records@)
    }

    /// The id the next stored antigen receives.
    pub closed spec fn next_id(&self) -> u64 {
        self.next_id
    }

    /// The configuration.
    pub closed spec fn config(&self) -> MemoryConfig {
        self.config
    }

    /// Well-formedness: ids are distinct, each record is stored under its
    /// own id, and every id is below the next id to hand out.
    pub closed spec fn wf(&self) -> bool {
        &&& keys_unique(self.records@)
        &&& forall|i: int|
            0 <= i < self.records@.len() ==> (#[trigger] self.records@[i]).0
                == self.records@[i].1.id && self.records@[i].0 < self.next_id
    }

    /// Invariant facts stated over the map view.
    pub proof fn lemma_wf(&self)
        requires
            self.wf(),
        ensures
            self.map().dom().finite(),
            self.map().dom().len() == self.order().len(),
            forall|k: u64| #[trigger]
                self.map().dom().contains(k) ==> self.map()[k].id == k && k < self.next_id(),
            !self.map().dom().contains(self.next_id()),
    {
        lemma_len(self.records@);
        assert forall|k: u64| #[trigger] self.map().dom().contains(k) implies self.map()[k].id == k
            && k < self.next_id() by {
            let i = lemma_index_of(self.records@, k);
        }
    }

    /// Create a new antigen memory store.
    pub fn new(config: MemoryConfig) -> (r: Self)
        ensures
            r.wf(),
            r.map() == Map::<u64, AntigenRecord>::empty(),
            r.next_id() == 1,
            r.config() == config,
    {
        let r = AntigenMemory { records: Vec::new(), next_id: 1, config };
        assert(r.records@ =~= Seq::<(u64, AntigenRecord)>::empty());
        r
    }

    /// Position of the first record with the fewest encounters.
    fn least_encountered(&self) -> (r: usize)
        requires
            self.wf(),
            self.records@.len() > 0,
        ensures
            r < self.records@.len(),
            forall|j: int|
                0 <= j < self.records@.len() ==> self.records@[r as int].1.encounter_count
                    <= #[trigger] self.records@[j].1.encounter_count,
    {
        let mut best: usize = 0;
        let mut i: usize = 1;
        while i < self.records.len()
            invariant
                1 <= i <= self.records@.len(),
                best < i,
                forall|j: int|
                    0 <= j < i ==> self.records@[best as int].1.encounter_count
                        <= #[trigger] self.records@[j].1.encounter_count,
            decreases self.records@.len() - i,
        {
            if self.records[i].1.encounter_count < self.records[best].1.encounter_count {
                best = i;
            }
            i += 1;
        }
        best
    }

    /// Store a new antigen pattern and return the id assigned to it.
    ///
    /// If the memory already holds `max_entries` records, a record with the
    /// lowest encounter count is evicted first.
    pub fn store(&mut self, pattern: Vec<u64>, severity: Severity, now_ms: u64) -> (id: u64)
        requires
            old(self).wf(),
            old(self).next_id() < u64::MAX,
        ensures
            final(self).wf(),
            final(self).config() == old(self).config(),
            id == old(self).next_id(),
            final(self).next_id() == id + 1,
            ({
                let rec = AntigenRecord {
                    id,
                    pattern,
                    encounter_count: 1,
                    first_seen_ms: now_ms,
                    last_seen_ms: now_ms,
                    severity,
                    status: AntigenStatus::Active,
                };
                if old(self).map().dom().len() >= old(self).config().max_entries && old(
                    self,
                ).map().dom().len() > 0 {
                    exists|e: u64|
                        #![trigger old(self).map()[e]]
                        old(self).map().dom().contains(e) && (forall|k: u64| #[trigger]
                            old(self).map().dom().contains(k) ==> old(self).map()[e].encounter_count
                                <= old(self).map()[k].encounter_count) && final(self).map()
                            == old(self).map().remove(e).insert(id, rec)
                } else {
                    final(self).map() == old(self).map().insert(id, rec)
                }
            }),
    {
        proof {
            self.lemma_wf();
            lemma_len(self.records@);
        }
        let ghost old_map = self.map();
        let ghost mut evicted: u64 = 0;
        if self.records.len() >= self.config.max_entries && self.records.len() > 0 {
            let i = self.least_encountered();
            proof {
                evicted = self.records@[i as int].0;
                lemma_index(self.records@, i as int);
                lemma_remove(self.records@, i as int);
                assert forall|k: u64| #[trigger] old_map.dom().contains(k) implies old_map[evicted].encounter_count
                    <= old_map[k].encounter_count by {
                    let j = lemma_index_of(self.records@, k);
                }
            }
            self.records.remove(i);
        }
        let ghost mid = self.records@;
        let id = self.next_id;
        self.next_id = self.next_id + 1;
        let rec = AntigenRecord {
            id,
            pattern,
            encounter_count: 1,
            first_seen_ms: now_ms,
            last_seen_ms: now_ms,
            severity,
            status: AntigenStatus::Active,
        };
        proof {
            lemma_dom(mid, id);
            if to_map(mid).dom().contains(id) {
                let j = lemma_index_of(mid, id);
            }
            lemma_push(mid, id, rec);
        }
        self.records.push((id, rec));
        id
    }

    /// Whether a record has exceeded the retention window of `expiry_days`
    /// days at time `now_ms` (a window of 0 days never expires).
    pub fn is_expired(record: &AntigenRecord, now_ms: u64, expiry_days: u32) -> (r: bool)
        ensures
            r == spec_is_expired(record.first_seen_ms, now_ms, expiry_days),
    {
        if expiry_days == 0 {
            return false;
        }
        let expiry_ms: u64 = (expiry_days as u64) * MS_PER_DAY;
        now_ms.saturating_sub(record.first_seen_ms) > expiry_ms
    }

    fn find(&self, id: u64) -> (r: Option<usize>)
        requires
            self.wf(),
        ensures
            match r {
                Some(i) => i < self.records@.len() && self.records@[i as int].0 == id,
                None => !self.map().dom().contains(id),
            },
    {
        let mut i: usize = 0;
        while i < self.records.len()
            invariant
                i <= self.records@.len(),
                forall|j: int| 0 <= j < i ==> self.records@[j].0 != id,
            decreases self.records@.len() - i,
        {
            if self.records[i].0 == id {
                return Some(i);
            }
            i += 1;
        }
        proof {
            lemma_dom(self.records@, id);
        }
        None
    }

    /// Record a re-encounter of an antigen: its count grows by one and its
    /// last-seen time becomes `now_ms`.  An unknown id changes nothing.
    pub fn record_encounter(&mut self, id: u64, now_ms: u64)
        requires
            old(self).wf(),
            old(self).map().dom().contains(id) ==> old(self).map()[id].encounter_count < u64::MAX,
        ensures
            final(self).wf(),
            final(self).config() == old(self).config(),
            final(self).next_id() == old(self).next_id(),
            if old(self).map().dom().contains(id) {
                final(self).map() == old(self).map().insert(
                    id,
                    AntigenRecord {
                        encounter_count: (old(self).map()[id].encounter_count + 1) as u64,
                        last_seen_ms: now_ms,
                        ..old(self).map()[id]
                    },
                )
            } else {
                final(self).map() == old(self).map()
            },
    {
        match self.find(id) {
            Some(i) => {
                proof {
                    lemma_index(self.records@, i as int);
                }
                let mut rec = self.records.remove(i);
                rec.1.encounter_count = rec.1.encounter_count + 1;
                rec.1.last_seen_ms = now_ms;
                self.records.insert(i, rec);
                proof {
                    let s0 = old(self).records@;
                    assert(self.records@ =~= s0.update(i as int, (s0[i as int].0, rec.1)));
                    lemma_update(s0, i as int, rec.1);
                }
            },
            None => {},
        }
    }

    /// Get a reference to a stored antigen.
    pub fn get(&self, id: u64) -> (r: Option<&AntigenRecord>)
        requires
            self.wf(),
        ensures
            match r {
                Some(rec) => self.map().dom().contains(id) && *rec == self.map()[id],
                None => !self.map().dom().contains(id),
            },
    {
        match self.find(id) {
            Some(i) => {
                proof {
                    lemma_index(self.records@, i as int);
                }
                Some(&self.records[i].1)
            },
            None => None,
        }
    }

    /// Get the number of stored antigens.
    pub fn len(&self) -> (r: usize)
        requires
            self.wf(),
        ensures
            r == self.map().dom().len(),
    {
        proof {
            lemma_len(self.records@);
        }
        self.records.len()
    }

    /// Check if memory is empty.
    pub fn is_empty(&self) -> (r: bool)
        requires
            self.wf(),
        ensures
            r == (self.map().dom().len() == 0),
    {
        proof {
            lemma_len(self.records@);
        }
        self.records.len() == 0
    }

    /// The stored records, in storage order.
    pub fn records(&self) -> (r: Vec<&AntigenRecord>)
        requires
            self.wf(),
        ensures
            r@.len() == self.order().len(),
            forall|i: int| 0 <= i < r@.len() ==> *r@[i] == self.order()[i],
    {
        let mut out: Vec<&AntigenRecord> = Vec::new();
        let mut i: usize = 0;
        while i < self.records.len()
            invariant
                i <= self.records@.len(),
                out@.len() == i,
                forall|j: int| 0 <= j < i ==> *out@[j] == self.records@[j].1,
            decreases self.records@.len() - i,
        {
            out.push(&self.records[i].1);
            i += 1;
        }
        out
    }

    /// The configuration.
    pub fn get_config(&self) -> (r: MemoryConfig)
        ensures
            r == self.config(),
    {
        self.config
    }

    /// Mark every antigen older than the configured expiry window as
    /// `Expired`.  With `expiry_days == 0` nothing changes.
    pub fn expire_old(&mut self, now_ms: u64)
        requires
            old(self).wf(),
        ensures
            final(self).wf(),
            final(self).config() == old(self).config(),
            final(self).next_id() == old(self).next_id(),
            final(self).map().dom() == old(self).map().dom(),
            forall|k: u64| #[trigger]
                final(self).map().dom().contains(k) ==> final(self).map()[k] == (if spec_is_expired(
                    old(self).map()[k].first_seen_ms,
                    now_ms,
                    old(self).config().expiry_days,
                ) {
                    AntigenRecord { status: AntigenStatus::Expired, ..old(self).map()[k] }
                } else {
                    old(self).map()[k]
                }),
    {
        let expiry_days = self.config.expiry_days;
        let ghost old_map = self.map();
        let ghost target = expired_view(old_map, now_ms, expiry_days);
        let mut i: usize = 0;
        while i < self.records.len()
            invariant
                i <= self.records@.len(),
                self.records@.len() == old(self).records@.len(),
                self.next_id == old(self).next_id,
                self.config == old(self).config,
                expiry_days == self.config.expiry_days,
                old_map == to_map(old(self).records@),
                target == expired_view(old_map, now_ms, expiry_days),
                keys_unique(old(self).records@),
                forall|j: int|
                    0 <= j < old(self).records@.len() ==> (#[trigger] old(self).records@[j]).0
                        == old(self).records@[j].1.id && old(self).records@[j].0 < old(
                        self,
                    ).next_id,
                forall|j: int|
                    0 <= j < self.records@.len() ==> (#[trigger] self.records@[j]).0 == old(
                        self,
                    ).records@[j].0,
                forall|j: int|
                    i <= j < self.records@.len() ==> #[trigger] self.records@[j] == old(
                        self,
                    ).records@[j],
                forall|j: int|
                    0 <= j < i ==> (#[trigger] self.records@[j]).1 == target[old(
                        self,
                    ).records@[j].0],
            decreases self.records@.len() - i,
        {
            let ghost pre = self.records@;
            let ghost k = old(self).records@[i as int].0;
            proof {
                lemma_index(old(self).records@, i as int);
                assert(old_map.dom().contains(k));
                assert(target.dom().contains(k));
                assert(old_map[k] == pre[i as int].1);
            }
            if Self::is_expired(&self.records[i].1, now_ms, expiry_days) {
                let mut rec = self.records.remove(i);
                rec.1.status = AntigenStatus::Expired;
                self.records.insert(i, rec);
                proof {
                    assert(self.records@ =~= pre.update(i as int, rec));
                    assert(rec.1 == target[k]);
                }
            } else {
                proof {
                    assert(pre[i as int].1 == target[k]);
                }
            }
            i += 1;
        }
        proof {
            let s = self.records@;
            let o = old(self).records@;
            assert forall|a: int, b: int| 0 <= a < b < s.len() implies s[a].0 != s[b].0 by {
                assert(s[a].0 == o[a].0);
                assert(s[b].0 == o[b].0);
            }
            assert forall|k: u64| #[trigger] to_map(s).dom().contains(k) <==> old_map.dom().contains(
                k,
            ) by {
                lemma_dom(s, k);
                lemma_dom(o, k);
                if exists|j: int| 0 <= j < s.len() && s[j].0 == k {
                    let j = choose|j: int| 0 <= j < s.len() && s[j].0 == k;
                    assert(o[j].0 == k);
                }
                if exists|j: int| 0 <= j < o.len() && o[j].0 == k {
                    let j = choose|j: int| 0 <= j < o.len() && o[j].0 == k;
                    assert(s[j].0 == k);
                }
            }
            assert forall|k: u64| #[trigger] to_map(s).dom().contains(k) implies to_map(s)[k]
                == target[k] by {
                let j = lemma_index_of(s, k);
            }
            assert(to_map(s).dom() =~= old_map.dom());
            assert forall|j: int| 0 <= j < s.len() implies (#[trigger] s[j]).0 == s[j].1.id && s[j].0
                < self.next_id by {
                lemma_index(o, j);
                assert(s[j].1 == target[o[j].0]);
            }
        }
    }

    /// The id the next stored antigen receives.
    pub fn peek_next_id(&self) -> (r: u64)
        ensures
            r == self.next_id(),
    {
        self.next_id
    }

    /// Move the next id to hand out up to `next_id` (it never moves back,
    /// so ids in use stay unique).
    pub fn advance_next_id(&mut self, next_id: u64)
        requires
            old(self).wf(),
        ensures
            final(self).wf(),
            final(self).map() == old(self).map(),
            final(self).order() == old(self).order(),
            final(self).config() == old(self).config(),
            final(self).next_id() == if next_id > old(self).next_id() {
                next_id
            } else {
                old(self).next_id()
            },
    {
        if next_id > self.next_id {
            self.next_id = next_id;
        }
    }

    /// Merge previously saved records into the store.
    ///
    /// Records whose id is already present are skipped; the others are
    /// added and the next id moves past them.  Returns how many were added.
    pub fn merge_records(&mut self, loaded: Vec<AntigenRecord>) -> (n: usize)
        requires
            old(self).wf(),
            forall|i: int| 0 <= i < loaded@.len() ==> (#[trigger] loaded@[i]).id < u64::MAX,
        ensures
            final(self).wf(),
            final(self).config() == old(self).config(),
            n <= loaded@.len(),
            final(self).map().dom().len() == old(self).map().dom().len() + n,
            forall|k: u64| #[trigger]
                old(self).map().dom().contains(k) ==> final(self).map().dom().contains(k)
                    && final(self).map()[k] == old(self).map()[k],
            forall|i: int|
                0 <= i < loaded@.len() ==> final(self).map().dom().contains(
                    (#[trigger] loaded@[i]).id,
                ),
            forall|k: u64| #[trigger]
                final(self).map().dom().contains(k) && !old(self).map().dom().contains(k)
                    ==> exists|i: int|
                    0 <= i < loaded@.len() && loaded@[i].id == k && final(self).map()[k]
                        == #[trigger] loaded@[i],
            final(self).next_id() >= old(self).next_id(),
            (final(self).order(), final(self).next_id()) == merged_records(old(self).order(), old(self).next_id(), loaded@),
            final(self).order().len() == old(self).order().len() + n,
    {
        let mut loaded = loaded;
        let ghost all = loaded@;
        let total: usize = loaded.len();
        let mut added: usize = 0;
        let mut i: usize = 0;
        proof {
            lemma_len(self.records@);
        }
        while loaded.len() > 0
            invariant
                loaded@ == all.subrange(i as int, all.len() as int),
                i <= all.len(),
                all.len() == total,
                added <= i,
                self.wf(),
                self.config == old(self).config,
                self.next_id >= old(self).next_id,
                to_map(self.records@).dom().len() == to_map(old(self).records@).dom().len() + added,
                forall|k: u64| #[trigger]
                    to_map(old(self).records@).dom().contains(k) ==> to_map(
                        self.records@,
                    ).dom().contains(k) && to_map(self.records@)[k] == to_map(
                        old(self).records@,
                    )[k],
                forall|j: int|
                    0 <= j < i ==> to_map(self.records@).dom().contains((#[trigger] all[j]).id),
                forall|k: u64| #[trigger]
                    to_map(self.records@).dom().contains(k) && !to_map(
                        old(self).records@,
                    ).dom().contains(k) ==> exists|j: int|
                        0 <= j < all.len() && all[j].id == k && to_map(self.records@)[k]
                            == #[trigger] all[j],
                forall|j: int| 0 <= j < all.len() ==> (#[trigger] all[j]).id < u64::MAX,
                (records_of(self.records@), self.next_id) == merged_records(
                    records_of(old(self).records@),
                    old(self).next_id,
                    all.subrange(0, i as int),
                ),
                self.records@.len() == old(self).records@.len() + added,
            decreases loaded@.len(),
        {
            let rec = loaded.remove(0);
            proof {
                assert(rec == all[i as int]);
                assert(loaded@ =~= all.subrange(i + 1, all.len() as int));
                assert(all.subrange(0, i + 1).drop_last() =~= all.subrange(0, i as int));
                let o = records_of(self.records@);
                lemma_dom(self.records@, rec.id);
                if holds_id(o, rec.id) {
                    let k = choose|k: int| 0 <= k < o.len() && o[k].id == rec.id;
                    assert(self.records@[k].0 == rec.id);
                }
                if has_key(self.records@, rec.id) {
                    let k = choose|k: int| 0 <= k < self.records@.len() && self.records@[k].0 == rec.id;
                    assert(o[k].id == rec.id);
                }
            }
            let rid = rec.id;
            match self.find(rid) {
                Some(_) => {},
                None => {
                    let ghost pre = self.records@;
                    if rid >= self.next_id {
                        self.next_id = rid + 1;
                    }
                    proof {
                        lemma_push(pre, rid, rec);
                        lemma_len(pre);
                        lemma_len(pre.push((rid, rec)));
                        assert(to_map(pre.push((rid, rec)))[rid] == all[i as int]);
                    }
                    self.records.push((rid, rec));
                    proof {
                        assert(records_of(self.records@) =~= records_of(pre).push(rec));
                    }
                    added += 1;
                },
            }
            proof {
                lemma_dom(self.records@, rid);
            }
            i += 1;
        }
        proof {
            assert(all.subrange(0, all.len() as int) =~= all);
        }
        added
    }

    /// Export all antigen records as CSV: a header line, then one line per
    /// record in storage order.
    pub fn export_csv(&self) -> (r: String)
        requires
            self.wf(),
        ensures
            r@ == csv_header() + csv_lines(self.order()),
    {
        let mut csv = String::from_str(
            "antigen_id,severity,first_seen_ms,last_seen_ms,encounter_count,status\n",
        );
        let mut i: usize = 0;
        while i < self.records.len()
            invariant
                i <= self.records@.len(),
                csv@ == csv_header() + csv_lines(records_of(self.records@).subrange(0, i as int)),
            decreases self.records@.len() - i,
        {
            let rec = &self.records[i].1;
            let ghost before = csv@;
            push_csv_line(&mut csv, rec);
            proof {
                let rs = records_of(self.records@);
                assert(rs.subrange(0, i + 1).drop_last() =~= rs.subrange(0, i as int));
                assert(rs.subrange(0, i + 1).last() == *rec);
                assert(csv@ =~= before + csv_line(*rec));
            }
            i += 1;
        }
        proof {
            assert(records_of(self.records@).subrange(0, self.records@.len() as int) =~= records_of(
                self.records@,
            ));
        }
        csv
    }
}

/// Append the CSV line of one record.
fn push_csv_line(csv: &mut String, rec: &AntigenRecord)
    ensures
        final(csv)@ == old(csv)@ + csv_line(*rec),
{
    push_decimal(csv, rec.id);
    csv.append(",");
    csv.append(rec.severity.name());
    csv.append(",");
    push_decimal(csv, rec.first_seen_ms);
    csv.append(",");
    push_decimal(csv, rec.last_seen_ms);
    csv.append(",");
    push_decimal(csv, rec.encounter_count);
    csv.append(",");
    match rec.status {
        AntigenStatus::Active => csv.append("ACTIVE"),
        AntigenStatus::Expired => csv.append("EXPIRED"),
    }
    csv.append("\n");
    proof {
        assert(final(csv)@ =~= old(csv)@ + csv_line(*rec));
    }
}

impl Default for AntigenMemory {
    fn default() -> (r: Self)
        ensures
            r.wf(),
            r.map() == Map::<u64, AntigenRecord>::empty(),
            r.next_id() == 1,
            r.config().max_entries == 10_000,
            r.config().expiry_days == 90,
    {
        Self::new(MemoryConfig::default())
    }
}

} // verus!
