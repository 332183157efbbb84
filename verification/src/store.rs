//! The in-memory state of the embedded storage engine.
//!
//! Writes reach the engine as write-ahead-log entries.  An `INSERT` entry
//! stores its data in a fresh checksummed page and points the entry's key
//! at that page; later inserts under the same key win.  Recovery replays
//! logged entries in order, skipping those whose data no longer matches
//! their checksum.
use vstd::prelude::*;
use vstd::string::*;
use vstd::utf8::{valid_utf8, decode_utf8, encode_utf8, decode_utf8_encode_utf8};
use vstd::slice::slice_to_vec;
use crate::assoc::{keys_unique, to_map, lemma_dom, lemma_index, lemma_push, lemma_update};
use crate::error::StorageError;
use crate::page::{Page, PageConfig, crc32, checksum};

verus! {

/// The text `String::from_utf8_lossy` makes of a byte sequence.
pub uninterp spec fn lossy_text(bytes: Seq<u8>) -> Seq<char>;

/// `String::from_utf8_lossy(bytes).into_owned()`: the bytes decoded as
/// UTF-8 with invalid sequences replaced.  For valid UTF-8 input it is the
/// plain decoding, as the function's documentation states.
#[verifier::external_body]
fn lossy_string(bytes: &[u8]) -> (r: String)
    ensures
        r@ == lossy_text(bytes@),
        valid_utf8(bytes@) ==> r@ == decode_utf8(bytes@),
{
    String::from_utf8_lossy(bytes).into_owned()
}

/// A single entry in the write-ahead log.
#[derive(Debug, Clone)]
pub struct WalEntry {
    /// Unix timestamp in milliseconds.
    pub timestamp_ms: u64,
    /// Operation type (e.g. "INSERT", "UPDATE", "DELETE").
    pub operation: String,
    /// Target table / namespace.
    pub table: String,
    /// Serialized data payload.
    pub data: Vec<u8>,
    /// CRC32 checksum of the data field.
    pub checksum: u32,
}

/// Report produced after a storage recovery operation.
#[derive(Debug, Clone, Copy, PartialEq, Eq)]
pub struct RecoveryReport {
    /// Number of WAL entries replayed.
    pub wal_entries_replayed: usize,
    /// Number of pages recovered.
    pub pages_recovered: usize,
    /// Number of checksum failures encountered.
    pub checksum_failures: usize,
    /// Whether data integrity was verified.
    pub data_integrity_valid: bool,
}

/// Contract for the storage layer.
pub trait StorageBackend {
    /// Read a value by key.
    fn read(&self, key: &[u8]) -> Result<Option<Vec<u8>>, StorageError>;

    /// Write a key-value pair.
    fn write(&mut self, key: &[u8], value: &[u8]) -> Result<(), StorageError>;

    /// Flush all pending writes to durable storage.
    fn flush(&mut self) -> Result<(), StorageError>;

    /// Recover state from the write-ahead log after a crash.
    fn recover(&mut self) -> Result<RecoveryReport, StorageError>;
}

/// Whether an entry is an insert.
pub open spec fn is_insert(e: WalEntry) -> bool {
    e.operation@ == "INSERT"@
}

/// The key an entry writes: the UTF-8 bytes of its table name.
pub open spec fn entry_key(e: WalEntry) -> Seq<u8> {
    encode_utf8(e.table@)
}

/// Whether an entry's data still matches its checksum.
pub open spec fn entry_intact(e: WalEntry) -> bool {
    crc32(e.data@) == e.checksum
}

/// The abstract state of the store: page contents by page id, and for
/// each key the id of the page it points to.
pub struct StoreView {
    pub pages: Seq<Seq<u8>>,
    pub index: Map<Seq<u8>, nat>,
}

/// The store with nothing written.
pub open spec fn empty_view() -> StoreView {
    StoreView { pages: Seq::empty(), index: Map::empty() }
}

/// Applying one log entry: an insert appends a page holding its data and
/// points its key there; any other operation changes nothing.
pub open spec fn view_apply(v: StoreView, e: WalEntry) -> StoreView {
    if is_insert(e) {
        StoreView { pages: v.pages.push(e.data@), index: v.index.insert(entry_key(e), v.pages.len()) }
    } else {
        v
    }
}

/// Applying a sequence of entries in order.
pub open spec fn view_apply_all(v: StoreView, es: Seq<WalEntry>) -> StoreView
    decreases es.len(),
{
    if es.len() == 0 {
        v
    } else {
        view_apply(view_apply_all(v, es.drop_last()), es.last())
    }
}

/// Replaying a log: entries are applied in order, and those whose data no
/// longer matches their checksum are skipped.
pub open spec fn view_replay(v: StoreView, es: Seq<WalEntry>) -> StoreView
    decreases es.len(),
{
    if es.len() == 0 {
        v
    } else {
        let prev = view_replay(v, es.drop_last());
        if entry_intact(es.last()) {
            view_apply(prev, es.last())
        } else {
            prev
        }
    }
}

/// The value stored under a key, if any.
pub open spec fn view_read(v: StoreView, key: Seq<u8>) -> Option<Seq<u8>> {
    if v.index.dom().contains(key) && v.index[key] < v.pages.len() {
        Some(v.pages[v.index[key] as int])
    } else {
        None
    }
}

/// The in-memory page store and key index.
pub struct PageStore {
    pages: Vec<Page>,
    index: Vec<(Vec<u8>, usize)>,
    next_page_id: u64,
    page_config: PageConfig,
}

/// The index entries with their keys taken as byte sequences.
pub open spec fn index_pairs(s: Seq<(Vec<u8>, usize)>) -> Seq<(Seq<u8>, usize)> {
    s.map_values(|e: (Vec<u8>, usize)| (e.0@, e.1))
}

/// Byte-wise equality of two slices.
fn bytes_eq(a: &[u8], b: &[u8]) -> (r: bool)
    ensures
        r == (a@ == b@),
{
    if a.len() != b.len() {
        return false;
    }
    let mut i: usize = 0;
    while i < a.len()
        invariant
            a@.len() == b@.len(),
            i <= a@.len(),
            forall|j: int| 0 <= j < i ==> a@[j] == b@[j],
        decreases a@.len() - i,
    {
        if a[i] != b[i] {
            return false;
        }
        i += 1;
    }
    assert(a@ =~= b@);
    true
}

impl PageStore {
    /// The abstract state.
    pub closed spec fn view(&self) -> StoreView {
        StoreView {
            pages: self.pages@.map_values(|p: Page| p.spec_data()),
            index: to_map(index_pairs(self.index@)).map_values(|id: usize| id as nat),
        }
    }

    /// The page configuration new pages are made with.
    pub closed spec fn config(&self) -> PageConfig {
        self.page_config
    }

    /// Well-formedness: page `i` has id `i` and a checksum that matches its
    /// data, keys are distinct, and every key points at an existing page.
    pub closed spec fn wf(&self) -> bool {
        &&& self.next_page_id == self.pages@.len()
        &&& forall|i: int|
            0 <= i < self.pages@.len() ==> (#[trigger] self.pages@[i]).spec_id() == i
                && self.pages@[i].spec_checksum() == crc32(self.pages@[i].spec_data())
        &&& keys_unique(index_pairs(self.index@))
        &&& forall|i: int|
            0 <= i < self.index@.len() ==> (#[trigger] self.index@[i]).1 < self.pages@.len()
    }

    /// An empty store whose pages are made with `page_config`.
    pub fn new(page_config: PageConfig) -> (r: Self)
        ensures
            r.wf(),
            r.view() == empty_view(),
            r.config() == page_config,
    {
        let r = PageStore { pages: Vec::new(), index: Vec::new(), next_page_id: 0, page_config };
        proof {
            assert(r.view().pages =~= Seq::<Seq<u8>>::empty());
            assert(index_pairs(r.index@) =~= Seq::<(Seq<u8>, usize)>::empty());
            assert(r.view().index =~= Map::<Seq<u8>, nat>::empty());
        }
        r
    }

    /// Number of pages held.
    pub fn page_count(&self) -> (r: usize)
        ensures
            r == self.view().pages.len(),
    {
        self.pages.len()
    }

    fn find_key(&self, key: &[u8]) -> (r: Option<usize>)
        requires
            self.wf(),
        ensures
            match r {
                Some(i) => i < self.index@.len() && self.index@[i as int].0@ == key@,
                None => !to_map(index_pairs(self.index@)).dom().contains(key@),
            },
    {
        let mut i: usize = 0;
        while i < self.index.len()
            invariant
                i <= self.index@.len(),
                forall|j: int| 0 <= j < i ==> self.index@[j].0@ != key@,
            decreases self.index@.len() - i,
        {
            if bytes_eq(self.index[i].0.as_slice(), key) {
                return Some(i);
            }
            i += 1;
        }
        proof {
            lemma_dom(index_pairs(self.index@), key@);
        }
        None
    }

    /// Apply a single log entry to the in-memory store.
    pub fn apply_entry(&mut self, entry: &WalEntry)
        requires
            old(self).wf(),
            old(self).view().pages.len() < u64::MAX,
        ensures
            final(self).wf(),
            final(self).config() == old(self).config(),
            final(self).view() == view_apply(old(self).view(), *entry),
    {
        let insert = String::from_str("INSERT");
        if entry.operation.eq(&insert) {
            let ghost old_view = self.view();
            let page_id = self.next_page_id;
            let pos: usize = self.pages.len();
            self.next_page_id = self.next_page_id + 1;
            let data = slice_to_vec(entry.data.as_slice());
            let page = Page::with_config(page_id, data, &self.page_config);
            self.pages.push(page);
            let key = slice_to_vec(entry.table.as_str().as_bytes());
            let ghost pairs = index_pairs(self.index@);
            match self.find_key(key.as_slice()) {
                Some(i) => {
                    proof {
                        lemma_update(pairs, i as int, pos);
                        assert(index_pairs(self.index@.update(i as int, (key, pos)))
                            =~= pairs.update(i as int, (pairs[i as int].0, pos)));
                    }
                    self.index.set(i, (key, pos));
                },
                None => {
                    proof {
                        lemma_push(pairs, key@, pos);
                        assert(index_pairs(self.index@.push((key, pos))) =~= pairs.push(
                            (key@, pos),
                        ));
                    }
                    self.index.push((key, pos));
                },
            }
            proof {
                let nv = self.view();
                let target = view_apply(old_view, *entry);
                assert(nv.pages =~= target.pages);
                assert(nv.index =~= target.index);
                assert forall|i: int| 0 <= i < self.index@.len() implies (#[trigger] self.index@[i]).1
                    < self.pages@.len() by {
                    if self.index@[i].1 != pos {
                        let p = index_pairs(self.index@);
                        assert(p[i].1 == self.index@[i].1);
                    }
                }
            }
        }
    }

    /// Read the value stored under `key`: the data of the page the key
    /// points to, after checking that page's checksum.
    pub fn read(&self, key: &[u8]) -> (r: Result<Option<Vec<u8>>, StorageError>)
        requires
            self.wf(),
        ensures
            match r {
                Ok(Some(v)) => view_read(self.view(), key@) == Some(v@),
                Ok(None) => view_read(self.view(), key@) is None,
                Err(_) => false,
            },
    {
        match self.find_key(key) {
            Some(i) => {
                let page_id = self.index[i].1;
                proof {
                    let p = index_pairs(self.index@);
                    assert(p[i as int] == (key@, page_id));
                    lemma_index(p, i as int);
                    assert(self.view().index.dom().contains(key@));
                    assert(self.view().index[key@] == page_id as nat);
                    assert(self.index@[i as int].1 < self.pages@.len());
                    assert(self.pages@[page_id as int].spec_checksum() == crc32(
                        self.pages@[page_id as int].spec_data(),
                    ));
                    assert(self.view().pages[page_id as int] == self.pages@[page_id as int].spec_data());
                }
                let page = &self.pages[page_id];
                proof {
                    assert(*page == self.pages@[page_id as int]);
                }
                match page.verify() {
                    Ok(()) => Ok(Some(slice_to_vec(page.bytes()))),
                    Err(e) => Err(e),
                }
            },
            None => Ok(None),
        }
    }

    /// Replay logged entries after a crash: entries whose data matches
    /// their checksum are applied in order, the others are skipped.  The
    /// report counts the entries read, the pages now held and the pages
    /// whose checksum fails (never any: pages are checksummed when made).
    pub fn recover_from(&mut self, entries: &Vec<WalEntry>) -> (r: RecoveryReport)
        requires
            old(self).wf(),
            old(self).view().pages.len() + entries@.len() < u64::MAX,
        ensures
            final(self).wf(),
            final(self).config() == old(self).config(),
            final(self).view() == view_replay(old(self).view(), entries@),
            r.wal_entries_replayed == entries@.len(),
            r.pages_recovered == final(self).view().pages.len(),
            r.checksum_failures == 0,
            r.data_integrity_valid,
    {
        let mut i: usize = 0;
        while i < entries.len()
            invariant
                i <= entries@.len(),
                self.wf(),
                self.page_config == old(self).page_config,
                self.view() == view_replay(old(self).view(), entries@.subrange(0, i as int)),
                self.view().pages.len() <= old(self).view().pages.len() + i,
                old(self).view().pages.len() + entries@.len() < u64::MAX,
            decreases entries@.len() - i,
        {
            let entry = &entries[i];
            proof {
                assert(entries@.subrange(0, i + 1).drop_last() =~= entries@.subrange(0, i as int));
                assert(entries@.subrange(0, i + 1).last() == entries@[i as int]);
            }
            if checksum(entry.data.as_slice()) == entry.checksum {
                self.apply_entry(entry);
            }
            i += 1;
        }
        proof {
            assert(entries@.subrange(0, entries@.len() as int) =~= entries@);
        }
        let pages_recovered = self.pages.len();
        let mut failures: usize = 0;
        let mut j: usize = 0;
        while j < self.pages.len()
            invariant
                self.wf(),
                j <= self.pages@.len(),
                failures == 0,
            decreases self.pages@.len() - j,
        {
            if self.pages[j].verify().is_err() {
                failures = failures + 1;
            }
            j += 1;
        }
        RecoveryReport {
            wal_entries_replayed: entries.len(),
            pages_recovered,
            checksum_failures: failures,
            data_integrity_valid: failures == 0,
        }
    }
}

impl WalEntry {
    /// The log entry a write of `value` under `key` produces: an insert at
    /// time 0 whose table is the key decoded as UTF-8 (invalid sequences
    /// replaced) and whose checksum is the CRC32 of the value.
    pub fn insert(key: &[u8], value: &[u8]) -> (r: WalEntry)
        ensures
            is_insert(r),
            r.timestamp_ms == 0,
            r.table@ == lossy_text(key@),
            valid_utf8(key@) ==> entry_key(r) == key@,
            r.data@ == value@,
            r.checksum == crc32(value@),
            entry_intact(r),
    {
        let table = lossy_string(key);
        proof {
            if valid_utf8(key@) {
                decode_utf8_encode_utf8(key@);
            }
        }
        WalEntry {
            timestamp_ms: 0,
            operation: String::from_str("INSERT"),
            table,
            data: slice_to_vec(value),
            checksum: checksum(value),
        }
    }
}

/// Reading a key right after an insert under it gives back the inserted
/// data.
pub proof fn lemma_read_after_write(v: StoreView, e: WalEntry)
    requires
        is_insert(e),
    ensures
        view_read(view_apply(v, e), entry_key(e)) == Some(e.data@),
{
}

/// An insert leaves the value of every other key as it was.
pub proof fn lemma_write_keeps_other_keys(v: StoreView, e: WalEntry, k: Seq<u8>)
    requires
        k != entry_key(e),
        forall|key: Seq<u8>| #[trigger] v.index.dom().contains(key) ==> v.index[key] < v.pages.len(),
    ensures
        view_read(view_apply(v, e), k) == view_read(v, k),
{
}

/// Replaying a log whose entries are all intact rebuilds exactly the state
/// that applying them did: recovery after a crash loses no write.
pub proof fn lemma_replay_rebuilds(v: StoreView, es: Seq<WalEntry>)
    requires
        forall|i: int| 0 <= i < es.len() ==> entry_intact(#[trigger] es[i]),
    ensures
        view_replay(v, es) == view_apply_all(v, es),
    decreases es.len(),
{
    if es.len() > 0 {
        lemma_replay_rebuilds(v, es.drop_last());
        assert(entry_intact(es[es.len() - 1]));
    }
}

/// A log entry whose data no longer matches its checksum changes nothing
/// when replayed.
pub proof fn lemma_replay_skips_corrupted(v: StoreView, es: Seq<WalEntry>, e: WalEntry)
    requires
        !entry_intact(e),
    ensures
        view_replay(v, es.push(e)) == view_replay(v, es),
{
    assert(es.push(e).drop_last() =~= es);
}

} // verus!
