//! Association lists.
//!
//! Several stores of this library keep their entries in a `Vec<(K, V)>`
//! whose keys are pairwise distinct.  This module gives such a list its
//! mathematical meaning, a finite `Map<K, V>`, and the lemmas that relate
//! the usual `Vec` edits to the corresponding map edits.
use vstd::prelude::*;

verus! {

/// No key occurs twice in `s`.
pub open spec fn keys_unique<K, V>(s: Seq<(K, V)>) -> bool {
    forall|i: int, j: int| 0 <= i < j < s.len() ==> s[i].0 != s[j].0
}

/// The map that an association list stands for: later entries win, which
/// only matters when keys repeat.
pub open spec fn to_map<K, V>(s: Seq<(K, V)>) -> Map<K, V>
    decreases s.len(),
{
    if s.len() == 0 {
        Map::empty()
    } else {
        to_map(s.drop_last()).insert(s.last().0, s.last().1)
    }
}

/// `k` is the key of some entry of `s`.
pub open spec fn has_key<K, V>(s: Seq<(K, V)>, k: K) -> bool {
    exists|i: int| 0 <= i < s.len() && s[i].0 == k
}

pub proof fn lemma_dom<K, V>(s: Seq<(K, V)>, k: K)
    ensures
        to_map(s).dom().contains(k) <==> has_key(s, k),
    decreases s.len(),
{
    if s.len() > 0 {
        lemma_dom(s.drop_last(), k);
        if has_key(s.drop_last(), k) {
            let i = choose|i: int| 0 <= i < s.drop_last().len() && s.drop_last()[i].0 == k;
            assert(s[i].0 == k);
        }
        if has_key(s, k) && s.last().0 != k {
            let i = choose|i: int| 0 <= i < s.len() && s[i].0 == k;
            assert(s.drop_last()[i].0 == k);
        }
    }
}

pub proof fn lemma_finite<K, V>(s: Seq<(K, V)>)
    ensures
        to_map(s).dom().finite(),
    decreases s.len(),
{
    if s.len() > 0 {
        lemma_finite(s.drop_last());
    }
}

pub proof fn lemma_index<K, V>(s: Seq<(K, V)>, i: int)
    requires
        keys_unique(s),
        0 <= i < s.len(),
    ensures
        to_map(s).dom().contains(s[i].0),
        to_map(s)[s[i].0] == s[i].1,
    decreases s.len(),
{
    if i < s.len() - 1 {
        lemma_index(s.drop_last(), i);
    }
}

/// The position of key `k` in a list with distinct keys.
pub proof fn lemma_index_of<K, V>(s: Seq<(K, V)>, k: K) -> (i: int)
    requires
        keys_unique(s),
        to_map(s).dom().contains(k),
    ensures
        0 <= i < s.len(),
        s[i].0 == k,
        to_map(s)[k] == s[i].1,
{
    lemma_dom(s, k);
    let i = choose|i: int| 0 <= i < s.len() && s[i].0 == k;
    lemma_index(s, i);
    i
}

pub proof fn lemma_len<K, V>(s: Seq<(K, V)>)
    requires
        keys_unique(s),
    ensures
        to_map(s).dom().finite(),
        to_map(s).dom().len() == s.len(),
    decreases s.len(),
{
    lemma_finite(s);
    if s.len() > 0 {
        let t = s.drop_last();
        lemma_len(t);
        lemma_dom(t, s.last().0);
        if has_key(t, s.last().0) {
            let i = choose|i: int| 0 <= i < t.len() && t[i].0 == s.last().0;
            assert(s[i].0 == s[s.len() - 1].0);
        }
    }
}

pub proof fn lemma_push<K, V>(s: Seq<(K, V)>, k: K, v: V)
    requires
        keys_unique(s),
        !to_map(s).dom().contains(k),
    ensures
        keys_unique(s.push((k, v))),
        to_map(s.push((k, v))) == to_map(s).insert(k, v),
{
    let t = s.push((k, v));
    assert(t.drop_last() =~= s);
    assert forall|i: int, j: int| 0 <= i < j < t.len() implies t[i].0 != t[j].0 by {
        if j == s.len() {
            lemma_index(s, i);
        }
    }
}

pub proof fn lemma_update<K, V>(s: Seq<(K, V)>, i: int, v: V)
    requires
        keys_unique(s),
        0 <= i < s.len(),
    ensures
        keys_unique(s.update(i, (s[i].0, v))),
        to_map(s.update(i, (s[i].0, v))) == to_map(s).insert(s[i].0, v),
{
    let t = s.update(i, (s[i].0, v));
    let k = s[i].0;
    assert forall|a: int, b: int| 0 <= a < b < t.len() implies t[a].0 != t[b].0 by {}
    assert forall|x: K| to_map(t).dom().contains(x) <==> to_map(s).insert(k, v).dom().contains(
        x,
    ) by {
        lemma_dom(t, x);
        lemma_dom(s, x);
        if has_key(t, x) {
            let j = choose|j: int| 0 <= j < t.len() && t[j].0 == x;
            assert(s[j].0 == x);
        }
        if has_key(s, x) {
            let j = choose|j: int| 0 <= j < s.len() && s[j].0 == x;
            assert(t[j].0 == x);
        }
    }
    assert forall|x: K| #[trigger] to_map(t).dom().contains(x) implies to_map(t)[x] == to_map(
        s,
    ).insert(k, v)[x] by {
        let j = lemma_index_of(t, x);
        if j != i {
            lemma_index(s, j);
        }
    }
    assert(to_map(t) =~= to_map(s).insert(k, v));
}

pub proof fn lemma_remove<K, V>(s: Seq<(K, V)>, i: int)
    requires
        keys_unique(s),
        0 <= i < s.len(),
    ensures
        keys_unique(s.remove(i)),
        to_map(s.remove(i)) == to_map(s).remove(s[i].0),
        to_map(s.remove(i)).dom().len() + 1 == to_map(s).dom().len(),
{
    let t = s.remove(i);
    let k = s[i].0;
    assert forall|a: int, b: int| 0 <= a < b < t.len() implies t[a].0 != t[b].0 by {
        let a2 = if a < i { a } else { a + 1 };
        let b2 = if b < i { b } else { b + 1 };
        assert(t[a] == s[a2]);
        assert(t[b] == s[b2]);
    }
    assert forall|x: K| to_map(t).dom().contains(x) <==> to_map(s).remove(k).dom().contains(
        x,
    ) by {
        lemma_dom(t, x);
        lemma_dom(s, x);
        if has_key(t, x) {
            let j = choose|j: int| 0 <= j < t.len() && t[j].0 == x;
            let j2 = if j < i { j } else { j + 1 };
            assert(s[j2].0 == x);
        }
        if has_key(s, x) && x != k {
            let j = choose|j: int| 0 <= j < s.len() && s[j].0 == x;
            if j < i {
                assert(t[j].0 == x);
            } else {
                assert(j != i);
                assert(t[j - 1].0 == x);
            }
        }
    }
    assert forall|x: K| #[trigger] to_map(t).dom().contains(x) implies to_map(t)[x] == to_map(
        s,
    ).remove(k)[x] by {
        let j = lemma_index_of(t, x);
        let j2 = if j < i { j } else { j + 1 };
        assert(t[j] == s[j2]);
        lemma_index(s, j2);
    }
    assert(to_map(t) =~= to_map(s).remove(k));
    lemma_len(s);
    lemma_len(t);
}

/// Position of `key` in a list with distinct `u64` keys.
pub fn find_key<V>(entries: &Vec<(u64, V)>, key: u64) -> (r: Option<usize>)
    requires
        keys_unique(entries@),
    ensures
        match r {
            Some(i) => i < entries@.len() && entries@[i as int].0 == key && to_map(
                entries@,
            ).dom().contains(key) && to_map(entries@)[key] == entries@[i as int].1,
            None => !to_map(entries@).dom().contains(key),
        },
{
    let mut i: usize = 0;
    while i < entries.len()
        invariant
            i <= entries@.len(),
            keys_unique(entries@),
            forall|j: int| 0 <= j < i ==> entries@[j].0 != key,
        decreases entries@.len() - i,
    {
        if entries[i].0 == key {
            proof {
                lemma_index(entries@, i as int);
            }
            return Some(i);
        }
        i += 1;
    }
    proof {
        lemma_dom(entries@, key);
    }
    None
}

} // verus!
