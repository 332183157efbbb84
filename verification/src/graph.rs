//! Semantic graph: an adjacency list of weighted edges, with bidirectional
//! edge insertion and removal and breadth-first contextual expansion.
//!
//! Edge weights are carried as the bit patterns of their `f64` values
//! (`f64::to_bits`); the graph never computes on them.
use vstd::prelude::*;
use crate::expansion::{Frontier, seeded, offer_all, steps, expands_to, agrees};
use crate::assoc::{keys_unique, to_map, lemma_dom, lemma_finite, lemma_index, lemma_index_of,
    lemma_len, lemma_push, lemma_update};

verus! {

/// A weighted edge.
#[derive(Debug, Clone, Copy, PartialEq, Eq, Structural)]
pub struct Edge {
    /// Source node.
    pub from: u64,
    /// Target node.
    pub to: u64,
    /// Edge weight, as `f64` bits.
    pub weight_bits: u64,
}

/// Result of a graph expansion.
#[derive(Debug, Clone)]
pub struct ExpansionResult {
    /// Expanded node ids (seeds included), ascending and without repeats.
    pub nodes: Vec<u64>,
    /// Edges traversed during expansion, in traversal order.
    pub edges: Vec<Edge>,
    /// Maximum depth reached.
    pub depth_reached: u32,
}

/// Whether some entry of a neighbor list points at `to`.
pub open spec fn lists_target(s: Seq<(u64, u64)>, to: u64) -> bool {
    exists|i: int| 0 <= i < s.len() && s[i].0 == to
}

/// The neighbor list with every entry pointing at `to` left out.
pub open spec fn without_target(s: Seq<(u64, u64)>, to: u64) -> Seq<(u64, u64)>
    decreases s.len(),
{
    if s.len() == 0 {
        s
    } else if s.last().0 == to {
        without_target(s.drop_last(), to)
    } else {
        without_target(s.drop_last(), to).push(s.last())
    }
}

/// The neighbors of `n` in an adjacency map (none when `n` is absent).
pub open spec fn nbrs(m: Map<u64, Seq<(u64, u64)>>, n: u64) -> Seq<(u64, u64)> {
    if m.dom().contains(n) {
        m[n]
    } else {
        Seq::empty()
    }
}

/// Adding a directed edge: the source gets an entry (possibly empty), and
/// the target is appended to its list unless already listed.
pub open spec fn add_directed_spec(m: Map<u64, Seq<(u64, u64)>>, from: u64, to: u64, w: u64) -> Map<
    u64,
    Seq<(u64, u64)>,
> {
    m.insert(
        from,
        if lists_target(nbrs(m, from), to) {
            nbrs(m, from)
        } else {
            nbrs(m, from).push((to, w))
        },
    )
}

/// Removing a directed edge: if the source has an entry, the target leaves
/// its list; the entry itself stays.
pub open spec fn remove_directed_spec(m: Map<u64, Seq<(u64, u64)>>, from: u64, to: u64) -> Map<
    u64,
    Seq<(u64, u64)>,
> {
    if m.dom().contains(from) {
        m.insert(from, without_target(m[from], to))
    } else {
        m
    }
}

/// `n` is within `k` hops of the seeds along the graph's edges.
pub open spec fn within(m: Map<u64, Seq<(u64, u64)>>, seeds: Seq<u64>, n: u64, k: nat) -> bool
    decreases k,
{
    seeds.contains(n) || (k > 0 && exists|u: u64|
        #![trigger nbrs(m, u)]
        within(m, seeds, u, (k - 1) as nat) && lists_target(nbrs(m, u), n))
}

/// Strictly ascending.
pub open spec fn ascending(s: Seq<u64>) -> bool {
    forall|i: int, j: int| 0 <= i < j < s.len() ==> s[i] < s[j]
}

/// Adjacency-list semantic graph.
#[derive(Debug)]
pub struct SemanticGraph {
    adjacency: Vec<(u64, Vec<(u64, u64)>)>,
}

/// The adjacency entries with their lists taken as sequences.
pub open spec fn adj_pairs(s: Seq<(u64, Vec<(u64, u64)>)>) -> Seq<(u64, Seq<(u64, u64)>)> {
    s.map_values(|e: (u64, Vec<(u64, u64)>)| (e.0, e.1@))
}

/// Whether no target is listed twice.
pub open spec fn targets_unique(s: Seq<(u64, u64)>) -> bool {
    forall|i: int, j: int| 0 <= i < j < s.len() ==> s[i].0 != s[j].0
}

/// Copy a neighbor list.
fn copy_list(s: &Vec<(u64, u64)>) -> (r: Vec<(u64, u64)>)
    ensures
        r@ == s@,
{
    let mut r: Vec<(u64, u64)> = Vec::new();
    let mut i: usize = 0;
    while i < s.len()
        invariant
            i <= s@.len(),
            r@ == s@.subrange(0, i as int),
        decreases s@.len() - i,
    {
        r.push(s[i]);
        i += 1;
        proof {
            assert(r@ =~= s@.subrange(0, i as int));
        }
    }
    proof {
        assert(s@.subrange(0, s@.len() as int) =~= s@);
    }
    r
}

/// Whether `s` lists target `to`.
fn has_target(s: &Vec<(u64, u64)>, to: u64) -> (r: bool)
    ensures
        r == lists_target(s@, to),
{
    let mut i: usize = 0;
    while i < s.len()
        invariant
            i <= s@.len(),
            forall|j: int| 0 <= j < i ==> s@[j].0 != to,
        decreases s@.len() - i,
    {
        if s[i].0 == to {
            return true;
        }
        i += 1;
    }
    false
}

/// The list with entries pointing at `to` left out.
fn drop_target(s: &Vec<(u64, u64)>, to: u64) -> (r: Vec<(u64, u64)>)
    ensures
        r@ == without_target(s@, to),
{
    let mut r: Vec<(u64, u64)> = Vec::new();
    let mut i: usize = 0;
    while i < s.len()
        invariant
            i <= s@.len(),
            r@ == without_target(s@.subrange(0, i as int), to),
        decreases s@.len() - i,
    {
        proof {
            assert(s@.subrange(0, i + 1).drop_last() =~= s@.subrange(0, i as int));
        }
        if s[i].0 != to {
            r.push(s[i]);
        }
        i += 1;
    }
    proof {
        assert(s@.subrange(0, s@.len() as int) =~= s@);
    }
    r
}

/// Leaving a target out of a list without repeated targets keeps it
/// without repeats, drops that target and keeps every other.
pub proof fn lemma_without_target(s: Seq<(u64, u64)>, to: u64)
    requires
        targets_unique(s),
    ensures
        targets_unique(without_target(s, to)),
        !lists_target(without_target(s, to), to),
        forall|x: u64| x != to ==> (lists_target(without_target(s, to), x) <==> lists_target(s, x)),
    decreases s.len(),
{
    if s.len() > 0 {
        let t = s.drop_last();
        assert(targets_unique(t));
        lemma_without_target(t, to);
        let w = without_target(t, to);
        assert forall|x: u64| x != to implies (lists_target(without_target(s, to), x)
            <==> lists_target(s, x)) by {
            if lists_target(t, x) {
                let i = choose|i: int| 0 <= i < t.len() && t[i].0 == x;
                assert(s[i].0 == x);
            }
            if lists_target(s, x) && s.last().0 != x {
                let i = choose|i: int| 0 <= i < s.len() && s[i].0 == x;
                assert(t[i].0 == x);
            }
            if s.last().0 != to && lists_target(w, x) {
                let i = choose|i: int| 0 <= i < w.len() && w[i].0 == x;
                assert(w.push(s.last())[i].0 == x);
            }
            if s.last().0 != to && s.last().0 == x {
                assert(w.push(s.last())[w.len() as int].0 == x);
            }
            if s.last().0 != to && lists_target(w.push(s.last()), x) && s.last().0 != x {
                let i = choose|i: int| 0 <= i < w.len() + 1 && w.push(s.last())[i].0 == x;
                assert(w[i].0 == x);
            }
        }
        if s.last().0 != to {
            let r = w.push(s.last());
            assert forall|i: int, j: int| 0 <= i < j < r.len() implies r[i].0 != r[j].0 by {
                if j == w.len() {
                    assert(lists_target(w, r[i].0));
                    if r[i].0 == s.last().0 {
                        assert(lists_target(t, s.last().0));
                        let k = choose|k: int| 0 <= k < t.len() && t[k].0 == s.last().0;
                        assert(s[k].0 == s[s.len() - 1].0);
                    }
                }
            }
            assert(!lists_target(r, to)) by {
                if lists_target(r, to) {
                    let i = choose|i: int| 0 <= i < r.len() && r[i].0 == to;
                    if i < w.len() {
                        assert(lists_target(w, to));
                    }
                }
            }
        }
    }
}

/// Insert `x` into an ascending vector unless present; report whether it
/// was inserted.
fn insert_sorted(v: &mut Vec<u64>, x: u64) -> (inserted: bool)
    requires
        ascending(old(v)@),
    ensures
        ascending(final(v)@),
        inserted == !old(v)@.contains(x),
        forall|y: u64| final(v)@.contains(y) <==> (old(v)@.contains(y) || y == x),
        final(v)@.len() == old(v)@.len() + if inserted {
            1int
        } else {
            0int
        },
{
    let mut p: usize = 0;
    while p < v.len() && v[p] < x
        invariant
            p <= v@.len(),
            forall|j: int| 0 <= j < p ==> v@[j] < x,
        decreases v@.len() - p,
    {
        p += 1;
    }
    if p < v.len() && v[p] == x {
        proof {
            assert(v@.contains(x));
        }
        return false;
    }
    proof {
        assert(!v@.contains(x)) by {
            if v@.contains(x) {
                let j = choose|j: int| 0 <= j < v@.len() && v@[j] == x;
                if j < p {
                } else {
                    assert(v@[p as int] <= v@[j]);
                }
            }
        }
    }
    let ghost before = v@;
    v.insert(p, x);
    proof {
        let after = v@;
        assert(after =~= before.insert(p as int, x));
        assert forall|i: int, j: int| 0 <= i < j < after.len() implies after[i] < after[j] by {
            if i < p && j == p {
            } else if i < p && j > p {
                assert(before[i] < x);
                assert(x < before[j - 1]) by {
                    assert(before[p as int] > x);
                    if j - 1 > p {
                        assert(before[p as int] < before[j - 1]);
                    }
                }
            } else if i == p {
                assert(before[p as int] > x);
                if j - 1 > p {
                    assert(before[p as int] < before[j - 1]);
                }
            } else if i > p {
                assert(before[i - 1] < before[j - 1]);
            } else {
                assert(before[i] < before[j]);
            }
        }
        assert forall|y: u64| after.contains(y) <==> (before.contains(y) || y == x) by {
            if after.contains(y) {
                let j = choose|j: int| 0 <= j < after.len() && after[j] == y;
                if j < p {
                    assert(before[j] == y);
                } else if j > p {
                    assert(before[j - 1] == y);
                }
            }
            if before.contains(y) {
                let j = choose|j: int| 0 <= j < before.len() && before[j] == y;
                if j < p {
                    assert(after[j] == y);
                } else {
                    assert(after[j + 1] == y);
                }
            }
            if y == x {
                assert(after[p as int] == x);
            }
        }
    }
    true
}

/// Summed length of the neighbor lists.
pub open spec fn list_total(p: Seq<(u64, Seq<(u64, u64)>)>) -> nat
    decreases p.len(),
{
    if p.len() == 0 {
        0
    } else {
        list_total(p.drop_last()) + p.last().1.len()
    }
}

/// The neighbor lists of a prefix hold no more entries than all lists.
pub proof fn lemma_list_total_prefix(p: Seq<(u64, Seq<(u64, u64)>)>, n: int)
    requires
        0 <= n <= p.len(),
    ensures
        list_total(p.subrange(0, n)) <= list_total(p),
    decreases p.len(),
{
    if n < p.len() {
        assert(p.drop_last().subrange(0, n) =~= p.subrange(0, n));
        lemma_list_total_prefix(p.drop_last(), n);
    } else {
        assert(p.subrange(0, n) =~= p);
    }
}

/// After `add_edge(a, b, w)` each endpoint lists the other.
pub proof fn lemma_add_edge_links(m: Map<u64, Seq<(u64, u64)>>, a: u64, b: u64, w: u64)
    ensures
        ({
            let m2 = add_directed_spec(add_directed_spec(m, a, b, w), b, a, w);
            lists_target(nbrs(m2, a), b) && lists_target(nbrs(m2, b), a)
        }),
{
    let m1 = add_directed_spec(m, a, b, w);
    let m2 = add_directed_spec(m1, b, a, w);
    if !lists_target(nbrs(m, a), b) {
        let s = nbrs(m, a).push((b, w));
        assert(s[s.len() - 1].0 == b);
    }
    assert(lists_target(nbrs(m1, a), b));
    if !lists_target(nbrs(m1, b), a) {
        let s = nbrs(m1, b).push((a, w));
        assert(s[s.len() - 1].0 == a);
    }
    assert(lists_target(nbrs(m2, b), a));
    if a != b {
        assert(nbrs(m2, a) == nbrs(m1, a));
    }
}

/// Adding an edge that is already present, with any weight, changes
/// nothing: edge insertion is idempotent.
pub proof fn lemma_add_edge_idempotent(m: Map<u64, Seq<(u64, u64)>>, a: u64, b: u64, w: u64, w2: u64)
    ensures
        ({
            let m2 = add_directed_spec(add_directed_spec(m, a, b, w), b, a, w);
            add_directed_spec(add_directed_spec(m2, a, b, w2), b, a, w2) == m2
        }),
{
    let m2 = add_directed_spec(add_directed_spec(m, a, b, w), b, a, w);
    lemma_add_edge_links(m, a, b, w);
    assert(m2.dom().contains(a) && m2.dom().contains(b));
    assert(add_directed_spec(m2, a, b, w2) =~= m2);
    assert(add_directed_spec(m2, b, a, w2) =~= m2);
}

/// After `remove_edge(a, b)` neither endpoint lists the other.
pub proof fn lemma_remove_edge_unlinks(m: Map<u64, Seq<(u64, u64)>>, a: u64, b: u64)
    requires
        forall|n: u64| #[trigger] m.dom().contains(n) ==> targets_unique(m[n]),
    ensures
        ({
            let m2 = remove_directed_spec(remove_directed_spec(m, a, b), b, a);
            !lists_target(nbrs(m2, a), b) && !lists_target(nbrs(m2, b), a)
        }),
{
    let m1 = remove_directed_spec(m, a, b);
    let m2 = remove_directed_spec(m1, b, a);
    if m.dom().contains(a) {
        lemma_without_target(m[a], b);
    }
    assert forall|n: u64| #[trigger] m1.dom().contains(n) implies targets_unique(m1[n]) by {
        if n == a {
            lemma_without_target(m[a], b);
        }
    }
    if m1.dom().contains(b) {
        lemma_without_target(m1[b], a);
    }
    if a != b && m1.dom().contains(b) {
        assert(nbrs(m2, a) == nbrs(m1, a));
    }
    if a == b && m1.dom().contains(a) {
        lemma_without_target(m1[a], a);
    }
}

/// Being within `k` hops implies being within any larger number of hops.
pub proof fn lemma_within_monotone(m: Map<u64, Seq<(u64, u64)>>, seeds: Seq<u64>, n: u64, k: nat, k2: nat)
    requires
        within(m, seeds, n, k),
        k <= k2,
    ensures
        within(m, seeds, n, k2),
    decreases k,
{
    if !seeds.contains(n) {
        let u = choose|u: u64|
            #![trigger nbrs(m, u)]
            within(m, seeds, u, (k - 1) as nat) && lists_target(nbrs(m, u), n);
        lemma_within_monotone(m, seeds, u, (k - 1) as nat, (k2 - 1) as nat);
        assert(within(m, seeds, u, (k2 - 1) as nat) && lists_target(nbrs(m, u), n));
    }
}

impl SemanticGraph {
    /// Adjacency: node id to its neighbor list of (neighbor, weight bits).
    pub closed spec fn adj(&self) -> Map<u64, Seq<(u64, u64)>> {
        to_map(adj_pairs(self.adjacency@))
    }

    /// Well-formedness: node ids are distinct and no neighbor list names a
    /// target twice.
    pub closed spec fn wf(&self) -> bool {
        &&& keys_unique(adj_pairs(self.adjacency@))
        &&& forall|i: int|
            0 <= i < self.adjacency@.len() ==> targets_unique(#[trigger] self.adjacency@[i].1@)
    }

    /// A well-formed graph has finitely many nodes, none listing a target
    /// twice.
    pub proof fn lemma_wf(&self)
        requires
            self.wf(),
        ensures
            self.adj().dom().finite(),
            forall|n: u64| #[trigger] self.adj().dom().contains(n) ==> targets_unique(self.adj()[n]),
    {
        lemma_finite(adj_pairs(self.adjacency@));
        assert forall|n: u64| #[trigger] self.adj().dom().contains(n) implies targets_unique(
            self.adj()[n],
        ) by {
            let i = lemma_index_of(adj_pairs(self.adjacency@), n);
        }
    }

    /// Create a new empty graph.
    pub fn new() -> (r: Self)
        ensures
            r.wf(),
            r.adj() == Map::<u64, Seq<(u64, u64)>>::empty(),
    {
        let r = SemanticGraph { adjacency: Vec::new() };
        assert(adj_pairs(r.adjacency@) =~= Seq::<(u64, Seq<(u64, u64)>)>::empty());
        r
    }

    fn find(&self, n: u64) -> (r: Option<usize>)
        requires
            self.wf(),
        ensures
            match r {
                Some(i) => i < self.adjacency@.len() && self.adjacency@[i as int].0 == n
                    && self.adj().dom().contains(n) && self.adj()[n] == self.adjacency@[i as int].1@,
                None => !self.adj().dom().contains(n),
            },
    {
        let mut i: usize = 0;
        while i < self.adjacency.len()
            invariant
                i <= self.adjacency@.len(),
                self.wf(),
                forall|j: int| 0 <= j < i ==> self.adjacency@[j].0 != n,
            decreases self.adjacency@.len() - i,
        {
            if self.adjacency[i].0 == n {
                proof {
                    let p = adj_pairs(self.adjacency@);
                    assert(p[i as int] == (n, self.adjacency@[i as int].1@));
                    lemma_index(p, i as int);
                }
                return Some(i);
            }
            i += 1;
        }
        proof {
            let p = adj_pairs(self.adjacency@);
            lemma_dom(p, n);
            if exists|j: int| 0 <= j < p.len() && p[j].0 == n {
                let j = choose|j: int| 0 <= j < p.len() && p[j].0 == n;
                assert(self.adjacency@[j].0 == n);
            }
        }
        None
    }

    /// Add a directed edge unless the target is already listed.
    fn add_directed(&mut self, from: u64, to: u64, weight_bits: u64)
        requires
            old(self).wf(),
        ensures
            final(self).wf(),
            final(self).adj() == add_directed_spec(old(self).adj(), from, to, weight_bits),
    {
        let ghost pairs = adj_pairs(self.adjacency@);
        match self.find(from) {
            Some(i) => {
                if !has_target(&self.adjacency[i].1, to) {
                    let mut list = copy_list(&self.adjacency[i].1);
                    list.push((to, weight_bits));
                    proof {
                        lemma_update(pairs, i as int, list@);
                        assert(adj_pairs(self.adjacency@.update(i as int, (from, list))) =~= pairs.update(
                            i as int,
                            (pairs[i as int].0, list@),
                        ));
                        let old_list = self.adjacency@[i as int].1@;
                        assert forall|a: int, b: int| 0 <= a < b < list@.len() implies list@[a].0
                            != list@[b].0 by {
                            if b == old_list.len() {
                                assert(old_list[a].0 == list@[a].0);
                            }
                        }
                    }
                    self.adjacency.set(i, (from, list));
                    proof {
                        assert(self.adj() =~= add_directed_spec(old(self).adj(), from, to, weight_bits));
                    }
                } else {
                    proof {
                        assert(old(self).adj().insert(from, old(self).adj()[from]) =~= old(self).adj());
                    }
                }
            },
            None => {
                let mut list: Vec<(u64, u64)> = Vec::new();
                list.push((to, weight_bits));
                proof {
                    lemma_push(pairs, from, list@);
                    assert(adj_pairs(self.adjacency@.push((from, list))) =~= pairs.push(
                        (from, list@),
                    ));
                    assert(list@ =~= Seq::<(u64, u64)>::empty().push((to, weight_bits)));
                }
                self.adjacency.push((from, list));
                proof {
                    assert(!lists_target(Seq::<(u64, u64)>::empty(), to));
                }
            },
        }
    }

    /// Add a bidirectional edge between two nodes.  Idempotent: a target
    /// already listed keeps its first weight.
    pub fn add_edge(&mut self, a: u64, b: u64, weight_bits: u64)
        requires
            old(self).wf(),
        ensures
            final(self).wf(),
            final(self).adj() == add_directed_spec(
                add_directed_spec(old(self).adj(), a, b, weight_bits),
                b,
                a,
                weight_bits,
            ),
    {
        self.add_directed(a, b, weight_bits);
        self.add_directed(b, a, weight_bits);
    }

    /// Remove a directed edge if the source has an entry.
    fn remove_directed(&mut self, from: u64, to: u64)
        requires
            old(self).wf(),
        ensures
            final(self).wf(),
            final(self).adj() == remove_directed_spec(old(self).adj(), from, to),
    {
        let ghost pairs = adj_pairs(self.adjacency@);
        match self.find(from) {
            Some(i) => {
                let list = drop_target(&self.adjacency[i].1, to);
                proof {
                    lemma_without_target(self.adjacency@[i as int].1@, to);
                    lemma_update(pairs, i as int, list@);
                    assert(adj_pairs(self.adjacency@.update(i as int, (from, list))) =~= pairs.update(
                        i as int,
                        (pairs[i as int].0, list@),
                    ));
                }
                self.adjacency.set(i, (from, list));
            },
            None => {},
        }
    }

    /// Remove a bidirectional edge; nothing happens where it is absent.
    pub fn remove_edge(&mut self, a: u64, b: u64)
        requires
            old(self).wf(),
        ensures
            final(self).wf(),
            final(self).adj() == remove_directed_spec(remove_directed_spec(old(self).adj(), a, b), b, a),
    {
        self.remove_directed(a, b);
        self.remove_directed(b, a);
    }

    /// Get neighbors of a node with their edge weights.
    pub fn neighbors(&self, node_id: u64) -> (r: Vec<(u64, u64)>)
        requires
            self.wf(),
        ensures
            r@ == nbrs(self.adj(), node_id),
    {
        match self.find(node_id) {
            Some(i) => copy_list(&self.adjacency[i].1),
            None => Vec::new(),
        }
    }

    /// Expand from seed nodes, breadth first, up to `depth` hops.
    ///
    /// Seeds come first (repeats ignored); then nodes are taken from the
    /// front of the queue, and the unvisited neighbors of a node reached in
    /// fewer than `depth` hops are visited while fewer than `max_nodes`
    /// nodes have been visited.  Deterministic.
    pub fn expand_with_limit(&self, seeds: &[u64], depth: u32, max_nodes: usize) -> (r:
        ExpansionResult)
        requires
            self.wf(),
        ensures
            ascending(r.nodes@),
            forall|i: int| 0 <= i < seeds@.len() ==> r.nodes@.contains(#[trigger] seeds@[i]),
            r.nodes@.len() <= if seeds@.len() > max_nodes {
                seeds@.len() as int
            } else {
                max_nodes as int
            },
            forall|i: int|
                0 <= i < r.nodes@.len() ==> within(self.adj(), seeds@, #[trigger] r.nodes@[i], depth as nat),
            forall|i: int|
                0 <= i < r.edges@.len() ==> {
                    let e = #[trigger] r.edges@[i];
                    &&& nbrs(self.adj(), e.from).contains((e.to, e.weight_bits))
                    &&& r.nodes@.contains(e.from)
                    &&& r.nodes@.contains(e.to)
                    &&& !seeds@.contains(e.to)
                },
            r.depth_reached <= depth,
            expands_to(self.adj(), seeds@, depth, max_nodes, r.nodes@, r.edges@, r.depth_reached),
    {
        let ghost adj = self.adj();
        let mut visited: Vec<u64> = Vec::new();
        let mut edges: Vec<Edge> = Vec::new();
        let mut queue: Vec<(u64, u32)> = Vec::new();
        let mut i: usize = 0;
        while i < seeds.len()
            invariant
                i <= seeds@.len(),
                ascending(visited@),
                visited@.len() <= i,
                queue@.len() == visited@.len(),
                forall|j: int| 0 <= j < i ==> visited@.contains(#[trigger] seeds@[j]),
                forall|y: u64| visited@.contains(y) ==> seeds@.contains(y),
                forall|j: int|
                    0 <= j < queue@.len() ==> (#[trigger] queue@[j]).1 == 0 && visited@.contains(
                        queue@[j].0,
                    ) && seeds@.contains(queue@[j].0),
                edges@.len() == 0,
                agrees(seeded(seeds@.subrange(0, i as int)), visited@, edges@, queue@, 0, 0),
            decreases seeds@.len() - i,
        {
            let seed = seeds[i];
            proof {
                assert(seeds@.subrange(0, i + 1).drop_last() =~= seeds@.subrange(0, i as int));
            }
            if insert_sorted(&mut visited, seed) {
                queue.push((seed, 0));
            }
            proof {
                assert(seeds@.contains(seed));
            }
            i += 1;
        }
        proof {
            assert(seeds@.subrange(0, seeds@.len() as int) =~= seeds@);
        }
        let mut head: usize = 0;
        let mut max_depth_reached: u32 = 0;
        let ghost bound: int = seeds@.len() + max_nodes;
        let ghost start = seeded(seeds@);
        let ghost mut iters: nat = 0;
        while head < queue.len()
            invariant
                start == seeded(seeds@),
                agrees(steps(adj, start, depth, max_nodes, iters), visited@, edges@, queue@, head as int, max_depth_reached),
                self.wf(),
                adj == self.adj(),
                head <= queue@.len(),
                ascending(visited@),
                queue@.len() <= visited@.len(),
                visited@.len() <= if seeds@.len() > max_nodes {
                    seeds@.len() as int
                } else {
                    max_nodes as int
                },
                bound == seeds@.len() + max_nodes,
                forall|j: int| 0 <= j < seeds@.len() ==> visited@.contains(#[trigger] seeds@[j]),
                forall|y: u64| #[trigger]
                    visited@.contains(y) ==> within(adj, seeds@, y, depth as nat),
                forall|j: int|
                    0 <= j < queue@.len() ==> (#[trigger] queue@[j]).1 <= depth && visited@.contains(
                        queue@[j].0,
                    ) && within(adj, seeds@, queue@[j].0, queue@[j].1 as nat),
                forall|j: int|
                    0 <= j < edges@.len() ==> {
                        let e = #[trigger] edges@[j];
                        &&& nbrs(adj, e.from).contains((e.to, e.weight_bits))
                        &&& visited@.contains(e.from)
                        &&& visited@.contains(e.to)
                        &&& !seeds@.contains(e.to)
                    },
                max_depth_reached <= depth,
            decreases bound - head,
        {
            let ghost f0 = steps(adj, start, depth, max_nodes, iters);
            let (node, d) = queue[head];
            head += 1;
            let ghost g = Frontier { head: head as nat, ..f0 };
            if d < depth && visited.len() < max_nodes {
                let nb = self.neighbors(node);
                let mut k: usize = 0;
                while k < nb.len()
                    invariant
                        agrees(offer_all(g, node, d, nb@.subrange(0, k as int), max_nodes), visited@, edges@, queue@, head as int, max_depth_reached),
                        self.wf(),
                        adj == self.adj(),
                        nb@ == nbrs(adj, node),
                        d < depth,
                        within(adj, seeds@, node, d as nat),
                        visited@.contains(node),
                        k <= nb@.len(),
                        head <= queue@.len(),
                        ascending(visited@),
                        queue@.len() <= visited@.len(),
                        visited@.len() <= if seeds@.len() > max_nodes {
                            seeds@.len() as int
                        } else {
                            max_nodes as int
                        },
                        forall|j: int|
                            0 <= j < seeds@.len() ==> visited@.contains(#[trigger] seeds@[j]),
                        forall|y: u64| #[trigger]
                            visited@.contains(y) ==> within(adj, seeds@, y, depth as nat),
                        forall|j: int|
                            0 <= j < queue@.len() ==> (#[trigger] queue@[j]).1 <= depth
                                && visited@.contains(queue@[j].0) && within(
                                adj,
                                seeds@,
                                queue@[j].0,
                                queue@[j].1 as nat,
                            ),
                        forall|j: int|
                            0 <= j < edges@.len() ==> {
                                let e = #[trigger] edges@[j];
                                &&& nbrs(adj, e.from).contains((e.to, e.weight_bits))
                                &&& visited@.contains(e.from)
                                &&& visited@.contains(e.to)
                                &&& !seeds@.contains(e.to)
                            },
                        max_depth_reached <= depth,
                    decreases nb@.len() - k,
                {
                    let (neighbor, w) = nb[k];
                    proof {
                        assert(nb@.subrange(0, k + 1).drop_last() =~= nb@.subrange(0, k as int));
                    }
                    if d + 1 > max_depth_reached {
                        max_depth_reached = d + 1;
                    }
                    proof {
                        assert(nb@[k as int] == (neighbor, w));
                        assert(nbrs(adj, node).contains((neighbor, w)));
                        assert(lists_target(nbrs(adj, node), neighbor));
                        assert(within(adj, seeds@, neighbor, (d + 1) as nat));
                        lemma_within_monotone(adj, seeds@, neighbor, (d + 1) as nat, depth as nat);
                    }
                    if visited.len() < max_nodes {
                        let ghost before = visited@;
                        if insert_sorted(&mut visited, neighbor) {
                            proof {
                                assert(!seeds@.contains(neighbor)) by {
                                    if seeds@.contains(neighbor) {
                                        let j = choose|j: int|
                                            0 <= j < seeds@.len() && seeds@[j] == neighbor;
                                        assert(before.contains(seeds@[j]));
                                    }
                                }
                            }
                            edges.push(Edge { from: node, to: neighbor, weight_bits: w });
                            queue.push((neighbor, d + 1));
                        }
                    }
                    k += 1;
                }
                proof {
                    assert(nb@.subrange(0, nb@.len() as int) =~= nb@);
                }
            }
            proof {
                iters = iters + 1;
            }
        }
        proof {
            assert(steps(adj, start, depth, max_nodes, iters).head == steps(adj, start, depth, max_nodes, iters).queue.len());
            assert forall|i: int| 0 <= i < visited@.len() implies within(
                adj,
                seeds@,
                #[trigger] visited@[i],
                depth as nat,
            ) by {
                assert(visited@.contains(visited@[i]));
            }
        }
        ExpansionResult { nodes: visited, edges, depth_reached: max_depth_reached }
    }

    /// Expand from seed nodes up to `depth` hops, visiting at most twice
    /// as many nodes as there are seeds (but never dropping a seed).
    pub fn expand(&self, seeds: &[u64], depth: u32) -> (r: ExpansionResult)
        requires
            self.wf(),
            seeds@.len() * 2 <= usize::MAX,
        ensures
            ascending(r.nodes@),
            forall|i: int| 0 <= i < seeds@.len() ==> r.nodes@.contains(#[trigger] seeds@[i]),
            r.nodes@.len() <= 2 * seeds@.len(),
            forall|i: int|
                0 <= i < r.nodes@.len() ==> within(self.adj(), seeds@, #[trigger] r.nodes@[i], depth as nat),
            forall|i: int|
                0 <= i < r.edges@.len() ==> {
                    let e = #[trigger] r.edges@[i];
                    &&& nbrs(self.adj(), e.from).contains((e.to, e.weight_bits))
                    &&& r.nodes@.contains(e.from)
                    &&& r.nodes@.contains(e.to)
                    &&& !seeds@.contains(e.to)
                },
            r.depth_reached <= depth,
            expands_to(self.adj(), seeds@, depth, (2 * seeds@.len()) as usize, r.nodes@, r.edges@, r.depth_reached),
    {
        let max_nodes = seeds.len() * 2;
        self.expand_with_limit(seeds, depth, max_nodes)
    }

    /// Total number of directed edges: the summed length of all neighbor
    /// lists.
    pub closed spec fn directed_edges(&self) -> nat {
        list_total(adj_pairs(self.adjacency@))
    }

    /// Total number of edges (directed count).
    pub fn edge_count(&self) -> (r: usize)
        requires
            self.wf(),
            self.directed_edges() <= usize::MAX,
        ensures
            r == self.directed_edges(),
    {
        let mut total: usize = 0;
        let mut i: usize = 0;
        while i < self.adjacency.len()
            invariant
                i <= self.adjacency@.len(),
                total == list_total(adj_pairs(self.adjacency@).subrange(0, i as int)),
                list_total(adj_pairs(self.adjacency@)) <= usize::MAX,
            decreases self.adjacency@.len() - i,
        {
            proof {
                let p = adj_pairs(self.adjacency@);
                assert(p.subrange(0, i + 1).drop_last() =~= p.subrange(0, i as int));
                lemma_list_total_prefix(p, i + 1);
            }
            total = total + self.adjacency[i].1.len();
            i += 1;
        }
        proof {
            let p = adj_pairs(self.adjacency@);
            assert(p.subrange(0, p.len() as int) =~= p);
        }
        total
    }

    /// Number of nodes in the graph.
    pub fn node_count(&self) -> (r: usize)
        requires
            self.wf(),
        ensures
            r == self.adj().dom().len(),
    {
        proof {
            lemma_len(adj_pairs(self.adjacency@));
        }
        self.adjacency.len()
    }
}

} // verus!
