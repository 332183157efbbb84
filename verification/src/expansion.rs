//! Breadth-first expansion as a sequence of steps on a frontier: the
//! result an expansion must give, that it is unique, and that an
//! expansion which was not cut short by its node limit reaches every node
//! within its hop count.
use vstd::prelude::*;
use crate::graph::{Edge, nbrs, lists_target, within, ascending};

verus! {

/// Where a breadth-first expansion stands: the visited nodes and how many
/// there are, the edges taken so far, the queue of (node, hops) with the
/// position of its head, and the most hops reached.
pub struct Frontier {
    pub visited: Set<u64>,
    pub count: nat,
    pub edges: Seq<Edge>,
    pub queue: Seq<(u64, u32)>,
    pub head: nat,
    pub reached: u32,
}

/// The expansion right after seeding: each seed not seen before is visited
/// and queued at zero hops, in the order the seeds are given.
pub open spec fn seeded(seeds: Seq<u64>) -> Frontier
    decreases seeds.len(),
{
    if seeds.len() == 0 {
        Frontier {
            visited: Set::empty(),
            count: 0,
            edges: Seq::empty(),
            queue: Seq::empty(),
            head: 0,
            reached: 0,
        }
    } else {
        let f = seeded(seeds.drop_last());
        let x = seeds.last();
        if f.visited.contains(x) {
            f
        } else {
            Frontier {
                visited: f.visited.insert(x),
                count: f.count + 1,
                queue: f.queue.push((x, 0u32)),
                ..f
            }
        }
    }
}

/// Offering neighbor `n` (edge weight `w`) of `from`, which was reached in
/// `d` hops: the hop count `d + 1` counts as reached; the neighbor is
/// visited, its edge taken and it is queued at `d + 1` hops when it was not
/// visited yet and fewer than `max_nodes` nodes are.
pub open spec fn offer(f: Frontier, from: u64, d: u32, n: u64, w: u64, max_nodes: usize) -> Frontier {
    let g = Frontier { reached: if d + 1 > f.reached { (d + 1) as u32 } else { f.reached }, ..f };
    if g.count < max_nodes && !g.visited.contains(n) {
        Frontier {
            visited: g.visited.insert(n),
            count: g.count + 1,
            edges: g.edges.push(Edge { from, to: n, weight_bits: w }),
            queue: g.queue.push((n, (d + 1) as u32)),
            ..g
        }
    } else {
        g
    }
}

/// Offering every entry of a neighbor list, in order.
pub open spec fn offer_all(f: Frontier, from: u64, d: u32, list: Seq<(u64, u64)>, max_nodes: usize) -> Frontier
    decreases list.len(),
{
    if list.len() == 0 {
        f
    } else {
        offer(offer_all(f, from, d, list.drop_last(), max_nodes), from, d, list.last().0, list.last().1, max_nodes)
    }
}

/// One step of the expansion: the head of the queue is taken; when it was
/// reached in fewer than `depth` hops and fewer than `max_nodes` nodes are
/// visited, its neighbors are offered.  An exhausted queue stays as it is.
pub open spec fn pop_step(adj: Map<u64, Seq<(u64, u64)>>, f: Frontier, depth: u32, max_nodes: usize) -> Frontier {
    if f.head < f.queue.len() {
        let node = f.queue[f.head as int].0;
        let d = f.queue[f.head as int].1;
        let g = Frontier { head: f.head + 1, ..f };
        if d < depth && g.count < max_nodes {
            offer_all(g, node, d, nbrs(adj, node), max_nodes)
        } else {
            g
        }
    } else {
        f
    }
}

/// The expansion after `k` steps.
pub open spec fn steps(adj: Map<u64, Seq<(u64, u64)>>, f: Frontier, depth: u32, max_nodes: usize, k: nat) -> Frontier
    decreases k,
{
    if k == 0 {
        f
    } else {
        pop_step(adj, steps(adj, f, depth, max_nodes, (k - 1) as nat), depth, max_nodes)
    }
}

/// `nodes`, `edges` and `reached` are what expanding `seeds` by at most
/// `depth` hops and at most `max_nodes` nodes gives: the nodes visited once
/// the queue runs out, ascending (as many as were visited), the edges
/// taken in order, and the most hops reached.
pub open spec fn expands_to(
    adj: Map<u64, Seq<(u64, u64)>>,
    seeds: Seq<u64>,
    depth: u32,
    max_nodes: usize,
    nodes: Seq<u64>,
    edges: Seq<Edge>,
    reached: u32,
) -> bool {
    &&& ascending(nodes)
    &&& exists|k: nat| {
        let f = #[trigger] steps(adj, seeded(seeds), depth, max_nodes, k);
        &&& f.head == f.queue.len()
        &&& nodes.len() == f.count
        &&& forall|y: u64| nodes.contains(y) <==> f.visited.contains(y)
        &&& edges == f.edges
        &&& reached == f.reached
    }
}

/// The state an expansion keeps (the visited nodes ascending, the edges,
/// the queue and its head, the most hops reached) stands for `f`.
pub open spec fn agrees(
    f: Frontier,
    visited: Seq<u64>,
    edges: Seq<Edge>,
    queue: Seq<(u64, u32)>,
    head: int,
    reached: u32,
) -> bool {
    &&& f.count == visited.len()
    &&& forall|y: u64| visited.contains(y) <==> f.visited.contains(y)
    &&& f.edges == edges
    &&& f.queue == queue
    &&& f.head == head
    &&& f.reached == reached
}

/// Two ascending sequences holding the same values are equal.
proof fn lemma_ascending_unique(a: Seq<u64>, b: Seq<u64>)
    requires
        ascending(a),
        ascending(b),
        forall|y: u64| a.contains(y) <==> b.contains(y),
    ensures
        a == b,
    decreases a.len(),
{
    if a.len() == 0 {
        if b.len() > 0 {
            assert(b.contains(b[0]));
        }
        assert(a =~= b);
    } else {
        assert(a.contains(a[0]));
        assert(b.len() > 0);
        assert(b.contains(b[0]));
        let i = choose|i: int| 0 <= i < a.len() && a[i] == b[0];
        let j = choose|j: int| 0 <= j < b.len() && b[j] == a[0];
        assert(a[0] == b[0]) by {
            if i > 0 {
                assert(a[0] < a[i]);
                assert(b[j] < b[0] || j == 0);
            }
        }
        let a1 = a.drop_first();
        let b1 = b.drop_first();
        assert forall|y: u64| a1.contains(y) <==> b1.contains(y) by {
            if a1.contains(y) {
                let p = choose|p: int| 0 <= p < a1.len() && a1[p] == y;
                assert(a[p + 1] == y);
                assert(a.contains(y));
                let q = choose|q: int| 0 <= q < b.len() && b[q] == y;
                assert(q != 0);
                assert(b1[q - 1] == y);
            }
            if b1.contains(y) {
                let p = choose|p: int| 0 <= p < b1.len() && b1[p] == y;
                assert(b[p + 1] == y);
                assert(b.contains(y));
                let q = choose|q: int| 0 <= q < a.len() && a[q] == y;
                assert(q != 0);
                assert(a1[q - 1] == y);
            }
        }
        lemma_ascending_unique(a1, b1);
        assert(a =~= b) by {
            assert forall|k: int| 0 <= k < a.len() implies a[k] == b[k] by {
                if k > 0 {
                    assert(a[k] == a1[k - 1]);
                    assert(b[k] == b1[k - 1]);
                }
            }
        }
    }
}

/// Once the queue runs out, further steps change nothing.
proof fn lemma_steps_stable(
    adj: Map<u64, Seq<(u64, u64)>>,
    f: Frontier,
    depth: u32,
    max_nodes: usize,
    k: nat,
    k2: nat,
)
    requires
        k <= k2,
        steps(adj, f, depth, max_nodes, k).head >= steps(adj, f, depth, max_nodes, k).queue.len(),
    ensures
        steps(adj, f, depth, max_nodes, k2) == steps(adj, f, depth, max_nodes, k),
    decreases k2,
{
    if k2 > k {
        lemma_steps_stable(adj, f, depth, max_nodes, k, (k2 - 1) as nat);
    }
}

/// Expansion is deterministic: expanding the same seeds in the same graph
/// with the same limits gives the same nodes, edges and hop count.
pub proof fn lemma_expansion_deterministic(
    adj: Map<u64, Seq<(u64, u64)>>,
    seeds: Seq<u64>,
    depth: u32,
    max_nodes: usize,
    nodes1: Seq<u64>,
    edges1: Seq<Edge>,
    reached1: u32,
    nodes2: Seq<u64>,
    edges2: Seq<Edge>,
    reached2: u32,
)
    requires
        expands_to(adj, seeds, depth, max_nodes, nodes1, edges1, reached1),
        expands_to(adj, seeds, depth, max_nodes, nodes2, edges2, reached2),
    ensures
        nodes1 == nodes2,
        edges1 == edges2,
        reached1 == reached2,
{
    let start = seeded(seeds);
    let k1 = choose|k: nat| {
        let f = #[trigger] steps(adj, start, depth, max_nodes, k);
        &&& f.head == f.queue.len()
        &&& nodes1.len() == f.count
        &&& forall|y: u64| nodes1.contains(y) <==> f.visited.contains(y)
        &&& edges1 == f.edges
        &&& reached1 == f.reached
    };
    let k2 = choose|k: nat| {
        let f = #[trigger] steps(adj, start, depth, max_nodes, k);
        &&& f.head == f.queue.len()
        &&& nodes2.len() == f.count
        &&& forall|y: u64| nodes2.contains(y) <==> f.visited.contains(y)
        &&& edges2 == f.edges
        &&& reached2 == f.reached
    };
    if k1 <= k2 {
        lemma_steps_stable(adj, start, depth, max_nodes, k1, k2);
    } else {
        lemma_steps_stable(adj, start, depth, max_nodes, k2, k1);
    }
    let f = steps(adj, start, depth, max_nodes, k1);
    assert forall|y: u64| nodes1.contains(y) <==> nodes2.contains(y) by {
        assert(nodes1.contains(y) <==> f.visited.contains(y));
        assert(nodes2.contains(y) <==> f.visited.contains(y));
    }
    lemma_ascending_unique(nodes1, nodes2);
}


/// `x` is queued at no more than `b` hops.
pub open spec fn queued_within(q: Seq<(u64, u32)>, x: u64, b: int) -> bool {
    exists|i: int| 0 <= i < q.len() && q[i].0 == x && q[i].1 <= b
}

/// Every target of `list` is queued at no more than `b` hops.
pub open spec fn covers(q: Seq<(u64, u32)>, list: Seq<(u64, u64)>, b: int) -> bool {
    forall|t: u64| #[trigger] lists_target(list, t) ==> queued_within(q, t, b)
}

/// What holds of every frontier an expansion passes through: the visited
/// nodes are those queued, one per queue entry; hops along the queue never
/// decrease and none exceeds the head's by more than one; every seed is
/// queued at zero hops; and every node taken from the queue at fewer than
/// `depth` hops, while the node limit is not reached, has all its neighbors
/// queued at most one hop further.
pub open spec fn frontier_inv(
    adj: Map<u64, Seq<(u64, u64)>>,
    seeds: Seq<u64>,
    depth: u32,
    max_nodes: usize,
    f: Frontier,
) -> bool {
    let q = f.queue;
    &&& f.head <= q.len()
    &&& f.count == q.len()
    &&& forall|x: u64| #[trigger] f.visited.contains(x) <==> exists|i: int| 0 <= i < q.len() && q[i].0 == x
    &&& forall|i: int, j: int| 0 <= i <= j < q.len() ==> #[trigger] q[i].1 <= #[trigger] q[j].1
    &&& f.head < q.len() ==> forall|j: int| 0 <= j < q.len() ==> #[trigger] q[j].1 <= q[f.head as int].1 + 1
    &&& forall|x: u64| #[trigger] seeds.contains(x) ==> queued_within(q, x, 0)
    &&& forall|i: int|
        0 <= i < f.head ==> (#[trigger] q[i]).1 < depth && f.count < max_nodes ==> covers(q, nbrs(adj, q[i].0), q[i].1 + 1)
}

proof fn lemma_queued_push(q: Seq<(u64, u32)>, e: (u64, u32), x: u64, b: int)
    requires
        queued_within(q, x, b),
    ensures
        queued_within(q.push(e), x, b),
{
    let i = choose|i: int| 0 <= i < q.len() && q[i].0 == x && q[i].1 <= b;
    assert(q.push(e)[i] == q[i]);
}

proof fn lemma_covers_push(q: Seq<(u64, u32)>, e: (u64, u32), list: Seq<(u64, u64)>, b: int)
    requires
        covers(q, list, b),
    ensures
        covers(q.push(e), list, b),
{
    assert forall|t: u64| #[trigger] lists_target(list, t) implies queued_within(q.push(e), t, b) by {
        lemma_queued_push(q, e, t, b);
    }
}

/// Seeding queues every seed at zero hops and takes nothing from the queue.
proof fn lemma_seeded_inv(adj: Map<u64, Seq<(u64, u64)>>, seeds: Seq<u64>, depth: u32, max_nodes: usize)
    ensures
        frontier_inv(adj, seeds, depth, max_nodes, seeded(seeds)),
        seeded(seeds).head == 0,
        forall|j: int| 0 <= j < seeded(seeds).queue.len() ==> #[trigger] seeded(seeds).queue[j].1 == 0,
    decreases seeds.len(),
{
    let f = seeded(seeds);
    if seeds.len() > 0 {
        let s0 = seeds.drop_last();
        let f0 = seeded(s0);
        lemma_seeded_inv(adj, s0, depth, max_nodes);
        let x = seeds.last();
        assert forall|y: u64| #[trigger] seeds.contains(y) implies queued_within(f.queue, y, 0) by {
            let k = choose|k: int| 0 <= k < seeds.len() && seeds[k] == y;
            if k < s0.len() {
                assert(s0[k] == y);
                assert(s0.contains(y));
                if !f0.visited.contains(x) {
                    lemma_queued_push(f0.queue, (x, 0u32), y, 0);
                }
            } else if f0.visited.contains(x) {
                let i = choose|i: int| 0 <= i < f0.queue.len() && f0.queue[i].0 == x;
                assert(queued_within(f.queue, y, 0));
            } else {
                assert(f.queue[f0.queue.len() as int] == (x, 0u32));
            }
        }
        if !f0.visited.contains(x) {
            let q = f.queue;
            assert forall|z: u64| #[trigger] f.visited.contains(z) implies exists|i: int| 0 <= i < q.len() && q[i].0 == z by {
                if z == x {
                    assert(q[f0.queue.len() as int].0 == z);
                } else {
                    let i = choose|i: int| 0 <= i < f0.queue.len() && f0.queue[i].0 == z;
                    assert(q[i].0 == z);
                }
            }
            assert forall|z: u64| (exists|i: int| 0 <= i < q.len() && q[i].0 == z) implies #[trigger] f.visited.contains(z) by {
                let i = choose|i: int| 0 <= i < q.len() && q[i].0 == z;
                if i < f0.queue.len() {
                    assert(f0.queue[i].0 == z);
                }
            }
        }
    }
}

/// What holds while the neighbors of `node`, taken from the queue at `d`
/// hops, are offered: as `frontier_inv`, except that the entry just taken
/// is `(node, d)` and every entry is at most `d + 1` hops; of that entry,
/// the neighbors offered so far (`done`) are queued at most `d + 1` hops
/// while the node limit is not reached.
pub open spec fn offering_inv(
    adj: Map<u64, Seq<(u64, u64)>>,
    seeds: Seq<u64>,
    depth: u32,
    max_nodes: usize,
    f: Frontier,
    node: u64,
    d: u32,
    done: Seq<(u64, u64)>,
) -> bool {
    let q = f.queue;
    &&& 0 < f.head <= q.len()
    &&& q[f.head - 1] == (node, d)
    &&& d < depth
    &&& f.count == q.len()
    &&& forall|x: u64| #[trigger] f.visited.contains(x) <==> exists|i: int| 0 <= i < q.len() && q[i].0 == x
    &&& forall|i: int, j: int| 0 <= i <= j < q.len() ==> #[trigger] q[i].1 <= #[trigger] q[j].1
    &&& forall|j: int| 0 <= j < q.len() ==> #[trigger] q[j].1 <= d + 1
    &&& forall|x: u64| #[trigger] seeds.contains(x) ==> queued_within(q, x, 0)
    &&& forall|i: int|
        0 <= i < f.head - 1 ==> (#[trigger] q[i]).1 < depth && f.count < max_nodes ==> covers(q, nbrs(adj, q[i].0), q[i].1 + 1)
    &&& f.count < max_nodes ==> covers(q, done, d + 1)
}

proof fn lemma_lists_target_push(l: Seq<(u64, u64)>, e: (u64, u64), t: u64)
    ensures
        lists_target(l.push(e), t) <==> (lists_target(l, t) || e.0 == t),
{
    let l2 = l.push(e);
    if lists_target(l2, t) {
        let i = choose|i: int| 0 <= i < l2.len() && l2[i].0 == t;
        if i < l.len() {
            assert(l[i].0 == t);
        }
    }
    if lists_target(l, t) {
        let i = choose|i: int| 0 <= i < l.len() && l[i].0 == t;
        assert(l2[i].0 == t);
    }
    if e.0 == t {
        assert(l2[l.len() as int].0 == t);
    }
}

/// Offering one more neighbor keeps `offering_inv`.
proof fn lemma_offer_inv(
    adj: Map<u64, Seq<(u64, u64)>>,
    seeds: Seq<u64>,
    depth: u32,
    max_nodes: usize,
    f: Frontier,
    node: u64,
    d: u32,
    done: Seq<(u64, u64)>,
    n: u64,
    w: u64,
)
    requires
        offering_inv(adj, seeds, depth, max_nodes, f, node, d, done),
    ensures
        offering_inv(adj, seeds, depth, max_nodes, offer(f, node, d, n, w, max_nodes), node, d, done.push((n, w))),
{
    let f2 = offer(f, node, d, n, w, max_nodes);
    let q = f.queue;
    let q2 = f2.queue;
    let done2 = done.push((n, w));
    if f.count < max_nodes && !f.visited.contains(n) {
        let e = (n, (d + 1) as u32);
        assert(q2 == q.push(e));
        assert forall|x: u64| #[trigger] f2.visited.contains(x) <==> exists|i: int| 0 <= i < q2.len() && q2[i].0 == x by {
            if f2.visited.contains(x) {
                if x == n {
                    assert(q2[q.len() as int].0 == x);
                } else {
                    let i = choose|i: int| 0 <= i < q.len() && q[i].0 == x;
                    assert(q2[i].0 == x);
                }
            }
            if exists|i: int| 0 <= i < q2.len() && q2[i].0 == x {
                let i = choose|i: int| 0 <= i < q2.len() && q2[i].0 == x;
                if i < q.len() {
                    assert(q[i].0 == x);
                }
            }
        }
        assert forall|i: int, j: int| 0 <= i <= j < q2.len() implies #[trigger] q2[i].1 <= #[trigger] q2[j].1 by {
            if j < q.len() {
                assert(q[i].1 <= q[j].1);
            } else if i < q.len() {
                assert(q[i].1 <= d + 1);
            }
        }
        assert forall|x: u64| #[trigger] seeds.contains(x) implies queued_within(q2, x, 0) by {
            lemma_queued_push(q, e, x, 0);
        }
        assert forall|i: int|
            0 <= i < f2.head - 1 && (#[trigger] q2[i]).1 < depth && f2.count < max_nodes implies covers(
            q2,
            nbrs(adj, q2[i].0),
            q2[i].1 + 1,
        ) by {
            assert(q2[i] == q[i]);
            lemma_covers_push(q, e, nbrs(adj, q[i].0), q[i].1 + 1);
        }
        if f2.count < max_nodes {
            assert forall|t: u64| #[trigger] lists_target(done2, t) implies queued_within(q2, t, d + 1) by {
                lemma_lists_target_push(done, (n, w), t);
                if t == n {
                    assert(q2[q.len() as int] == e);
                } else {
                    lemma_queued_push(q, e, t, d + 1);
                }
            }
        }
    } else {
        assert(q2 == q);
        if f2.count < max_nodes {
            assert forall|t: u64| #[trigger] lists_target(done2, t) implies queued_within(q2, t, d + 1) by {
                lemma_lists_target_push(done, (n, w), t);
                if t == n && !lists_target(done, t) {
                    assert(f.visited.contains(n));
                    let i = choose|i: int| 0 <= i < q.len() && q[i].0 == n;
                    assert(q[i].1 <= d + 1);
                }
            }
        }
    }
}

/// Offering a whole neighbor list keeps `offering_inv`.
proof fn lemma_offer_all_inv(
    adj: Map<u64, Seq<(u64, u64)>>,
    seeds: Seq<u64>,
    depth: u32,
    max_nodes: usize,
    f: Frontier,
    node: u64,
    d: u32,
    list: Seq<(u64, u64)>,
)
    requires
        offering_inv(adj, seeds, depth, max_nodes, f, node, d, Seq::empty()),
    ensures
        offering_inv(adj, seeds, depth, max_nodes, offer_all(f, node, d, list, max_nodes), node, d, list),
        offer_all(f, node, d, list, max_nodes).head == f.head,
    decreases list.len(),
{
    if list.len() == 0 {
        assert(list =~= Seq::<(u64, u64)>::empty());
    } else {
        let init = list.drop_last();
        lemma_offer_all_inv(adj, seeds, depth, max_nodes, f, node, d, init);
        lemma_offer_inv(
            adj,
            seeds,
            depth,
            max_nodes,
            offer_all(f, node, d, init, max_nodes),
            node,
            d,
            init,
            list.last().0,
            list.last().1,
        );
        assert(init.push((list.last().0, list.last().1)) =~= list);
    }
}

/// A step of the expansion keeps `frontier_inv`.
proof fn lemma_pop_step_inv(
    adj: Map<u64, Seq<(u64, u64)>>,
    seeds: Seq<u64>,
    depth: u32,
    max_nodes: usize,
    f: Frontier,
)
    requires
        frontier_inv(adj, seeds, depth, max_nodes, f),
    ensures
        frontier_inv(adj, seeds, depth, max_nodes, pop_step(adj, f, depth, max_nodes)),
{
    if f.head < f.queue.len() {
        let q = f.queue;
        let h = f.head as int;
        let node = q[h].0;
        let d = q[h].1;
        let g = Frontier { head: f.head + 1, ..f };
        if d < depth && g.count < max_nodes {
            assert(!lists_target(Seq::<(u64, u64)>::empty(), 0u64));
            assert(offering_inv(adj, seeds, depth, max_nodes, g, node, d, Seq::empty()));
            lemma_offer_all_inv(adj, seeds, depth, max_nodes, g, node, d, nbrs(adj, node));
            let f2 = offer_all(g, node, d, nbrs(adj, node), max_nodes);
            let q2 = f2.queue;
            assert(f2 == pop_step(adj, f, depth, max_nodes));
            if f2.head < q2.len() {
                assert forall|j: int| 0 <= j < q2.len() implies #[trigger] q2[j].1 <= q2[f2.head as int].1 + 1 by {
                    assert(q2[h].1 <= q2[f2.head as int].1);
                }
            }
            assert forall|i: int|
                0 <= i < f2.head && (#[trigger] q2[i]).1 < depth && f2.count < max_nodes implies covers(
                q2,
                nbrs(adj, q2[i].0),
                q2[i].1 + 1,
            ) by {
                if i == h {
                    assert(q2[i] == (node, d));
                }
            }
        } else {
            let f2 = pop_step(adj, f, depth, max_nodes);
            assert(f2 == g);
            if g.head < q.len() {
                assert forall|j: int| 0 <= j < q.len() implies #[trigger] q[j].1 <= q[g.head as int].1 + 1 by {
                    assert(q[j].1 <= q[h].1 + 1);
                    assert(q[h].1 <= q[g.head as int].1);
                }
            }
        }
    }
}

/// Every frontier an expansion passes through satisfies `frontier_inv`.
proof fn lemma_steps_inv(
    adj: Map<u64, Seq<(u64, u64)>>,
    seeds: Seq<u64>,
    depth: u32,
    max_nodes: usize,
    k: nat,
)
    ensures
        frontier_inv(adj, seeds, depth, max_nodes, steps(adj, seeded(seeds), depth, max_nodes, k)),
    decreases k,
{
    if k == 0 {
        lemma_seeded_inv(adj, seeds, depth, max_nodes);
    } else {
        lemma_steps_inv(adj, seeds, depth, max_nodes, (k - 1) as nat);
        lemma_pop_step_inv(adj, seeds, depth, max_nodes, steps(adj, seeded(seeds), depth, max_nodes, (k - 1) as nat));
    }
}

/// Once the queue of a frontier runs out, the node limit not reached,
/// every node within `j` hops of the seeds (`j` at most `depth`) is queued
/// at no more than `j` hops.
proof fn lemma_reach(
    adj: Map<u64, Seq<(u64, u64)>>,
    seeds: Seq<u64>,
    depth: u32,
    max_nodes: usize,
    f: Frontier,
    n: u64,
    j: nat,
)
    requires
        frontier_inv(adj, seeds, depth, max_nodes, f),
        f.head == f.queue.len(),
        f.count < max_nodes,
        j <= depth,
        within(adj, seeds, n, j),
    ensures
        queued_within(f.queue, n, j as int),
    decreases j,
{
    let q = f.queue;
    if seeds.contains(n) {
        let i = choose|i: int| 0 <= i < q.len() && q[i].0 == n && q[i].1 <= 0;
        assert(q[i].1 <= j);
    } else {
        let u = choose|u: u64|
            #![trigger nbrs(adj, u)]
            within(adj, seeds, u, (j - 1) as nat) && lists_target(nbrs(adj, u), n);
        lemma_reach(adj, seeds, depth, max_nodes, f, u, (j - 1) as nat);
        let i = choose|i: int| 0 <= i < q.len() && q[i].0 == u && q[i].1 <= j - 1;
        assert(q[i].1 < depth);
        assert(covers(q, nbrs(adj, q[i].0), q[i].1 + 1));
        assert(queued_within(q, n, q[i].1 + 1));
        let m = choose|m: int| 0 <= m < q.len() && q[m].0 == n && q[m].1 <= q[i].1 + 1;
        assert(q[m].1 <= j);
    }
}

/// An expansion that was not cut short by its node limit (it visited
/// fewer than `max_nodes` nodes) reached every node within `depth` hops of
/// the seeds.
pub proof fn lemma_expansion_reaches(
    adj: Map<u64, Seq<(u64, u64)>>,
    seeds: Seq<u64>,
    depth: u32,
    max_nodes: usize,
    nodes: Seq<u64>,
    edges: Seq<Edge>,
    reached: u32,
    n: u64,
)
    requires
        expands_to(adj, seeds, depth, max_nodes, nodes, edges, reached),
        nodes.len() < max_nodes,
        within(adj, seeds, n, depth as nat),
    ensures
        nodes.contains(n),
{
    let start = seeded(seeds);
    let k = choose|k: nat| {
        let f = #[trigger] steps(adj, start, depth, max_nodes, k);
        &&& f.head == f.queue.len()
        &&& nodes.len() == f.count
        &&& forall|y: u64| nodes.contains(y) <==> f.visited.contains(y)
        &&& edges == f.edges
        &&& reached == f.reached
    };
    let f = steps(adj, start, depth, max_nodes, k);
    lemma_steps_inv(adj, seeds, depth, max_nodes, k);
    lemma_reach(adj, seeds, depth, max_nodes, f, n, depth as nat);
    let i = choose|i: int| 0 <= i < f.queue.len() && f.queue[i].0 == n && f.queue[i].1 <= depth;
    assert(f.visited.contains(n));
}

/// Every visited node that is not a seed came with exactly one edge.
proof fn lemma_edges_inv(
    adj: Map<u64, Seq<(u64, u64)>>,
    seeds: Seq<u64>,
    depth: u32,
    max_nodes: usize,
    k: nat,
)
    ensures
        steps(adj, seeded(seeds), depth, max_nodes, k).edges.len() + seeded(seeds).count
            == steps(adj, seeded(seeds), depth, max_nodes, k).count,
    decreases k,
{
    if k == 0 {
        lemma_seeded_count(seeds);
    } else {
        lemma_edges_inv(adj, seeds, depth, max_nodes, (k - 1) as nat);
        let f = steps(adj, seeded(seeds), depth, max_nodes, (k - 1) as nat);
        if f.head < f.queue.len() {
            let node = f.queue[f.head as int].0;
            let d = f.queue[f.head as int].1;
            let g = Frontier { head: f.head + 1, ..f };
            lemma_offer_all_edges(g, node, d, nbrs(adj, node), max_nodes);
        }
    }
}

proof fn lemma_offer_all_edges(f: Frontier, from: u64, d: u32, list: Seq<(u64, u64)>, max_nodes: usize)
    ensures
        offer_all(f, from, d, list, max_nodes).count - offer_all(f, from, d, list, max_nodes).edges.len()
            == f.count - f.edges.len(),
    decreases list.len(),
{
    if list.len() > 0 {
        lemma_offer_all_edges(f, from, d, list.drop_last(), max_nodes);
    }
}

/// Seeding visits each distinct seed once.
proof fn lemma_seeded_count(seeds: Seq<u64>)
    ensures
        seeded(seeds).visited == seeds.to_set(),
        seeded(seeds).visited.finite(),
        seeded(seeds).count == seeded(seeds).visited.len(),
        seeded(seeds).edges.len() == 0,
    decreases seeds.len(),
{
    if seeds.len() == 0 {
        assert(seeds.to_set() =~= Set::<u64>::empty());
    } else {
        let s0 = seeds.drop_last();
        lemma_seeded_count(s0);
        assert(seeds.to_set() =~= s0.to_set().insert(seeds.last())) by {
            assert forall|x: u64| seeds.to_set().contains(x) <==> s0.to_set().insert(seeds.last()).contains(x) by {
                if seeds.contains(x) {
                    let i = choose|i: int| 0 <= i < seeds.len() && seeds[i] == x;
                    if i < s0.len() {
                        assert(s0[i] == x);
                    }
                }
                if s0.contains(x) {
                    let i = choose|i: int| 0 <= i < s0.len() && s0[i] == x;
                    assert(seeds[i] == x);
                }
                if x == seeds.last() {
                    assert(seeds[seeds.len() - 1] == x);
                }
            }
        }
    }
}

/// An expansion takes one edge for each node it visits beyond the
/// distinct seeds.
pub proof fn lemma_expansion_edge_count(
    adj: Map<u64, Seq<(u64, u64)>>,
    seeds: Seq<u64>,
    depth: u32,
    max_nodes: usize,
    nodes: Seq<u64>,
    edges: Seq<Edge>,
    reached: u32,
)
    requires
        expands_to(adj, seeds, depth, max_nodes, nodes, edges, reached),
    ensures
        edges.len() + seeds.to_set().len() == nodes.len(),
{
    let start = seeded(seeds);
    let k = choose|k: nat| {
        let f = #[trigger] steps(adj, start, depth, max_nodes, k);
        &&& f.head == f.queue.len()
        &&& nodes.len() == f.count
        &&& forall|y: u64| nodes.contains(y) <==> f.visited.contains(y)
        &&& edges == f.edges
        &&& reached == f.reached
    };
    lemma_edges_inv(adj, seeds, depth, max_nodes, k);
    lemma_seeded_count(seeds);
}

/// A step adds a node only while fewer than `max_nodes` are visited.
proof fn lemma_offer_all_bound(f: Frontier, from: u64, d: u32, list: Seq<(u64, u64)>, max_nodes: usize, b: int)
    requires
        f.count <= b,
        max_nodes <= b,
    ensures
        offer_all(f, from, d, list, max_nodes).count <= b,
    decreases list.len(),
{
    if list.len() > 0 {
        lemma_offer_all_bound(f, from, d, list.drop_last(), max_nodes, b);
    }
}

proof fn lemma_steps_bound(
    adj: Map<u64, Seq<(u64, u64)>>,
    seeds: Seq<u64>,
    depth: u32,
    max_nodes: usize,
    k: nat,
)
    ensures
        steps(adj, seeded(seeds), depth, max_nodes, k).count <= if seeded(seeds).count > max_nodes {
            seeded(seeds).count as int
        } else {
            max_nodes as int
        },
    decreases k,
{
    let b: int = if seeded(seeds).count > max_nodes {
        seeded(seeds).count as int
    } else {
        max_nodes as int
    };
    if k > 0 {
        lemma_steps_bound(adj, seeds, depth, max_nodes, (k - 1) as nat);
        let f = steps(adj, seeded(seeds), depth, max_nodes, (k - 1) as nat);
        if f.head < f.queue.len() {
            let node = f.queue[f.head as int].0;
            let d = f.queue[f.head as int].1;
            let g = Frontier { head: f.head + 1, ..f };
            lemma_offer_all_bound(g, node, d, nbrs(adj, node), max_nodes, b);
        }
    }
}

/// An expansion visits no more nodes than the larger of `max_nodes` and
/// the number of distinct seeds.
pub proof fn lemma_expansion_size(
    adj: Map<u64, Seq<(u64, u64)>>,
    seeds: Seq<u64>,
    depth: u32,
    max_nodes: usize,
    nodes: Seq<u64>,
    edges: Seq<Edge>,
    reached: u32,
)
    requires
        expands_to(adj, seeds, depth, max_nodes, nodes, edges, reached),
    ensures
        nodes.len() <= if seeds.to_set().len() > max_nodes {
            seeds.to_set().len() as int
        } else {
            max_nodes as int
        },
{
    let start = seeded(seeds);
    let k = choose|k: nat| {
        let f = #[trigger] steps(adj, start, depth, max_nodes, k);
        &&& f.head == f.queue.len()
        &&& nodes.len() == f.count
        &&& forall|y: u64| nodes.contains(y) <==> f.visited.contains(y)
        &&& edges == f.edges
        &&& reached == f.reached
    };
    lemma_steps_bound(adj, seeds, depth, max_nodes, k);
    lemma_seeded_count(seeds);
}

} // verus!
