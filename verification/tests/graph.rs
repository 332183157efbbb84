use kce::graph::SemanticGraph;
use std::collections::BTreeSet;

fn w(x: f64) -> u64 {
    x.to_bits()
}

#[test]
fn add_edge_bidirectional() {
    let mut g = SemanticGraph::new();
    g.add_edge(1, 2, w(0.5));
    let n1 = g.neighbors(1);
    let n2 = g.neighbors(2);
    assert_eq!(n1.len(), 1);
    assert_eq!(n1[0].0, 2);
    assert_eq!(n2.len(), 1);
    assert_eq!(n2[0].0, 1);
}

#[test]
fn neighbors_empty_node() {
    let g = SemanticGraph::new();
    assert!(g.neighbors(99).is_empty());
}

#[test]
fn expand_depth_1() {
    let mut g = SemanticGraph::new();
    g.add_edge(1, 2, w(0.5));
    g.add_edge(1, 3, w(0.8));
    let result = g.expand(&[1], 1);
    assert!(result.nodes.contains(&1));
    let result = g.expand_with_limit(&[1], 1, 100);
    assert!(result.nodes.contains(&1));
    assert!(result.nodes.contains(&2));
    assert!(result.nodes.contains(&3));
}

#[test]
fn expand_no_duplicates() {
    let mut g = SemanticGraph::new();
    g.add_edge(1, 2, w(0.5));
    g.add_edge(2, 3, w(0.5));
    g.add_edge(3, 1, w(0.5));
    let result = g.expand(&[1], 10);
    let unique: BTreeSet<u64> = result.nodes.iter().copied().collect();
    assert_eq!(unique.len(), result.nodes.len());
}

#[test]
fn expand_auto_2x_limit() {
    let mut g = SemanticGraph::new();
    for i in 0..100u64 {
        g.add_edge(0, i + 1, w(0.5));
    }
    let result = g.expand(&[0], 2);
    assert!(result.nodes.len() <= 2);
}

#[test]
fn expand_with_limit_respects_max() {
    let mut g = SemanticGraph::new();
    for i in 0..100u64 {
        g.add_edge(0, i + 1, w(0.5));
    }
    let result = g.expand_with_limit(&[0], 2, 5);
    assert!(result.nodes.len() <= 5);
}

#[test]
fn remove_edge() {
    let mut g = SemanticGraph::new();
    g.add_edge(1, 2, w(0.5));
    g.remove_edge(1, 2);
    assert!(g.neighbors(1).is_empty());
    assert!(g.neighbors(2).is_empty());
}

#[test]
fn expand_deterministic() {
    let mut g = SemanticGraph::new();
    g.add_edge(1, 2, w(0.5));
    g.add_edge(1, 3, w(0.8));
    g.add_edge(2, 4, w(0.3));
    let r1 = g.expand(&[1], 2);
    let r2 = g.expand(&[1], 2);
    assert_eq!(r1.nodes, r2.nodes);
}

#[test]
fn node_count() {
    let mut g = SemanticGraph::new();
    g.add_edge(1, 2, w(0.5));
    g.add_edge(3, 4, w(0.5));
    assert_eq!(g.node_count(), 4);
}

#[test]
fn edge_count() {
    let mut g = SemanticGraph::new();
    g.add_edge(1, 2, w(0.5));
    assert_eq!(g.edge_count(), 2);
}

#[test]
fn expand_multiple_seeds() {
    let mut g = SemanticGraph::new();
    g.add_edge(1, 2, w(0.5));
    g.add_edge(10, 20, w(0.8));
    let result = g.expand(&[1, 10], 1);
    assert!(result.nodes.contains(&1));
    assert!(result.nodes.contains(&10));
    assert!(result.nodes.contains(&2));
    assert!(result.nodes.contains(&20));
}

#[test]
fn expansion_sorted_edges_and_depth() {
    let mut g = SemanticGraph::new();
    g.add_edge(5, 3, w(0.5));
    g.add_edge(3, 9, w(0.25));
    let r = g.expand_with_limit(&[5], 2, 10);
    assert_eq!(r.nodes, vec![3, 5, 9]);
    assert_eq!(r.depth_reached, 2);
    assert_eq!(r.edges.len(), 2);
    assert_eq!((r.edges[0].from, r.edges[0].to), (5, 3));
    assert_eq!(r.edges[0].weight_bits, w(0.5));
    assert_eq!((r.edges[1].from, r.edges[1].to), (3, 9));
    // Depth 0 keeps only the seeds.
    let r0 = g.expand_with_limit(&[5], 0, 10);
    assert_eq!(r0.nodes, vec![5]);
    assert_eq!(r0.depth_reached, 0);
}

#[test]
fn add_edge_twice_keeps_one() {
    let mut g = SemanticGraph::new();
    g.add_edge(1, 2, w(0.5));
    g.add_edge(1, 2, w(0.9));
    assert_eq!(g.edge_count(), 2);
    assert_eq!(g.neighbors(1), vec![(2, w(0.5))]);
}

#[test]
fn expansion_limit_keeps_first_neighbors() {
    let mut g = SemanticGraph::new();
    for i in 1..=5u64 {
        g.add_edge(0, i, w(0.5));
    }
    let r = g.expand_with_limit(&[0], 2, 3);
    assert_eq!(r.nodes, vec![0, 1, 2]);
    assert_eq!(r.edges.len(), 2);
    assert_eq!((r.edges[0].from, r.edges[0].to), (0, 1));
    assert_eq!((r.edges[1].from, r.edges[1].to), (0, 2));
    assert_eq!(r.depth_reached, 1);
}

#[test]
fn expansion_reaches_all_within_depth() {
    let mut g = SemanticGraph::new();
    for i in 1..5u64 {
        g.add_edge(i, i + 1, w(0.5));
    }
    g.add_edge(1, 7, w(0.5));
    let r = g.expand_with_limit(&[1], 3, 100);
    assert_eq!(r.nodes, vec![1, 2, 3, 4, 7]);
    assert_eq!(r.depth_reached, 3);
}

#[test]
fn repeated_seeds_count_once_toward_the_limit() {
    let mut g = SemanticGraph::new();
    g.add_edge(1, 2, w(0.5));
    let r = g.expand_with_limit(&[1, 1, 1], 2, 1);
    assert_eq!(r.nodes, vec![1]);
    assert!(r.edges.is_empty());
}
