//! Strongly connected components and cycle detection on small directed
//! graphs given as a node count and an edge list, computed by petgraph.
use vstd::prelude::*;

verus! {

/// `p` is a walk along `edges`.
pub open spec fn is_path(edges: Seq<(usize, usize)>, p: Seq<usize>) -> bool {
    &&& p.len() >= 1
    &&& forall|i: int| 0 <= i < p.len() - 1 ==> edges.contains((#[trigger] p[i], p[i + 1]))
}

/// There is a walk from `a` to `b` (of length zero when they are equal).
pub open spec fn reaches(edges: Seq<(usize, usize)>, a: usize, b: usize) -> bool {
    exists|p: Seq<usize>| #[trigger] is_path(edges, p) && p[0] == a && p.last() == b
}

/// There is a walk of at least one edge from some node back to itself.
pub open spec fn has_cycle(edges: Seq<(usize, usize)>) -> bool {
    exists|p: Seq<usize>| #[trigger] is_path(edges, p) && p.len() >= 2 && p[0] == p.last()
}

pub open spec fn edges_in_range(n: nat, edges: Seq<(usize, usize)>) -> bool {
    forall|e: int| 0 <= e < edges.len() ==> (#[trigger] edges[e]).0 < n && edges[e].1 < n
}

/// The components that Tarjan's algorithm returns for a graph with nodes
/// `0..n` and the given edges, in the order it returns them.
pub uninterp spec fn tarjan_order(n: nat, edges: Seq<(usize, usize)>) -> Seq<Seq<usize>>;

/// `v` is listed in one of the components.
pub open spec fn in_some(comps: Seq<Seq<usize>>, v: usize) -> bool {
    exists|c: int, k: int| 0 <= c < comps.len() && 0 <= k < comps[c].len() && #[trigger] comps[c][k] == v
}

/// `comps` partitions `0..n` into the strongly connected components of the
/// graph, listed so that every edge between two components leads to an
/// earlier one (reverse topological order).
pub open spec fn scc_partition(n: nat, edges: Seq<(usize, usize)>, comps: Seq<Seq<usize>>) -> bool {
    &&& forall|c: int| 0 <= c < comps.len() ==> (#[trigger] comps[c]).len() > 0
    &&& forall|c: int, k: int| 0 <= c < comps.len() && 0 <= k < comps[c].len() ==> (#[trigger] comps[c][k]) < n
    &&& forall|v: usize| v < n ==> #[trigger] in_some(comps, v)
    &&& forall|c1: int, k1: int, c2: int, k2: int|
        0 <= c1 < comps.len() && 0 <= k1 < comps[c1].len() && 0 <= c2 < comps.len() && 0 <= k2 < comps[c2].len()
            && (c1, k1) != (c2, k2) ==> #[trigger] comps[c1][k1] != #[trigger] comps[c2][k2]
    &&& forall|c: int, k1: int, k2: int| 0 <= c < comps.len() && 0 <= k1 < comps[c].len() && 0 <= k2 < comps[c].len()
        ==> reaches(edges, #[trigger] comps[c][k1], #[trigger] comps[c][k2])
    &&& forall|c1: int, k1: int, c2: int, k2: int|
        0 <= c1 < comps.len() && 0 <= k1 < comps[c1].len() && 0 <= c2 < comps.len() && 0 <= k2 < comps[c2].len()
            && c1 != c2 && reaches(edges, #[trigger] comps[c1][k1], #[trigger] comps[c2][k2]) ==> c2 < c1
}

pub open spec fn comps_model(v: Seq<Vec<usize>>) -> Seq<Seq<usize>> {
    v.map_values(|c: Vec<usize>| c@)
}

/// Relies on petgraph's `tarjan_scc`: it returns the strongly connected
/// components, each once, in postorder (reverse topological order); the
/// result depends on the graph alone. `add_node` and `add_edge` panic on an
/// end out of range or when the `u32` node or edge indices run out.
#[verifier::external_body]
pub fn tarjan_scc(n: usize, edges: &Vec<(usize, usize)>) -> (r: Vec<Vec<usize>>)
    requires
        n < u32::MAX,
        edges@.len() < u32::MAX,
        edges_in_range(n as nat, edges@),
    ensures
        comps_model(r@) == tarjan_order(n as nat, edges@),
        scc_partition(n as nat, edges@, comps_model(r@)),
{
    let mut g = petgraph::Graph::<(), ()>::with_capacity(n, edges.len());
    for _ in 0..n {
        g.add_node(());
    }
    for &(a, b) in edges.iter() {
        g.add_edge(petgraph::graph::NodeIndex::new(a), petgraph::graph::NodeIndex::new(b), ());
    }
    let sccs = petgraph::algo::tarjan_scc(&g);
    sccs.into_iter().map(|c| c.into_iter().map(|i| i.index()).collect()).collect()
}

/// Relies on petgraph's `is_cyclic_directed`: whether the directed graph
/// has a cycle (a self-loop counts). Building the graph panics as for
/// `tarjan_scc`.
#[verifier::external_body]
pub fn is_cyclic_directed(n: usize, edges: &Vec<(usize, usize)>) -> (r: bool)
    requires
        n < u32::MAX,
        edges@.len() < u32::MAX,
        edges_in_range(n as nat, edges@),
    ensures
        r == has_cycle(edges@),
{
    let mut g = petgraph::Graph::<(), ()>::with_capacity(n, edges.len());
    for _ in 0..n {
        g.add_node(());
    }
    for &(a, b) in edges.iter() {
        g.add_edge(petgraph::graph::NodeIndex::new(a), petgraph::graph::NodeIndex::new(b), ());
    }
    petgraph::algo::is_cyclic_directed(&g)
}

} // verus!
