//! The dependence graph: one node per statement seen in the trace, one edge
//! per pair of statements with a dependence, weighted by its level
//! dependences.
use vstd::prelude::*;
use crate::analysis::{agg_set, dependence_set, find_deps, sorted_lds, wf_deps, Dependency, DepTuple};
use crate::deps::{level_spec, InstanceModel, LevelDependency, Statement, StatementInstance};
use crate::lex::strings_model;
use crate::trace::{accesses_model, instances_model, read_trace, trace_run, TraceError};

verus! {

/// A directed edge between two nodes, by position in the node list.
pub struct DepEdge {
    pub source: usize,
    pub target: usize,
    pub weight: Vec<LevelDependency>,
}

/// Nodes are statement labels in ascending order; edges join distinct
/// ordered pairs of nodes.
pub struct DepGraph {
    pub nodes: Vec<Statement>,
    pub edges: Vec<DepEdge>,
}

pub open spec fn strictly_sorted(s: Seq<Statement>) -> bool {
    forall|i: int, j: int| 0 <= i < j < s.len() ==> s[i] < s[j]
}

impl DepGraph {
    /// Labels ascending, edge ends in range, one edge per ordered pair,
    /// each weight non-empty and strictly ordered.
    pub open spec fn wf(&self) -> bool {
        &&& strictly_sorted(self.nodes@)
        &&& forall|e: int| 0 <= e < self.edges@.len() ==> (#[trigger] self.edges@[e]).source < self.nodes@.len()
            && self.edges@[e].target < self.nodes@.len() && sorted_lds(self.edges@[e].weight@)
            && self.edges@[e].weight@.len() > 0
        &&& forall|e1: int, e2: int| 0 <= e1 < e2 < self.edges@.len() ==> (self.edges@[e1].source, self.edges@[e1].target)
            != (self.edges@[e2].source, self.edges@[e2].target)
    }

    /// The dependence tuples that the edges carry, by statement label.
    pub open spec fn tuples(&self) -> Set<DepTuple> {
        Set::new(
            |t: DepTuple|
                exists|e: int, k: int|
                    0 <= e < self.edges@.len() && 0 <= k < self.edges@[e].weight@.len() && t == (
                        self.nodes@[self.edges@[e].source as int],
                        self.nodes@[self.edges@[e].target as int],
                        #[trigger] self.edges@[e].weight@[k].0,
                        self.edges@[e].weight@[k].1,
                    ),
        )
    }
}

/// Statement labels of the instances.
pub open spec fn statement_set(insts: Seq<InstanceModel>) -> Set<Statement> {
    Set::new(|s: Statement| exists|i: int| 0 <= i < insts.len() && (#[trigger] insts[i]).statement == s)
}

/// Adds `x` to a strictly ascending list, keeping it so.
fn insert_label(v: &mut Vec<Statement>, x: Statement)
    requires
        strictly_sorted(old(v)@),
    ensures
        strictly_sorted(final(v)@),
        final(v)@.to_set() == old(v)@.to_set().insert(x),
{
    let mut i: usize = 0;
    while i < v.len() && v[i] < x
        invariant
            i <= v.len(),
            forall|j: int| 0 <= j < i ==> #[trigger] v@[j] < x,
        decreases v.len() - i,
    {
        i = i + 1;
    }
    if i < v.len() && v[i] == x {
        proof {
            assert(v@.to_set() =~= v@.to_set().insert(x));
        }
        return;
    }
    let ghost old_v = v@;
    v.insert(i, x);
    proof {
        assert forall|a: int, b: int| 0 <= a < b < v@.len() implies v@[a] < v@[b] by {
            if a < i && b > i {
                assert(v@[b] == old_v[b - 1]);
            }
            if a > i {
                assert(v@[a] == old_v[a - 1]);
                assert(v@[b] == old_v[b - 1]);
            }
            if a == i && b > i {
                assert(v@[b] == old_v[b - 1]);
            }
        }
        assert forall|y: Statement| v@.to_set().contains(y) <==> old_v.to_set().insert(x).contains(y) by {
            if v@.to_set().contains(y) {
                let j = choose|j: int| 0 <= j < v@.len() && v@[j] == y;
                if j < i {
                    assert(old_v[j] == y);
                } else if j > i {
                    assert(old_v[j - 1] == y);
                }
            }
            if old_v.to_set().contains(y) && y != x {
                let j = choose|j: int| 0 <= j < old_v.len() && old_v[j] == y;
                if j < i {
                    assert(v@[j] == y);
                } else {
                    assert(v@[j + 1] == y);
                }
            }
            if y == x {
                assert(v@[i as int] == x);
            }
        }
        assert(v@.to_set() =~= old_v.to_set().insert(x));
    }
}

/// The distinct statement labels of the instances, ascending.
pub fn statement_labels(instances: &Vec<StatementInstance>) -> (r: Vec<Statement>)
    ensures
        strictly_sorted(r@),
        r@.to_set() == statement_set(instances_model(instances@)),
{
    let ghost im = instances_model(instances@);
    let mut r: Vec<Statement> = Vec::new();
    let mut i: usize = 0;
    proof {
        assert(r@.to_set() =~= Set::<Statement>::empty());
    }
    while i < instances.len()
        invariant
            i <= instances.len(),
            im == instances_model(instances@),
            strictly_sorted(r@),
            r@.to_set() == statement_set(im.take(i as int)),
        decreases instances.len() - i,
    {
        insert_label(&mut r, instances[i].statement);
        proof {
            assert forall|s: Statement| statement_set(im.take(i as int + 1)).contains(s) <==> statement_set(
                im.take(i as int),
            ).insert(instances@[i as int].statement).contains(s) by {
                if statement_set(im.take(i as int + 1)).contains(s) {
                    let k = choose|k: int| 0 <= k < i + 1 && (#[trigger] im.take(i as int + 1)[k]).statement == s;
                    if k < i {
                        assert(im.take(i as int)[k] == im.take(i as int + 1)[k]);
                    }
                }
                if statement_set(im.take(i as int)).contains(s) {
                    let k = choose|k: int| 0 <= k < i && (#[trigger] im.take(i as int)[k]).statement == s;
                    assert(im.take(i as int + 1)[k] == im.take(i as int)[k]);
                }
                if s == instances@[i as int].statement {
                    assert(im.take(i as int + 1)[i as int] == im[i as int]);
                }
            }
            assert(statement_set(im.take(i as int + 1)) =~= statement_set(im.take(i as int)).insert(
                instances@[i as int].statement,
            ));
        }
        i = i + 1;
    }
    proof {
        assert(im.take(i as int) =~= im);
    }
    r
}

fn node_index(nodes: &Vec<Statement>, s: Statement) -> (r: Option<usize>)
    ensures
        r matches Some(i) ==> i < nodes@.len() && nodes@[i as int] == s,
        r is None ==> !nodes@.contains(s),
{
    let mut i: usize = 0;
    while i < nodes.len()
        invariant
            i <= nodes.len(),
            forall|j: int| 0 <= j < i ==> nodes@[j] != s,
        decreases nodes.len() - i,
    {
        if nodes[i] == s {
            return Some(i);
        }
        i = i + 1;
    }
    None
}

} // verus!

verus! {

fn copy_lds(v: &Vec<LevelDependency>) -> (r: Vec<LevelDependency>)
    ensures
        r@ == v@,
{
    let mut r: Vec<LevelDependency> = Vec::new();
    let mut i: usize = 0;
    while i < v.len()
        invariant
            i <= v.len(),
            r@ == v@.take(i as int),
        decreases v.len() - i,
    {
        r.push(v[i]);
        i = i + 1;
        assert(r@ =~= v@.take(i as int));
    }
    assert(v@.take(i as int) =~= v@);
    r
}

/// The graph over the given statements with one edge per dependency.
fn build_graph(statements: Vec<Statement>, deps: &Vec<Dependency>) -> (g: DepGraph)
    requires
        strictly_sorted(statements@),
        wf_deps(deps@),
        forall|t: DepTuple| #[trigger] agg_set(deps@).contains(t) ==> statements@.contains(t.0) && statements@.contains(t.1),
    ensures
        g.wf(),
        g.nodes@ == statements@,
        g.tuples() == agg_set(deps@),
{
    let mut g = DepGraph { nodes: statements, edges: Vec::new() };
    let mut i: usize = 0;
    let ghost ds = deps@;
    let ghost nodes = g.nodes@;
    let ghost mut origin: Seq<int> = seq![];
    while i < deps.len()
        invariant
            i <= deps@.len(),
            ds == deps@,
            g.nodes@ == nodes,
            nodes == statements@,
            strictly_sorted(nodes),
            wf_deps(ds),
            forall|t: DepTuple| #[trigger] agg_set(ds).contains(t) ==> nodes.contains(t.0) && nodes.contains(t.1),
            origin.len() == g.edges@.len(),
            forall|e: int| 0 <= e < origin.len() ==> 0 <= #[trigger] origin[e] < i,
            forall|e: int| 0 <= e < g.edges@.len() ==> 0 <= origin[e] < i
                && (#[trigger] g.edges@[e]).source < nodes.len() && g.edges@[e].target < nodes.len()
                && nodes[g.edges@[e].source as int] == ds[origin[e]].edge.0
                && nodes[g.edges@[e].target as int] == ds[origin[e]].edge.1
                && g.edges@[e].weight@ == ds[origin[e]].level_deps@,
            forall|e1: int, e2: int| 0 <= e1 < e2 < origin.len() ==> origin[e1] < origin[e2],
            forall|a: int| 0 <= a < i && nodes.contains(#[trigger] ds[a].edge.0) && nodes.contains(ds[a].edge.1)
                ==> exists|e: int| 0 <= e < origin.len() && origin[e] == a,
        decreases deps.len() - i,
    {
        let d = &deps[i];
        let src = node_index(&g.nodes, d.edge.0);
        let tgt = node_index(&g.nodes, d.edge.1);
        match (src, tgt) {
            (Some(s), Some(t)) => {
                let w = copy_lds(&d.level_deps);
                let ghost old_origin = origin;
                let ghost old_edges = g.edges@;
                g.edges.push(DepEdge { source: s, target: t, weight: w });
                proof {
                    origin = origin.push(i as int);
                    assert forall|e: int| 0 <= e < g.edges@.len() implies 0 <= origin[e] < i + 1
                        && (#[trigger] g.edges@[e]).source < nodes.len() && g.edges@[e].target < nodes.len()
                        && nodes[g.edges@[e].source as int] == ds[origin[e]].edge.0
                        && nodes[g.edges@[e].target as int] == ds[origin[e]].edge.1
                        && g.edges@[e].weight@ == ds[origin[e]].level_deps@ by {
                        if e < old_edges.len() {
                            assert(g.edges@[e] == old_edges[e]);
                            assert(origin[e] == old_origin[e]);
                        }
                    }
                    assert forall|e1: int, e2: int| 0 <= e1 < e2 < origin.len() implies origin[e1] < origin[e2] by {
                        assert(origin[e1] == old_origin[e1]);
                        assert(old_origin[e1] < i);
                        if e2 < old_origin.len() {
                            assert(origin[e2] == old_origin[e2]);
                        }
                    }
                    assert forall|a: int| 0 <= a < i + 1 && nodes.contains(#[trigger] ds[a].edge.0) && nodes.contains(ds[a].edge.1)
                        implies exists|e: int| 0 <= e < origin.len() && origin[e] == a by {
                        if a == i {
                            assert(origin[origin.len() - 1] == a);
                        } else {
                            let e = choose|e: int| 0 <= e < old_origin.len() && old_origin[e] == a;
                            assert(origin[e] == a);
                        }
                    }
                }
            },
            _ => {
                proof {
                    assert forall|a: int| 0 <= a < i + 1 && nodes.contains(#[trigger] ds[a].edge.0) && nodes.contains(ds[a].edge.1)
                        implies exists|e: int| 0 <= e < origin.len() && origin[e] == a by {
                        if a == i {
                            assert(false);
                        }
                    }
                }
            },
        }
        i = i + 1;
    }
    proof {
        let gt = g.tuples();
        let at = agg_set(ds);
        assert forall|u: DepTuple| gt.contains(u) <==> at.contains(u) by {
            if gt.contains(u) {
                let (e, k) = choose|e: int, k: int|
                    0 <= e < g.edges@.len() && 0 <= k < g.edges@[e].weight@.len() && u == (
                        g.nodes@[g.edges@[e].source as int],
                        g.nodes@[g.edges@[e].target as int],
                        #[trigger] g.edges@[e].weight@[k].0,
                        g.edges@[e].weight@[k].1,
                    );
                let a = origin[e];
                assert(ds[a].level_deps@[k].0 == u.2);
            }
            if at.contains(u) {
                let (a, k) = choose|a: int, k: int|
                    0 <= a < ds.len() && 0 <= k < ds[a].level_deps@.len() && u == (
                        ds[a].edge.0,
                        ds[a].edge.1,
                        #[trigger] ds[a].level_deps@[k].0,
                        ds[a].level_deps@[k].1,
                    );
                assert(nodes.contains(ds[a].edge.0) && nodes.contains(ds[a].edge.1));
                let e = choose|e: int| 0 <= e < origin.len() && origin[e] == a;
                assert(g.edges@[e].weight@[k].0 == u.2);
            }
        }
        assert(gt =~= at);
        assert forall|e1: int, e2: int| 0 <= e1 < e2 < g.edges@.len() implies (g.edges@[e1].source, g.edges@[e1].target)
            != (g.edges@[e2].source, g.edges@[e2].target) by {
            assert(origin[e1] < origin[e2]);
            assert(ds[origin[e1]].edge != ds[origin[e2]].edge);
        }
        assert forall|e: int| 0 <= e < g.edges@.len() implies (#[trigger] g.edges@[e]).source < g.nodes@.len()
            && g.edges@[e].target < g.nodes@.len() && sorted_lds(g.edges@[e].weight@) && g.edges@[e].weight@.len() > 0 by {
            assert(sorted_lds(ds[origin[e]].level_deps@));
            assert(ds[origin[e]].level_deps@.len() > 0);
        }
    }
    g
}

} // verus!

verus! {

/// Reads a trace and builds its dependence graph: a node per statement
/// that ran, ascending by label, and an edge per pair of statements with a
/// dependence, carrying every kind and carry level found between them.
pub fn find_dependencies(lines: &Vec<String>) -> (r: Result<DepGraph, TraceError>)
    ensures
        match (r, trace_run(strings_model(lines@))) {
            (Ok(g), Ok(st)) => g.wf() && g.nodes@.to_set() == statement_set(st.instances) && g.tuples()
                == dependence_set(st.instances, st.accesses),
            (Err(TraceError::ParseAccessError(k)), Err(j)) => k == j,
            _ => false,
        },
{
    let (instances, accesses) = match read_trace(lines) {
        Ok(p) => p,
        Err(e) => return Err(e),
    };
    let ghost im = instances_model(instances@);
    let deps = find_deps(&instances, &accesses);
    let labels = statement_labels(&instances);
    proof {
        assert forall|t: DepTuple| #[trigger] agg_set(deps@).contains(t) implies labels@.contains(t.0)
            && labels@.contains(t.1) by {
            let am = accesses_model(accesses@);
            assert(dependence_set(im, am).contains(t));
            let (var, idx, m) = choose|var: Seq<char>, idx: Seq<i32>, m: int|
                0 <= m < crate::analysis::element_deps(am, var, idx).len() && crate::analysis::dep_ok(
                    im,
                    #[trigger] crate::analysis::element_deps(am, var, idx)[m],
                ) && t == crate::analysis::dep_tuple(im, crate::analysis::element_deps(am, var, idx)[m]);
            let d = crate::analysis::element_deps(am, var, idx)[m];
            assert(statement_set(im).contains(im[d.from as int].statement));
            assert(statement_set(im).contains(im[d.to as int].statement));
            assert(labels@.to_set().contains(t.0));
            assert(labels@.to_set().contains(t.1));
        }
    }
    Ok(build_graph(labels, &deps))
}

/// Carry levels are in range: every dependence found in a trace has a level
/// between 0 and the loop depth of its source instance.
pub proof fn lemma_levels_in_range(lines: Seq<Seq<char>>, t: DepTuple)
    requires
        trace_run(lines) is Ok,
        dependence_set(trace_run(lines)->Ok_0.instances, trace_run(lines)->Ok_0.accesses).contains(t),
    ensures
        exists|i: int| #![auto] 0 <= i < trace_run(lines)->Ok_0.instances.len()
            && trace_run(lines)->Ok_0.instances[i].statement == t.0
            && 0 <= t.2 <= trace_run(lines)->Ok_0.instances[i].loops.len(),
{
    let st = trace_run(lines)->Ok_0;
    crate::trace::lemma_trace_aligned(lines);
    let im = st.instances;
    let am = st.accesses;
    let (var, idx, m) = choose|var: Seq<char>, idx: Seq<i32>, m: int|
        0 <= m < crate::analysis::element_deps(am, var, idx).len() && crate::analysis::dep_ok(
            im,
            #[trigger] crate::analysis::element_deps(am, var, idx)[m],
        ) && t == crate::analysis::dep_tuple(im, crate::analysis::element_deps(am, var, idx)[m]);
    let d = crate::analysis::element_deps(am, var, idx)[m];
    let s1 = im[d.from as int];
    let s2 = im[d.to as int];
    let c = crate::deps::common_loops(s1, s2);
    let ml = crate::deps::min_len(s1.loops, s2.loops);
    crate::deps::lemma_common_prefix(s1.loops, s2.loops, ml);
    let mi = crate::deps::min_len(s1.iteration, s2.iteration);
    let n = if c <= mi { c } else { mi };
    crate::deps::lemma_common_prefix(s1.iteration, s2.iteration, n);
    assert(0 <= level_spec(s1, s2) <= s1.loops.len());
}

} // verus!
