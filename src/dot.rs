//! The dependence graph as GraphViz text: one dotted cluster per strongly
//! connected component, one labelled arrow per edge.
use vstd::prelude::*;
use crate::deps::{DependencyType, LevelDependency};
use crate::graph::DepGraph;
use crate::scc::{comps_model, edges_in_range, tarjan_order, tarjan_scc};
use crate::text::{digits, int_text, push_digits, push_int};

verus! {

/// The edges of the graph as pairs of node positions.
pub open spec fn edge_pairs(g: DepGraph) -> Seq<(usize, usize)> {
    Seq::new(g.edges@.len(), |e: int| (g.edges@[e].source, g.edges@[e].target))
}

pub open spec fn node_line(label: i32) -> Seq<char> {
    "    s"@ + int_text(label as int) + " [label=\"S"@ + int_text(label as int) + "\"];\n"@
}

pub open spec fn node_lines(nodes: Seq<i32>, comp: Seq<usize>) -> Seq<char>
    decreases comp.len(),
{
    if comp.len() == 0 {
        seq![]
    } else {
        node_lines(nodes, comp.drop_last()) + node_line(nodes[comp.last() as int])
    }
}

pub open spec fn cluster_text(i: nat, nodes: Seq<i32>, comp: Seq<usize>) -> Seq<char> {
    "  subgraph cluster_"@ + digits(i) + " {\n"@ + node_lines(nodes, comp) + "    graph[style=dotted];\n"@ + "  }\n"@
        + "\n"@
}

pub open spec fn clusters_text(nodes: Seq<i32>, comps: Seq<Seq<usize>>) -> Seq<char>
    decreases comps.len(),
{
    if comps.len() == 0 {
        seq![]
    } else {
        clusters_text(nodes, comps.drop_last()) + cluster_text((comps.len() - 1) as nat, nodes, comps.last())
    }
}

/// ` T0`, ` A1`, ` O2`, ...: kind letter and level of each dependence.
pub open spec fn weight_text(w: Seq<LevelDependency>) -> Seq<char>
    decreases w.len(),
{
    if w.len() == 0 {
        seq![]
    } else {
        weight_text(w.drop_last()) + (match w.last().1 {
            DependencyType::Anti => " A"@,
            DependencyType::Output => " O"@,
            DependencyType::True => " T"@,
        }) + int_text(w.last().0 as int)
    }
}

pub open spec fn edge_line(from: i32, to: i32, w: Seq<LevelDependency>) -> Seq<char> {
    "  s"@ + int_text(from as int) + " -> "@ + "s"@ + int_text(to as int) + " [label=\""@ + weight_text(w) + "\"];\n"@
}

pub open spec fn edges_text(g: DepGraph, k: nat) -> Seq<char>
    decreases k,
{
    if k == 0 || k > g.edges@.len() {
        seq![]
    } else {
        let e = g.edges@[k - 1];
        edges_text(g, (k - 1) as nat) + edge_line(g.nodes@[e.source as int], g.nodes@[e.target as int], e.weight@)
    }
}

/// The GraphViz text of a dependence graph, clusters in the order the
/// component search returns them.
pub open spec fn dot_spec(g: DepGraph) -> Seq<char> {
    "digraph dependencies {\n"@ + clusters_text(g.nodes@, tarjan_order(g.nodes@.len(), edge_pairs(g))) + edges_text(
        g,
        g.edges@.len(),
    ) + "}\n"@
}

fn write_weight(out: &mut String, w: &Vec<LevelDependency>)
    ensures
        final(out)@ == old(out)@ + weight_text(w@),
{
    let ghost start = out@;
    let mut i: usize = 0;
    assert(w@.take(0) =~= seq![]);
    while i < w.len()
        invariant
            i <= w@.len(),
            out@ == start + weight_text(w@.take(i as int)),
        decreases w.len() - i,
    {
        match w[i].1 {
            DependencyType::Anti => out.append(" A"),
            DependencyType::Output => out.append(" O"),
            DependencyType::True => out.append(" T"),
        }
        push_int(out, w[i].0);
        proof {
            let t = w@.take(i as int + 1);
            assert(t.drop_last() =~= w@.take(i as int));
            assert(out@ =~= start + weight_text(t));
        }
        i = i + 1;
    }
    assert(w@.take(i as int) =~= w@);
}

fn write_cluster(out: &mut String, nodes: &Vec<i32>, comp: &Vec<usize>, i: usize)
    requires
        forall|q: int| 0 <= q < comp@.len() ==> (#[trigger] comp@[q]) < nodes@.len(),
    ensures
        final(out)@ == old(out)@ + cluster_text(i as nat, nodes@, comp@),
{
    out.append("  subgraph cluster_");
    push_digits(out, i as u64);
    out.append(" {\n");
    let ghost cstart = out@;
    let mut k: usize = 0;
    assert(comp@.take(0) =~= seq![]);
    while k < comp.len()
        invariant
            k <= comp@.len(),
            forall|q: int| 0 <= q < comp@.len() ==> (#[trigger] comp@[q]) < nodes@.len(),
            out@ == cstart + node_lines(nodes@, comp@.take(k as int)),
        decreases comp.len() - k,
    {
        let label = nodes[comp[k]];
        out.append("    s");
        push_int(out, label);
        out.append(" [label=\"S");
        push_int(out, label);
        out.append("\"];\n");
        proof {
            let t = comp@.take(k as int + 1);
            assert(t.drop_last() =~= comp@.take(k as int));
            assert(out@ =~= cstart + node_lines(nodes@, t));
        }
        k = k + 1;
    }
    assert(comp@.take(k as int) =~= comp@);
    out.append("    graph[style=dotted];\n");
    out.append("  }\n");
    out.append("\n");
    assert(final(out)@ =~= old(out)@ + cluster_text(i as nat, nodes@, comp@));
}

/// The GraphViz text of a dependence graph (see `dot_spec`).
pub fn print_graph(g: &DepGraph) -> (r: String)
    requires
        g.wf(),
        g.nodes@.len() < u32::MAX,
        g.edges@.len() < u32::MAX,
    ensures
        r@ == dot_spec(*g),
{
    let n = g.nodes.len();
    let mut pairs: Vec<(usize, usize)> = Vec::new();
    let mut e: usize = 0;
    while e < g.edges.len()
        invariant
            e <= g.edges@.len(),
            g.wf(),
            g.edges@.len() < u32::MAX,
            pairs@ == edge_pairs(*g).take(e as int),
        decreases g.edges.len() - e,
    {
        pairs.push((g.edges[e].source, g.edges[e].target));
        e = e + 1;
        assert(pairs@ =~= edge_pairs(*g).take(e as int));
    }
    assert(pairs@ =~= edge_pairs(*g));
    let comps = tarjan_scc(n, &pairs);
    let ghost cm = comps_model(comps@);
    let mut out = String::new();
    out.append("digraph dependencies {\n");
    let ghost start = out@;
    let mut i: usize = 0;
    assert(cm.take(0) =~= seq![]);
    assert(crate::scc::scc_partition(n as nat, pairs@, cm));
    while i < comps.len()
        invariant
            i <= comps@.len(),
            cm == comps_model(comps@),
            forall|c: int, q: int| 0 <= c < cm.len() && 0 <= q < cm[c].len() ==> (#[trigger] cm[c][q]) < n,
            n == g.nodes@.len(),
            out@ == start + clusters_text(g.nodes@, cm.take(i as int)),
        decreases comps.len() - i,
    {
        let comp = &comps[i];
        assert(cm[i as int] == comp@);
        proof {
            assert forall|q: int| 0 <= q < comp@.len() implies (#[trigger] comp@[q]) < n by {
                assert(cm[i as int][q] == comp@[q]);
            }
        }
        write_cluster(&mut out, &g.nodes, comp, i);
        proof {
            let t = cm.take(i as int + 1);
            assert(t.drop_last() =~= cm.take(i as int));
            assert(t.last() == comp@);
            assert(out@ =~= start + clusters_text(g.nodes@, t));
        }
        i = i + 1;
    }
    assert(cm.take(i as int) =~= cm);
    let ghost estart = out@;
    let mut e: usize = 0;
    while e < g.edges.len()
        invariant
            e <= g.edges@.len(),
            g.wf(),
            out@ == estart + edges_text(*g, e as nat),
        decreases g.edges.len() - e,
    {
        let ed = &g.edges[e];
        out.append("  s");
        push_int(&mut out, g.nodes[ed.source]);
        out.append(" -> ");
        out.append("s");
        push_int(&mut out, g.nodes[ed.target]);
        out.append(" [label=\"");
        write_weight(&mut out, &ed.weight);
        out.append("\"];\n");
        assert(out@ =~= estart + edges_text(*g, (e + 1) as nat));
        e = e + 1;
    }
    out.append("}\n");
    assert(out@ =~= dot_spec(*g));
    out
}

} // verus!
