//! The Allen–Kennedy walk: at carry level `c`, keep the dependences that
//! level `c` does not satisfy, split the statements into strongly connected
//! components, and visit them sources first. A component with a cycle keeps
//! its loop at depth `c` and is walked again one level deeper; any other
//! component becomes vector statements.
use vstd::prelude::*;
use crate::deps::{LevelDependency, LoopLabel, Statement};
use crate::graph::DepGraph;
use crate::scc::{comps_model, edges_in_range, has_cycle, is_cyclic_directed, scc_partition, tarjan_order, tarjan_scc};

verus! {

/// The labels of the loops around an assignment, outermost first.
pub struct StatLoops {
    pub statement: Statement,
    pub loops: Vec<LoopLabel>,
}

pub open spec fn stat_loops_model(v: Seq<StatLoops>) -> Seq<(Statement, Seq<LoopLabel>)> {
    v.map_values(|x: StatLoops| (x.statement, x.loops@))
}

/// One step of the vector program: open or close the loop with the given
/// label at the given depth, or emit an assignment at the given depth with
/// the loops from that depth inward turned into ranges.
#[derive(PartialEq, Eq, Structural, Clone, Copy, Debug)]
pub enum VecStep {
    LoopStart(LoopLabel, usize),
    LoopEnd(LoopLabel, usize),
    Assignment(Statement, usize),
}

/// What makes the walk fail: the trace and the program disagree.
#[derive(PartialEq, Eq, Structural, Clone, Copy, Debug)]
pub enum VectorizeError {
    /// No loop list is known for the statement.
    MissingLoops(Statement),
    /// The statement has no loop at the depth where its component is cyclic.
    NotEnoughLoops(Statement),
    /// No loop has the label.
    MissingLoop(LoopLabel),
    /// No assignment has the label.
    MissingStatement(Statement),
    /// The loops are nested deeper than the walk or the emitter allows.
    TooDeep(usize),
    /// The graph has more nodes or edges than the component search allows.
    GraphTooLarge(usize),
}

/// Some dependence of the weight is not satisfied at level `c`: it is loop
/// independent or carried by a deeper loop.
pub open spec fn keeps(w: Seq<LevelDependency>, c: int) -> bool {
    exists|k: int| 0 <= k < w.len() && ((#[trigger] w[k]).0 == 0 || w[k].0 > c)
}

/// The edges of the first `m` edges of `g` that level `c` keeps and whose
/// ends are both in `s`, with the ends renumbered by position in `s`.
pub open spec fn local_edges_upto(g: DepGraph, s: Seq<usize>, c: int, m: nat) -> Seq<(usize, usize)>
    decreases m,
{
    if m == 0 {
        seq![]
    } else {
        let prev = local_edges_upto(g, s, c, (m - 1) as nat);
        let e = g.edges@[m - 1];
        if keeps(e.weight@, c) && s.contains(e.source) && s.contains(e.target) {
            prev.push((s.index_of(e.source) as usize, s.index_of(e.target) as usize))
        } else {
            prev
        }
    }
}

pub open spec fn local_edges(g: DepGraph, s: Seq<usize>, c: int) -> Seq<(usize, usize)> {
    local_edges_upto(g, s, c, g.edges@.len())
}

pub open spec fn strictly_increasing(s: Seq<usize>) -> bool {
    forall|i: int, j: int| 0 <= i < j < s.len() ==> s[i] < s[j]
}

/// The nodes of a component, by their numbers in `g`, ascending.
pub open spec fn component_nodes(s: Seq<usize>, comp: Seq<usize>) -> Seq<usize> {
    choose|r: Seq<usize>| strictly_increasing(r) && r.to_set() == comp.map_values(|k: usize| s[k as int]).to_set()
}

/// The loop labels recorded for a statement (the first entry for it).
pub open spec fn lookup_loops(lps: Seq<(Statement, Seq<LoopLabel>)>, stmt: Statement) -> Option<Seq<LoopLabel>>
    decreases lps.len(),
{
    if lps.len() == 0 {
        None
    } else if lps[0].0 == stmt {
        Some(lps[0].1)
    } else {
        lookup_loops(lps.drop_first(), stmt)
    }
}

/// The steps for the statements `s` (node numbers of `g`, ascending) at
/// carry level `c`. `fuel` bounds the depth of the walk; the driver gives
/// it one more than the deepest loop list, which the walk never exceeds.
pub open spec fn ak_spec(g: DepGraph, lps: Seq<(Statement, Seq<LoopLabel>)>, s: Seq<usize>, c: nat, fuel: nat) -> Result<Seq<VecStep>, VectorizeError>
    decreases fuel, 2nat, 0nat,
{
    if fuel == 0 {
        Ok(seq![])
    } else {
        let comps = tarjan_order(s.len(), local_edges(g, s, c as int));
        ak_comps(g, lps, s, c, fuel, comps, comps.len())
    }
}

/// The steps for the first `k` components in the order they are visited
/// (the reverse of the order in which they were found).
pub open spec fn ak_comps(
    g: DepGraph,
    lps: Seq<(Statement, Seq<LoopLabel>)>,
    s: Seq<usize>,
    c: nat,
    fuel: nat,
    comps: Seq<Seq<usize>>,
    k: nat,
) -> Result<Seq<VecStep>, VectorizeError>
    decreases fuel, 1nat, k,
{
    if k == 0 || k > comps.len() || fuel == 0 {
        Ok(seq![])
    } else {
        match ak_comps(g, lps, s, c, fuel, comps, (k - 1) as nat) {
            Err(e) => Err(e),
            Ok(prev) => match ak_comp(g, lps, s, c, fuel, comps[comps.len() - k]) {
                Err(e) => Err(e),
                Ok(x) => Ok(prev + x),
            },
        }
    }
}

/// The steps for one component (positions in `s`).
pub open spec fn ak_comp(
    g: DepGraph,
    lps: Seq<(Statement, Seq<LoopLabel>)>,
    s: Seq<usize>,
    c: nat,
    fuel: nat,
    comp: Seq<usize>,
) -> Result<Seq<VecStep>, VectorizeError>
    decreases fuel, 0nat, 0nat,
{
    if fuel == 0 || comp.len() == 0 {
        Ok(seq![])
    } else {
        let sc = component_nodes(s, comp);
        if has_cycle(local_edges(g, sc, c as int)) {
            let stmt = g.nodes@[s[comp[0] as int] as int];
            match lookup_loops(lps, stmt) {
                None => Err(VectorizeError::MissingLoops(stmt)),
                Some(l) => if l.len() <= c {
                    Err(VectorizeError::NotEnoughLoops(stmt))
                } else {
                    match ak_spec(g, lps, sc, c + 1, (fuel - 1) as nat) {
                        Err(e) => Err(e),
                        Ok(inner) => Ok(
                            seq![VecStep::LoopStart(l[c as int], c as usize)] + inner + seq![
                                VecStep::LoopEnd(l[c as int], c as usize),
                            ],
                        ),
                    }
                },
            }
        } else {
            Ok(Seq::new(comp.len(), |k: int| VecStep::Assignment(g.nodes@[s[comp[k] as int] as int], c as usize)))
        }
    }
}

} // verus!

verus! {

/// Two ascending sequences with the same elements are equal.
pub proof fn lemma_sorted_unique(a: Seq<usize>, b: Seq<usize>)
    requires
        strictly_increasing(a),
        strictly_increasing(b),
        a.to_set() == b.to_set(),
    ensures
        a == b,
    decreases a.len(),
{
    if a.len() == 0 {
        if b.len() > 0 {
            assert(b.to_set().contains(b[0]));
            assert(a.to_set().contains(b[0]));
        }
        assert(a =~= b);
    } else {
        assert(a.to_set().contains(a[0]));
        assert(b.to_set().contains(a[0]));
        assert(b.len() > 0);
        assert(b.to_set().contains(b[0]));
        assert(a.to_set().contains(b[0]));
        let i = choose|i: int| 0 <= i < b.len() && b[i] == a[0];
        let j = choose|j: int| 0 <= j < a.len() && a[j] == b[0];
        assert(a[0] == b[0]) by {
            if i > 0 {
                assert(b[0] < b[i]);
                if j > 0 {
                    assert(a[0] < a[j]);
                }
            }
        }
        let ta = a.drop_first();
        let tb = b.drop_first();
        assert forall|x: usize| ta.to_set().contains(x) <==> tb.to_set().contains(x) by {
            if ta.to_set().contains(x) {
                let k = choose|k: int| 0 <= k < ta.len() && ta[k] == x;
                assert(a[k + 1] == x);
                assert(a.to_set().contains(x));
                assert(b.to_set().contains(x));
                let m = choose|m: int| 0 <= m < b.len() && b[m] == x;
                assert(x > a[0]);
                assert(m != 0);
                assert(tb[m - 1] == x);
            }
            if tb.to_set().contains(x) {
                let k = choose|k: int| 0 <= k < tb.len() && tb[k] == x;
                assert(b[k + 1] == x);
                assert(b.to_set().contains(x));
                assert(a.to_set().contains(x));
                let m = choose|m: int| 0 <= m < a.len() && a[m] == x;
                assert(x > b[0]);
                assert(m != 0);
                assert(ta[m - 1] == x);
            }
        }
        assert(ta.to_set() =~= tb.to_set());
        lemma_sorted_unique(ta, tb);
        assert(ta.len() == tb.len());
        assert forall|k: int| 0 <= k < a.len() implies a[k] == b[k] by {
            if k > 0 {
                assert(a[k] == ta[k - 1]);
                assert(b[k] == tb[k - 1]);
            }
        }
        assert(a =~= b);
    }
}

fn position(s: &Vec<usize>, v: usize) -> (r: Option<usize>)
    requires
        strictly_increasing(s@),
    ensures
        r matches Some(i) ==> i < s@.len() && s@[i as int] == v && s@.index_of(v) == i,
        r is None ==> !s@.contains(v),
{
    let mut i: usize = 0;
    while i < s.len()
        invariant
            i <= s@.len(),
            strictly_increasing(s@),
            forall|j: int| 0 <= j < i ==> s@[j] != v,
        decreases s.len() - i,
    {
        if s[i] == v {
            proof {
                assert(s@.contains(v));
                let k = s@.index_of(v);
                assert(s@[k] == v);
                if k != i {
                    if k < i {
                        assert(s@[k] != v);
                    } else {
                        assert(s@[i as int] < s@[k]);
                    }
                }
            }
            return Some(i);
        }
        i = i + 1;
    }
    None
}

fn weight_keeps(w: &Vec<LevelDependency>, c: usize) -> (r: bool)
    ensures
        r == keeps(w@, c as int),
{
    let mut k: usize = 0;
    while k < w.len()
        invariant
            k <= w@.len(),
            forall|j: int| 0 <= j < k ==> !((#[trigger] w@[j]).0 == 0 || w@[j].0 > c as int),
        decreases w.len() - k,
    {
        if w[k].0 == 0 || (w[k].0 > 0 && w[k].0 as usize > c) {
            return true;
        }
        k = k + 1;
    }
    false
}

/// The edges that level `c` keeps between statements of `s`, renumbered
/// by position in `s` (see `local_edges`).
fn local_edge_list(g: &DepGraph, s: &Vec<usize>, c: usize) -> (r: Vec<(usize, usize)>)
    requires
        strictly_increasing(s@),
    ensures
        r@ == local_edges(*g, s@, c as int),
        edges_in_range(s@.len(), r@),
        r@.len() <= g.edges@.len(),
{
    let mut r: Vec<(usize, usize)> = Vec::new();
    let mut m: usize = 0;
    while m < g.edges.len()
        invariant
            m <= g.edges@.len(),
            strictly_increasing(s@),
            r@ == local_edges_upto(*g, s@, c as int, m as nat),
            edges_in_range(s@.len(), r@),
            r@.len() <= m,
        decreases g.edges.len() - m,
    {
        let e = &g.edges[m];
        if weight_keeps(&e.weight, c) {
            match (position(s, e.source), position(s, e.target)) {
                (Some(a), Some(b)) => {
                    r.push((a, b));
                },
                _ => {},
            }
        }
        m = m + 1;
    }
    r
}

/// The nodes of a component (positions in `s`) as node numbers of the
/// graph, ascending (see `component_nodes`).
fn sorted_component(s: &Vec<usize>, comp: &Vec<usize>) -> (r: Vec<usize>)
    requires
        forall|k: int| 0 <= k < comp@.len() ==> (#[trigger] comp@[k]) < s@.len(),
    ensures
        r@ == component_nodes(s@, comp@),
        strictly_increasing(r@),
        forall|k: int| 0 <= k < r@.len() ==> s@.contains(#[trigger] r@[k]),
{
    let ghost target = comp@.map_values(|k: usize| s@[k as int]).to_set();
    let mut r: Vec<usize> = Vec::new();
    let mut i: usize = 0;
    while i < comp.len()
        invariant
            i <= comp@.len(),
            forall|k: int| 0 <= k < comp@.len() ==> (#[trigger] comp@[k]) < s@.len(),
            strictly_increasing(r@),
            r@.to_set() == comp@.take(i as int).map_values(|k: usize| s@[k as int]).to_set(),
            forall|k: int| 0 <= k < r@.len() ==> s@.contains(#[trigger] r@[k]),
        decreases comp.len() - i,
    {
        let x = s[comp[i]];
        let mut j: usize = 0;
        while j < r.len() && r[j] < x
            invariant
                j <= r@.len(),
                forall|k: int| 0 <= k < j ==> #[trigger] r@[k] < x,
            decreases r.len() - j,
        {
            j = j + 1;
        }
        let ghost old_r = r@;
        let ghost prev_set = comp@.take(i as int).map_values(|k: usize| s@[k as int]).to_set();
        proof {
            assert(comp@.take(i as int + 1).map_values(|k: usize| s@[k as int]) =~= comp@.take(i as int).map_values(
                |k: usize| s@[k as int],
            ).push(x));
            let pre = comp@.take(i as int).map_values(|k: usize| s@[k as int]);
            let post = comp@.take(i as int + 1).map_values(|k: usize| s@[k as int]);
            assert(post == pre.push(x));
            assert forall|y: usize| post.to_set().contains(y) <==> prev_set.insert(x).contains(y) by {
                if post.to_set().contains(y) {
                    let q = choose|q: int| 0 <= q < post.len() && post[q] == y;
                    if q < pre.len() {
                        assert(pre[q] == y);
                        assert(pre.to_set().contains(y));
                    }
                }
                if pre.to_set().contains(y) {
                    let q = choose|q: int| 0 <= q < pre.len() && pre[q] == y;
                    assert(post[q] == y);
                }
                if y == x {
                    assert(post[pre.len() as int] == x);
                }
            }
            assert(post.to_set() =~= prev_set.insert(x));
        }
        if j < r.len() && r[j] == x {
            proof {
                assert(old_r.to_set().contains(x));
                assert(r@.to_set() =~= prev_set.insert(x));
            }
        } else {
            r.insert(j, x);
            proof {
                assert forall|a: int, b: int| 0 <= a < b < r@.len() implies r@[a] < r@[b] by {
                    if a < j && b > j {
                        assert(r@[b] == old_r[b - 1]);
                    }
                    if a > j {
                        assert(r@[a] == old_r[a - 1]);
                        assert(r@[b] == old_r[b - 1]);
                    }
                    if a == j && b > j {
                        assert(r@[b] == old_r[b - 1]);
                    }
                }
                assert forall|y: usize| r@.to_set().contains(y) <==> prev_set.insert(x).contains(y) by {
                    if r@.to_set().contains(y) {
                        let q = choose|q: int| 0 <= q < r@.len() && r@[q] == y;
                        if q < j {
                            assert(old_r[q] == y);
                            assert(old_r.to_set().contains(y));
                        } else if q > j {
                            assert(old_r[q - 1] == y);
                            assert(old_r.to_set().contains(y));
                        }
                    }
                    if prev_set.contains(y) && y != x {
                        assert(old_r.to_set().contains(y));
                        let q = choose|q: int| 0 <= q < old_r.len() && old_r[q] == y;
                        if q < j {
                            assert(r@[q] == y);
                        } else {
                            assert(r@[q + 1] == y);
                        }
                    }
                    if y == x {
                        assert(r@[j as int] == x);
                    }
                }
                assert(r@.to_set() =~= prev_set.insert(x));
                assert forall|k: int| 0 <= k < r@.len() implies s@.contains(#[trigger] r@[k]) by {
                    if k < j {
                        assert(r@[k] == old_r[k]);
                    } else if k > j {
                        assert(r@[k] == old_r[k - 1]);
                    }
                }
            }
        }
        i = i + 1;
    }
    proof {
        assert(comp@.take(i as int) =~= comp@);
        let ch = component_nodes(s@, comp@);
        lemma_sorted_unique(r@, ch);
    }
    r
}

pub fn find_loops<'a>(lps: &'a Vec<StatLoops>, stmt: Statement) -> (r: Option<&'a Vec<LoopLabel>>)
    ensures
        match r {
            Some(l) => lookup_loops(stat_loops_model(lps@), stmt) == Some(l@),
            None => lookup_loops(stat_loops_model(lps@), stmt) is None,
        },
{
    let mut i: usize = 0;
    proof {
        assert(stat_loops_model(lps@).subrange(0, stat_loops_model(lps@).len() as int) =~= stat_loops_model(lps@));
    }
    while i < lps.len()
        invariant
            i <= stat_loops_model(lps@).len(),
            lookup_loops(stat_loops_model(lps@), stmt) == lookup_loops(stat_loops_model(lps@).subrange(i as int, stat_loops_model(lps@).len() as int), stmt),
        decreases lps.len() - i,
    {
        proof {
            let rest = stat_loops_model(lps@).subrange(i as int, stat_loops_model(lps@).len() as int);
            assert(rest.drop_first() =~= stat_loops_model(lps@).subrange(i as int + 1, stat_loops_model(lps@).len() as int));
        }
        if lps[i].statement == stmt {
            return Some(&lps[i].loops);
        }
        i = i + 1;
    }
    None
}

} // verus!

verus! {

proof fn lemma_increasing_len(s: Seq<usize>, bound: nat)
    requires
        strictly_increasing(s),
        forall|k: int| 0 <= k < s.len() ==> (#[trigger] s[k]) < bound,
    ensures
        s.len() <= bound,
{
    assert forall|i: int| 0 <= i < s.len() implies s[i] >= i by {
        lemma_increasing_ge(s, i);
    }
    if s.len() > 0 {
        assert(s[s.len() - 1] >= s.len() - 1);
    }
}

proof fn lemma_increasing_ge(s: Seq<usize>, i: int)
    requires
        strictly_increasing(s),
        0 <= i < s.len(),
    ensures
        s[i] >= i,
    decreases i,
{
    if i > 0 {
        lemma_increasing_ge(s, i - 1);
    }
}

proof fn lemma_ak_comps_err(
    g: DepGraph,
    lps: Seq<(Statement, Seq<LoopLabel>)>,
    s: Seq<usize>,
    c: nat,
    fuel: nat,
    comps: Seq<Seq<usize>>,
    k: nat,
    k2: nat,
)
    requires
        k <= k2 <= comps.len(),
        ak_comps(g, lps, s, c, fuel, comps, k) is Err,
    ensures
        ak_comps(g, lps, s, c, fuel, comps, k2) == ak_comps(g, lps, s, c, fuel, comps, k),
    decreases k2,
{
    if k2 > k {
        lemma_ak_comps_err(g, lps, s, c, fuel, comps, k, (k2 - 1) as nat);
    }
}

pub open spec fn nodes_ok(g: DepGraph, s: Seq<usize>) -> bool {
    &&& strictly_increasing(s)
    &&& forall|k: int| 0 <= k < s.len() ==> (#[trigger] s[k]) < g.nodes@.len()
    &&& g.nodes@.len() < u32::MAX
    &&& g.edges@.len() < u32::MAX
}

pub open spec fn plan_matches(r: Result<Vec<VecStep>, VectorizeError>, spec: Result<Seq<VecStep>, VectorizeError>) -> bool {
    match r {
        Ok(v) => spec == Ok::<Seq<VecStep>, VectorizeError>(v@),
        Err(e) => spec == Err::<Seq<VecStep>, VectorizeError>(e),
    }
}

/// The steps for the statements `s` at carry level `c` (see `ak_spec`).
pub fn allen_kennedy(g: &DepGraph, lps: &Vec<StatLoops>, s: &Vec<usize>, c: usize, fuel: usize) -> (r: Result<Vec<VecStep>, VectorizeError>)
    requires
        nodes_ok(*g, s@),
        c + fuel < usize::MAX,
    ensures
        plan_matches(r, ak_spec(*g, stat_loops_model(lps@), s@, c as nat, fuel as nat)),
    decreases fuel, 1nat,
{
    if fuel == 0 {
        return Ok(Vec::new());
    }
    proof {
        lemma_increasing_len(s@, g.nodes@.len());
    }
    let le = local_edge_list(g, s, c);
    let comps = tarjan_scc(s.len(), &le);
    let ghost cm = comps_model(comps@);
    let mut out: Vec<VecStep> = Vec::new();
    let mut j: usize = 0;
    let n = comps.len();
    assert(cm.len() == n);
    while j < n
        invariant
            j <= n,
            n == comps@.len(),
            cm == comps_model(comps@),
            cm == tarjan_order(s@.len(), local_edges(*g, s@, c as int)),
            scc_partition(s@.len(), local_edges(*g, s@, c as int), cm),
            nodes_ok(*g, s@),
            fuel > 0,
            c + fuel < usize::MAX,
            ak_comps(*g, stat_loops_model(lps@), s@, c as nat, fuel as nat, cm, j as nat) == Ok::<Seq<VecStep>, VectorizeError>(out@),
        decreases n - j,
    {
        let comp = &comps[n - 1 - j];
        proof {
            assert(cm[n - 1 - j] == comp@);
            assert forall|k: int| 0 <= k < comp@.len() implies (#[trigger] comp@[k]) < s@.len() by {
                assert(cm[n - 1 - j][k] == comp@[k]);
            }
        }
        match ak_component(g, lps, s, c, fuel, comp) {
            Ok(x) => {
                let mut x = x;
                let ghost prev = out@;
                out.append(&mut x);
                proof {
                    assert(cm[cm.len() - (j + 1)] == comp@);
                }
            },
            Err(e) => {
                proof {
                    assert(cm[cm.len() - (j + 1)] == comp@);
                    lemma_ak_comps_err(*g, stat_loops_model(lps@), s@, c as nat, fuel as nat, cm, (j + 1) as nat, n as nat);
                }
                return Err(e);
            },
        }
        j = j + 1;
    }
    Ok(out)
}

/// The steps for one component, given by positions in `s` (see `ak_comp`).
fn ak_component(
    g: &DepGraph,
    lps: &Vec<StatLoops>,
    s: &Vec<usize>,
    c: usize,
    fuel: usize,
    comp: &Vec<usize>,
) -> (r: Result<Vec<VecStep>, VectorizeError>)
    requires
        nodes_ok(*g, s@),
        fuel > 0,
        c + fuel < usize::MAX,
        forall|k: int| 0 <= k < comp@.len() ==> (#[trigger] comp@[k]) < s@.len(),
    ensures
        plan_matches(r, ak_comp(*g, stat_loops_model(lps@), s@, c as nat, fuel as nat, comp@)),
    decreases fuel, 0nat,
{
    if comp.len() == 0 {
        return Ok(Vec::new());
    }
    let sc = sorted_component(s, comp);
    proof {
        assert forall|k: int| 0 <= k < sc@.len() implies (#[trigger] sc@[k]) < g.nodes@.len() by {
            assert(s@.contains(sc@[k]));
        }
        lemma_increasing_len(sc@, g.nodes@.len());
    }
    let le = local_edge_list(g, &sc, c);
    let mut out: Vec<VecStep> = Vec::new();
    if is_cyclic_directed(sc.len(), &le) {
        let stmt = g.nodes[s[comp[0]]];
        let l = match find_loops(lps, stmt) {
            Some(l) => l,
            None => return Err(VectorizeError::MissingLoops(stmt)),
        };
        if l.len() <= c {
            return Err(VectorizeError::NotEnoughLoops(stmt));
        }
        let label = l[c];
        let mut inner = match allen_kennedy(g, lps, &sc, c + 1, fuel - 1) {
            Ok(v) => v,
            Err(e) => return Err(e),
        };
        out.push(VecStep::LoopStart(label, c));
        out.append(&mut inner);
        out.push(VecStep::LoopEnd(label, c));
        proof {
            assert(out@ =~= seq![VecStep::LoopStart(label, c)] + ak_spec(*g, stat_loops_model(lps@), sc@, (c + 1) as nat, (fuel - 1) as nat)->Ok_0
                + seq![VecStep::LoopEnd(label, c)]);
        }
    } else {
        let mut k: usize = 0;
        while k < comp.len()
            invariant
                k <= comp@.len(),
                nodes_ok(*g, s@),
                forall|q: int| 0 <= q < comp@.len() ==> (#[trigger] comp@[q]) < s@.len(),
                out@ =~= Seq::new(k as nat, |q: int| VecStep::Assignment(g.nodes@[s@[comp@[q] as int] as int], c)),
            decreases comp.len() - k,
        {
            out.push(VecStep::Assignment(g.nodes[s[comp[k]]], c));
            k = k + 1;
        }
    }
    Ok(out)
}

} // verus!

verus! {

/// The length of the longest loop list.
pub open spec fn max_loops(lps: Seq<(Statement, Seq<LoopLabel>)>) -> nat
    decreases lps.len(),
{
    if lps.len() == 0 {
        0
    } else {
        let m = max_loops(lps.drop_last());
        if lps.last().1.len() > m { lps.last().1.len() } else { m }
    }
}

pub open spec fn all_nodes(n: nat) -> Seq<usize> {
    Seq::new(n, |i: int| i as usize)
}

/// The whole walk over a dependence graph: all statements, from carry
/// level 0.
pub open spec fn plan_spec(g: DepGraph, lps: Seq<(Statement, Seq<LoopLabel>)>) -> Result<Seq<VecStep>, VectorizeError> {
    if g.nodes@.len() >= u32::MAX || g.edges@.len() >= u32::MAX {
        Err(VectorizeError::GraphTooLarge(g.nodes@.len() as usize))
    } else if max_loops(lps) + 2 >= usize::MAX {
        Err(VectorizeError::TooDeep(max_loops(lps) as usize))
    } else {
        ak_spec(g, lps, all_nodes(g.nodes@.len()), 0, max_loops(lps) + 1)
    }
}

/// The steps of the vector program for a dependence graph and the loop
/// lists of its statements (see `plan_spec`).
pub fn plan_vectorization(g: &DepGraph, lps: &Vec<StatLoops>) -> (r: Result<Vec<VecStep>, VectorizeError>)
    ensures
        plan_matches(r, plan_spec(*g, stat_loops_model(lps@))),
{
    let ghost lm = stat_loops_model(lps@);
    let n = g.nodes.len();
    if n >= u32::MAX as usize || g.edges.len() >= u32::MAX as usize {
        return Err(VectorizeError::GraphTooLarge(n));
    }
    let mut max: usize = 0;
    let mut i: usize = 0;
    assert(lm.take(0) =~= seq![]);
    while i < lps.len()
        invariant
            i <= lps@.len(),
            lm == stat_loops_model(lps@),
            max == max_loops(lm.take(i as int)),
        decreases lps.len() - i,
    {
        proof {
            assert(lm.take(i as int + 1).drop_last() =~= lm.take(i as int));
            assert(lm.take(i as int + 1).last() == lm[i as int]);
        }
        if lps[i].loops.len() > max {
            max = lps[i].loops.len();
        }
        i = i + 1;
    }
    assert(lm.take(i as int) =~= lm);
    if max >= usize::MAX - 2 {
        return Err(VectorizeError::TooDeep(max));
    }
    let mut s: Vec<usize> = Vec::new();
    let mut k: usize = 0;
    while k < n
        invariant
            k <= n,
            n == g.nodes@.len(),
            s@ == all_nodes(k as nat),
        decreases n - k,
    {
        s.push(k);
        k = k + 1;
        assert(s@ =~= all_nodes(k as nat));
    }
    allen_kennedy(g, lps, &s, 0, max + 1)
}

} // verus!

verus! {

/// Level-0 preservation: an edge that carries a loop-independent
/// dependence survives filtering at every carry level `c`, between any
/// statements `s` that hold both of its ends.
pub proof fn lemma_level_zero_kept(g: DepGraph, s: Seq<usize>, c: int, e: int, k: int)
    requires
        0 <= e < g.edges@.len(),
        0 <= k < g.edges@[e].weight@.len(),
        g.edges@[e].weight@[k].0 == 0,
        s.contains(g.edges@[e].source),
        s.contains(g.edges@[e].target),
    ensures
        local_edges(g, s, c).contains((s.index_of(g.edges@[e].source) as usize, s.index_of(g.edges@[e].target) as usize)),
{
    lemma_local_edges_keep(g, s, c, e, g.edges@.len());
}

proof fn lemma_local_edges_keep(g: DepGraph, s: Seq<usize>, c: int, e: int, m: nat)
    requires
        0 <= e < m <= g.edges@.len(),
        keeps(g.edges@[e].weight@, c) || exists|k: int| 0 <= k < g.edges@[e].weight@.len() && (#[trigger] g.edges@[e].weight@[k]).0 == 0,
        s.contains(g.edges@[e].source),
        s.contains(g.edges@[e].target),
    ensures
        local_edges_upto(g, s, c, m).contains((s.index_of(g.edges@[e].source) as usize, s.index_of(g.edges@[e].target) as usize)),
    decreases m,
{
    let pair = (s.index_of(g.edges@[e].source) as usize, s.index_of(g.edges@[e].target) as usize);
    assert(keeps(g.edges@[e].weight@, c));
    let prev = local_edges_upto(g, s, c, (m - 1) as nat);
    if e == m - 1 {
        assert(local_edges_upto(g, s, c, m) == prev.push(pair));
        assert(local_edges_upto(g, s, c, m)[prev.len() as int] == pair);
    } else {
        lemma_local_edges_keep(g, s, c, e, (m - 1) as nat);
        let i = choose|i: int| 0 <= i < prev.len() && prev[i] == pair;
        let cur = local_edges_upto(g, s, c, m);
        assert(cur[i] == pair);
    }
}

/// The component visited `k`-th: components are visited in the reverse of
/// the order the search returns them.
pub open spec fn visited(comps: Seq<Seq<usize>>, k: int) -> Seq<usize> {
    comps[comps.len() - 1 - k]
}

/// Sources first: when the components partition the graph as the search
/// returns them, nothing in a component visited later reaches a component
/// visited earlier; every dependence between components points forward in
/// the visiting order.
pub proof fn lemma_sources_first(n: nat, edges: Seq<(usize, usize)>, comps: Seq<Seq<usize>>, a: int, b: int, x: int, y: int)
    requires
        crate::scc::scc_partition(n, edges, comps),
        0 <= a < b < comps.len(),
        0 <= x < visited(comps, b).len(),
        0 <= y < visited(comps, a).len(),
    ensures
        !crate::scc::reaches(edges, visited(comps, b)[x], visited(comps, a)[y]),
{
    let ib = comps.len() - 1 - b;
    let ia = comps.len() - 1 - a;
    assert(visited(comps, b)[x] == comps[ib][x]);
    assert(visited(comps, a)[y] == comps[ia][y]);
    if crate::scc::reaches(edges, comps[ib][x], comps[ia][y]) {
        assert(ia < ib);
    }
}

} // verus!
