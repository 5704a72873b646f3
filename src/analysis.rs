//! Dependences of a whole trace: accesses are grouped by the element they
//! touch, each group goes through the dependence pass, and the results are
//! gathered per pair of statements with their carry levels.
use vstd::prelude::*;
use crate::deps::{
    calc_spec, collapse, level_spec, track_step, Access, AccessModel, Category, DependencyType,
    InstanceDep, InstanceModel, InstanceTracker, Level, LevelDependency, Statement, StatementInstance,
    find_level,
};
use crate::trace::{accesses_model, instances_model};

verus! {

/// A dependence between two statements by their labels.
#[derive(PartialEq, Eq, Structural, Clone, Copy, Debug)]
pub struct DependencyEdge(pub Statement, pub Statement);

/// All kinds and carry levels found between two statements, ordered by
/// level (and, within a level, true before anti before output).
pub struct Dependency {
    pub edge: DependencyEdge,
    pub level_deps: Vec<LevelDependency>,
}

/// One dependence between statements: source label, target label, carry
/// level and kind.
pub type DepTuple = (Statement, Statement, Level, DependencyType);

/// The `(instance, category)` sequence of the accesses to one element, in
/// trace order.
pub open spec fn group_seq(accs: Seq<AccessModel>, var: Seq<char>, idx: Seq<i32>) -> Seq<(usize, Category)>
    decreases accs.len(),
{
    if accs.len() == 0 {
        seq![]
    } else {
        let g = group_seq(accs.drop_last(), var, idx);
        let a = accs.last();
        if a.var == var && a.indices == idx {
            g.push((a.instance as usize, a.category))
        } else {
            g
        }
    }
}

/// Dependences between instances that the accesses to one element give.
pub open spec fn element_deps(accs: Seq<AccessModel>, var: Seq<char>, idx: Seq<i32>) -> Seq<InstanceDep> {
    calc_spec(collapse(group_seq(accs, var, idx)))
}

/// A dependence whose instances exist.
pub open spec fn dep_ok(insts: Seq<InstanceModel>, d: InstanceDep) -> bool {
    d.from < insts.len() && d.to < insts.len() && insts[d.from as int].iteration.len() < i32::MAX
}

pub open spec fn dep_tuple(insts: Seq<InstanceModel>, d: InstanceDep) -> DepTuple {
    let s1 = insts[d.from as int];
    let s2 = insts[d.to as int];
    (s1.statement, s2.statement, level_spec(s1, s2) as i32, d.kind)
}

/// Every dependence between statements that the trace shows: for some
/// element, a dependence between two of the instances that touched it,
/// tagged with its carry level.
pub open spec fn dependence_set(insts: Seq<InstanceModel>, accs: Seq<AccessModel>) -> Set<DepTuple> {
    Set::new(
        |t: DepTuple|
            exists|var: Seq<char>, idx: Seq<i32>, m: int|
                0 <= m < element_deps(accs, var, idx).len() && dep_ok(insts, #[trigger] element_deps(accs, var, idx)[m])
                    && t == dep_tuple(insts, element_deps(accs, var, idx)[m]),
    )
}

pub open spec fn kind_rank(k: DependencyType) -> int {
    match k {
        DependencyType::True => 0,
        DependencyType::Anti => 1,
        DependencyType::Output => 2,
    }
}

pub open spec fn ld_key(l: LevelDependency) -> int {
    l.0 * 3 + kind_rank(l.1)
}

/// Strictly ordered by level, then kind: so each pair is listed once.
pub open spec fn sorted_lds(s: Seq<LevelDependency>) -> bool {
    forall|i: int, j: int| 0 <= i < j < s.len() ==> ld_key(s[i]) < ld_key(s[j])
}

/// Distinct edges, each with a non-empty, strictly ordered list of level
/// dependences.
pub open spec fn wf_deps(d: Seq<Dependency>) -> bool {
    &&& forall|i: int, j: int| 0 <= i < j < d.len() ==> d[i].edge != d[j].edge
    &&& forall|i: int| 0 <= i < d.len() ==> sorted_lds(#[trigger] d[i].level_deps@) && d[i].level_deps@.len() > 0
}

/// The dependence tuples that a list of dependences holds.
pub open spec fn agg_set(d: Seq<Dependency>) -> Set<DepTuple> {
    Set::new(
        |t: DepTuple|
            exists|i: int, k: int|
                0 <= i < d.len() && 0 <= k < d[i].level_deps@.len() && t == (
                    d[i].edge.0,
                    d[i].edge.1,
                    #[trigger] d[i].level_deps@[k].0,
                    d[i].level_deps@[k].1,
                ),
    )
}

fn rank(k: DependencyType) -> (r: i64)
    ensures
        r == kind_rank(k),
{
    match k {
        DependencyType::True => 0,
        DependencyType::Anti => 1,
        DependencyType::Output => 2,
    }
}

fn key(l: LevelDependency) -> (r: i64)
    ensures
        r == ld_key(l),
{
    l.0 as i64 * 3 + rank(l.1)
}

/// Adds `x` to a strictly ordered list, keeping it so.
fn insert_level(v: &mut Vec<LevelDependency>, x: LevelDependency)
    requires
        sorted_lds(old(v)@),
    ensures
        sorted_lds(final(v)@),
        final(v)@.to_set() == old(v)@.to_set().insert(x),
{
    let mut i: usize = 0;
    let kx = key(x);
    while i < v.len() && key(v[i]) < kx
        invariant
            i <= v.len(),
            kx == ld_key(x),
            forall|j: int| 0 <= j < i ==> ld_key(#[trigger] v@[j]) < ld_key(x),
        decreases v.len() - i,
    {
        i = i + 1;
    }
    if i < v.len() && key(v[i]) == kx {
        proof {
            assert(v@[i as int] == x);
            assert(v@.to_set() =~= v@.to_set().insert(x));
        }
        return;
    }
    let ghost old_v = v@;
    v.insert(i, x);
    proof {
        assert forall|a: int, b: int| 0 <= a < b < v@.len() implies ld_key(v@[a]) < ld_key(v@[b]) by {
            if a < i && b > i {
                assert(v@[b] == old_v[b - 1]);
            }
            if a > i {
                assert(v@[a] == old_v[a - 1]);
                assert(v@[b] == old_v[b - 1]);
            }
            if a == i && b > i {
                assert(v@[b] == old_v[b - 1]);
            }
        }
        assert forall|y: LevelDependency| v@.to_set().contains(y) <==> old_v.to_set().insert(x).contains(y) by {
            if v@.to_set().contains(y) {
                let j = choose|j: int| 0 <= j < v@.len() && v@[j] == y;
                if j < i {
                    assert(old_v[j] == y);
                } else if j > i {
                    assert(old_v[j - 1] == y);
                }
            }
            if old_v.to_set().contains(y) && y != x {
                let j = choose|j: int| 0 <= j < old_v.len() && old_v[j] == y;
                if j < i {
                    assert(v@[j] == y);
                } else {
                    assert(v@[j + 1] == y);
                }
            }
            if y == x {
                assert(v@[i as int] == x);
            }
        }
        assert(v@.to_set() =~= old_v.to_set().insert(x));
    }
}

} // verus!

verus! {

/// Records dependence tuple `(from, to, ld)`.
fn add_dep(deps: &mut Vec<Dependency>, from: Statement, to: Statement, ld: LevelDependency)
    requires
        wf_deps(old(deps)@),
    ensures
        wf_deps(final(deps)@),
        agg_set(final(deps)@) == agg_set(old(deps)@).insert((from, to, ld.0, ld.1)),
{
    let t: DepTuple = (from, to, ld.0, ld.1);
    let mut i: usize = 0;
    while i < deps.len()
        invariant
            i <= deps.len(),
            deps@ == old(deps)@,
            wf_deps(deps@),
            t == (from, to, ld.0, ld.1),
            forall|j: int| 0 <= j < i ==> (#[trigger] deps@[j]).edge != DependencyEdge(from, to),
        decreases deps.len() - i,
    {
        if deps[i].edge == DependencyEdge(from, to) {
            let ghost old_d = deps@;
            let mut d = deps.remove(i);
            let ghost old_lds = d.level_deps@;
            insert_level(&mut d.level_deps, ld);
            let ghost new_lds = d.level_deps@;
            deps.insert(i, d);
            proof {
                assert(deps@[i as int].level_deps@ == new_lds);
                assert(deps@ =~= old_d.update(i as int, deps@[i as int]));
                assert forall|u: DepTuple| agg_set(deps@).contains(u) <==> agg_set(old_d).insert(t).contains(u) by {
                    if agg_set(deps@).contains(u) {
                        let (a, k) = choose|a: int, k: int|
                            0 <= a < deps@.len() && 0 <= k < deps@[a].level_deps@.len() && u == (
                                deps@[a].edge.0,
                                deps@[a].edge.1,
                                #[trigger] deps@[a].level_deps@[k].0,
                                deps@[a].level_deps@[k].1,
                            );
                        if a == i {
                            assert(new_lds.to_set().contains(new_lds[k]));
                            if new_lds[k] != ld {
                                assert(old_lds.to_set().contains(new_lds[k]));
                                assert(old_lds.contains(new_lds[k]));
                                let k2 = choose|k2: int| 0 <= k2 < old_lds.len() && old_lds[k2] == new_lds[k];
                                assert(old_d[a].level_deps@[k2].0 == u.2);
                            }
                        } else {
                            assert(old_d[a].level_deps@[k].0 == u.2);
                        }
                    }
                    if agg_set(old_d).insert(t).contains(u) {
                        if u == t {
                            assert(old_lds.to_set().insert(ld).contains(ld));
                            assert(new_lds.to_set().contains(ld));
                            assert(new_lds.contains(ld));
                            let k = choose|k: int| 0 <= k < new_lds.len() && new_lds[k] == ld;
                            assert(new_lds[k] == ld);
                            assert(deps@[i as int].level_deps@[k] == ld);
                            assert(u == t);
                                                    assert(u.2 == ld.0);
                            assert(deps@[i as int].edge == DependencyEdge(from, to));
                            assert(deps@[i as int].level_deps@[k].0 == u.2);
                        } else {
                            let (a, k) = choose|a: int, k: int|
                                0 <= a < old_d.len() && 0 <= k < old_d[a].level_deps@.len() && u == (
                                    old_d[a].edge.0,
                                    old_d[a].edge.1,
                                    #[trigger] old_d[a].level_deps@[k].0,
                                    old_d[a].level_deps@[k].1,
                                );
                            if a == i {
                                assert(old_lds.to_set().contains(old_lds[k]));
                                assert(new_lds.to_set().contains(old_lds[k]));
                                assert(new_lds.contains(old_lds[k]));
                                let k2 = choose|k2: int| 0 <= k2 < new_lds.len() && new_lds[k2] == old_lds[k];
                                assert(deps@[a].level_deps@[k2].0 == u.2);
                            } else {
                                assert(deps@[a].level_deps@[k].0 == u.2);
                            }
                        }
                    }
                }
                assert(agg_set(deps@) =~= agg_set(old_d).insert(t));
                assert(new_lds.to_set().contains(ld));
                assert(new_lds.contains(ld));
                assert forall|a: int| 0 <= a < deps@.len() implies sorted_lds(#[trigger] deps@[a].level_deps@)
                    && deps@[a].level_deps@.len() > 0 by {
                    if a != i {
                        assert(deps@[a] == old_d[a]);
                    }
                }
            }
            return;
        }
        i = i + 1;
    }
    let ghost old_d = deps@;
    let mut lds: Vec<LevelDependency> = Vec::new();
    lds.push(ld);
    deps.push(Dependency { edge: DependencyEdge(from, to), level_deps: lds });
    proof {
        assert(sorted_lds(deps@[old_d.len() as int].level_deps@));
        assert forall|u: DepTuple| agg_set(deps@).contains(u) <==> agg_set(old_d).insert(t).contains(u) by {
            if agg_set(deps@).contains(u) {
                let (a, k) = choose|a: int, k: int|
                    0 <= a < deps@.len() && 0 <= k < deps@[a].level_deps@.len() && u == (
                        deps@[a].edge.0,
                        deps@[a].edge.1,
                        #[trigger] deps@[a].level_deps@[k].0,
                        deps@[a].level_deps@[k].1,
                    );
                if a < old_d.len() {
                    assert(old_d[a].level_deps@[k].0 == u.2);
                }
            }
            if agg_set(old_d).insert(t).contains(u) {
                if u == t {
                    assert(deps@[old_d.len() as int].level_deps@[0].0 == u.2);
                } else {
                    let (a, k) = choose|a: int, k: int|
                        0 <= a < old_d.len() && 0 <= k < old_d[a].level_deps@.len() && u == (
                            old_d[a].edge.0,
                            old_d[a].edge.1,
                            #[trigger] old_d[a].level_deps@[k].0,
                            old_d[a].level_deps@[k].1,
                        );
                    assert(deps@[a].level_deps@[k].0 == u.2);
                }
            }
        }
        assert(agg_set(deps@) =~= agg_set(old_d).insert(t));
        assert forall|a: int| 0 <= a < deps@.len() implies sorted_lds(#[trigger] deps@[a].level_deps@)
            && deps@[a].level_deps@.len() > 0 by {
            if a < old_d.len() {
                assert(deps@[a] == old_d[a]);
            }
        }
    }
}

} // verus!

verus! {

/// The accesses to one element so far, summarised per instance.
pub struct ElementGroup {
    pub var: String,
    pub indices: Vec<i32>,
    pub tracker: InstanceTracker,
}

pub open spec fn group_key(g: ElementGroup) -> (Seq<char>, Seq<i32>) {
    (g.var@, g.indices@)
}

pub open spec fn groups_keys(gs: Seq<ElementGroup>) -> Seq<(Seq<char>, Seq<i32>)> {
    gs.map_values(|g: ElementGroup| group_key(g))
}

fn same_ints(a: &Vec<i32>, b: &Vec<i32>) -> (r: bool)
    ensures
        r == (a@ == b@),
{
    if a.len() != b.len() {
        return false;
    }
    let mut i: usize = 0;
    while i < a.len()
        invariant
            i <= a.len() == b.len(),
            forall|k: int| 0 <= k < i ==> a@[k] == b@[k],
        decreases a.len() - i,
    {
        if a[i] != b[i] {
            return false;
        }
        i = i + 1;
    }
    assert(a@ =~= b@);
    true
}

proof fn lemma_group_seq_nonempty(am: Seq<AccessModel>, var: Seq<char>, idx: Seq<i32>)
    requires
        group_seq(am, var, idx).len() > 0,
    ensures
        exists|q: int| 0 <= q < am.len() && (#[trigger] am[q]).var == var && am[q].indices == idx,
    decreases am.len(),
{
    let a = am.last();
    if !(a.var == var && a.indices == idx) {
        lemma_group_seq_nonempty(am.drop_last(), var, idx);
        let q = choose|q: int| 0 <= q < am.drop_last().len() && (#[trigger] am.drop_last()[q]).var == var
            && am.drop_last()[q].indices == idx;
        assert(am[q] == am.drop_last()[q]);
    }
}

/// Groups the accesses by element; each group summarises, per instance, the
/// accesses to its element in trace order.
fn group_accesses(accs: &Vec<Access>) -> (gs: Vec<ElementGroup>)
    ensures
        forall|j: int| 0 <= j < gs@.len() ==> (#[trigger] gs@[j]).tracker.use_def@ == collapse(
            group_seq(accesses_model(accs@), gs@[j].var@, gs@[j].indices@),
        ),
        forall|j1: int, j2: int| 0 <= j1 < j2 < gs@.len() ==> group_key(gs@[j1]) != group_key(gs@[j2]),
        forall|var: Seq<char>, idx: Seq<i32>| #[trigger] group_seq(accesses_model(accs@), var, idx).len() > 0
            ==> groups_keys(gs@).contains((var, idx)),
{
    let ghost am = accesses_model(accs@);
    let mut gs: Vec<ElementGroup> = Vec::new();
    let ghost mut gidx: Seq<int> = seq![];
    let mut p: usize = 0;
    while p < accs.len()
        invariant
            p <= accs.len(),
            am == accesses_model(accs@),
            gidx.len() == p,
            forall|j: int| 0 <= j < gs@.len() ==> (#[trigger] gs@[j]).tracker.use_def@ == collapse(
                group_seq(am.take(p as int), gs@[j].var@, gs@[j].indices@),
            ),
            forall|j1: int, j2: int| 0 <= j1 < j2 < gs@.len() ==> group_key(gs@[j1]) != group_key(gs@[j2]),
            forall|q: int| 0 <= q < p ==> 0 <= #[trigger] gidx[q] < gs@.len() && gs@[gidx[q]].var@ == am[q].var
                && gs@[gidx[q]].indices@ == am[q].indices,
        decreases accs.len() - p,
    {
        let a = &accs[p];
        proof {
            assert(am.take(p as int + 1).drop_last() =~= am.take(p as int));
            assert(am.take(p as int + 1).last() == am[p as int]);
        }
        let mut j: usize = 0;
        while j < gs.len() && !(gs[j].var == a.var && same_ints(&gs[j].indices, &a.indices))
            invariant
                j <= gs@.len(),
                forall|k: int| 0 <= k < j ==> group_key(#[trigger] gs@[k]) != (a.var@, a.indices@),
            decreases gs.len() - j,
        {
            j = j + 1;
        }
        let ghost old_gs = gs@;
        if j < gs.len() {
            let mut g = gs.remove(j);
            g.tracker.add_access(a.instance, a.category);
            gs.insert(j, g);
            proof {
                assert(gs@ =~= old_gs.update(j as int, gs@[j as int]));
                gidx = gidx.push(j as int);
                assert forall|k: int| 0 <= k < gs@.len() implies (#[trigger] gs@[k]).tracker.use_def@ == collapse(
                    group_seq(am.take(p as int + 1), gs@[k].var@, gs@[k].indices@),
                ) by {
                    let s0 = group_seq(am.take(p as int), gs@[k].var@, gs@[k].indices@);
                    assert(group_key(old_gs[j as int]) == (a.var@, a.indices@));
                    if k == j {
                        assert(old_gs[k].tracker.use_def@ == collapse(s0));
                        assert(group_seq(am.take(p as int + 1), gs@[k].var@, gs@[k].indices@) == s0.push((a.instance, a.category)));
                        assert(s0.push((a.instance, a.category)).drop_last() =~= s0);
                        assert(collapse(s0.push((a.instance, a.category))) == track_step(collapse(s0), a.instance, a.category));
                        assert(gs@[k].tracker.use_def@ == track_step(collapse(s0), a.instance, a.category));
                        assert(gs@[k].tracker.use_def@ == collapse(group_seq(am.take(p as int + 1), gs@[k].var@, gs@[k].indices@)));
                    } else {
                        assert(gs@[k] == old_gs[k]);
                        assert(old_gs[k].tracker.use_def@ == collapse(s0));
                        assert(group_key(old_gs[k]) != group_key(old_gs[j as int]));
                        assert(group_seq(am.take(p as int + 1), gs@[k].var@, gs@[k].indices@) == s0);
                        assert(gs@[k].tracker.use_def@ == collapse(group_seq(am.take(p as int + 1), gs@[k].var@, gs@[k].indices@)));
                    }
                }
            }
        } else {
            let mut tracker = InstanceTracker::new();
            tracker.add_access(a.instance, a.category);
            let var = a.var.clone();
            let indices = copy_vec(&a.indices);
            gs.push(ElementGroup { var, indices, tracker });
            proof {
                gidx = gidx.push(j as int);
                assert forall|k: int| 0 <= k < gs@.len() implies (#[trigger] gs@[k]).tracker.use_def@ == collapse(
                    group_seq(am.take(p as int + 1), gs@[k].var@, gs@[k].indices@),
                ) by {
                    if k == j {
                        let s0 = group_seq(am.take(p as int), gs@[k].var@, gs@[k].indices@);
                        if s0.len() > 0 {
                            lemma_group_seq_nonempty(am.take(p as int), gs@[k].var@, gs@[k].indices@);
                            let q = choose|q: int| 0 <= q < am.take(p as int).len()
                                && (#[trigger] am.take(p as int)[q]).var == gs@[k].var@
                                && am.take(p as int)[q].indices == gs@[k].indices@;
                            assert(gidx[q] < old_gs.len());
                            assert(group_key(old_gs[gidx[q]]) == (a.var@, a.indices@));
                        }
                        assert(s0 =~= seq![]);
                        assert(s0.push((a.instance, a.category)).drop_last() =~= s0);
                        assert(group_seq(am.take(p as int + 1), gs@[k].var@, gs@[k].indices@) == s0.push((a.instance, a.category)));
                        assert(collapse(s0.push((a.instance, a.category))) == track_step(collapse(s0), a.instance, a.category));
                    } else {
                        assert(gs@[k] == old_gs[k]);
                        assert(old_gs[k].tracker.use_def@ == collapse(group_seq(am.take(p as int), gs@[k].var@, gs@[k].indices@)));
                        assert(group_key(old_gs[k]) != (a.var@, a.indices@));
                    }
                }
                assert forall|q: int| 0 <= q < p + 1 implies 0 <= #[trigger] gidx[q] < gs@.len()
                    && gs@[gidx[q]].var@ == am[q].var && gs@[gidx[q]].indices@ == am[q].indices by {
                    if q < p {
                        assert(gs@[gidx[q]] == old_gs[gidx[q]]);
                    }
                }
            }
        }
        p = p + 1;
    }
    proof {
        assert(am.take(p as int) =~= am);
        assert forall|var: Seq<char>, idx: Seq<i32>| #[trigger] group_seq(am, var, idx).len() > 0
            implies groups_keys(gs@).contains((var, idx)) by {
            lemma_group_seq_nonempty(am, var, idx);
            let q = choose|q: int| 0 <= q < am.len() && (#[trigger] am[q]).var == var && am[q].indices == idx;
            assert(groups_keys(gs@)[gidx[q]] == (var, idx));
        }
    }
    gs
}

fn copy_vec(v: &Vec<i32>) -> (r: Vec<i32>)
    ensures
        r@ == v@,
{
    let mut r: Vec<i32> = Vec::new();
    let mut i: usize = 0;
    while i < v.len()
        invariant
            i <= v.len(),
            r@ == v@.take(i as int),
        decreases v.len() - i,
    {
        r.push(v[i]);
        i = i + 1;
        assert(r@ =~= v@.take(i as int));
    }
    assert(v@.take(i as int) =~= v@);
    r
}

} // verus!

verus! {

/// The dependence tuples of the groups with the given keys: all of those
/// before group `j`, and the first `m` of group `j`.
pub open spec fn partial_set(
    insts: Seq<InstanceModel>,
    am: Seq<AccessModel>,
    keys: Seq<(Seq<char>, Seq<i32>)>,
    j: int,
    m: int,
) -> Set<DepTuple> {
    Set::new(
        |t: DepTuple|
            exists|g: int, k: int|
                0 <= g < keys.len() && 0 <= k < element_deps(am, keys[g].0, keys[g].1).len() && (g < j || (g
                    == j && k < m)) && dep_ok(insts, #[trigger] element_deps(am, keys[g].0, keys[g].1)[k]) && t
                    == dep_tuple(insts, element_deps(am, keys[g].0, keys[g].1)[k]),
    )
}

/// All dependences between statements that the accesses show (see
/// `dependence_set`), gathered per pair of statements.
pub fn find_deps(instances: &Vec<StatementInstance>, accesses: &Vec<Access>) -> (deps: Vec<Dependency>)
    ensures
        wf_deps(deps@),
        agg_set(deps@) == dependence_set(instances_model(instances@), accesses_model(accesses@)),
{
    let ghost im = instances_model(instances@);
    let ghost am = accesses_model(accesses@);
    let gs = group_accesses(accesses);
    let ghost keys = groups_keys(gs@);
    let n = instances.len();
    let mut deps: Vec<Dependency> = Vec::new();
    let mut j: usize = 0;
    proof {
        assert(agg_set(deps@) =~= partial_set(im, am, keys, 0, 0));
    }
    while j < gs.len()
        invariant
            j <= gs@.len(),
            n == instances@.len(),
            im == instances_model(instances@),
            keys == groups_keys(gs@),
            wf_deps(deps@),
            agg_set(deps@) == partial_set(im, am, keys, j as int, 0),
            forall|g: int| 0 <= g < gs@.len() ==> (#[trigger] gs@[g]).tracker.use_def@ == collapse(
                group_seq(am, gs@[g].var@, gs@[g].indices@),
            ),
        decreases gs.len() - j,
    {
        let ds = gs[j].tracker.calc_dependencies();
        let ghost ed = element_deps(am, keys[j as int].0, keys[j as int].1);
        assert(ds@ == ed);
        let mut m: usize = 0;
        while m < ds.len()
            invariant
                j < gs@.len(),
                m <= ds@.len(),
                n == instances@.len(),
                im == instances_model(instances@),
                ds@ == ed,
                ed == element_deps(am, keys[j as int].0, keys[j as int].1),
                keys == groups_keys(gs@),
                wf_deps(deps@),
                agg_set(deps@) == partial_set(im, am, keys, j as int, m as int),
            decreases ds.len() - m,
        {
            let d = ds[m];
            let ghost before = agg_set(deps@);
            if d.from < n && d.to < n && instances[d.from].iteration.len() < i32::MAX as usize {
                let s1 = &instances[d.from];
                let s2 = &instances[d.to];
                let lvl = find_level(s1, s2);
                add_dep(&mut deps, s1.statement, s2.statement, LevelDependency(lvl, d.kind));
                proof {
                    assert(im[d.from as int] == s1@);
                    assert(im[d.to as int] == s2@);
                    assert(dep_ok(im, ed[m as int]));
                    let t = dep_tuple(im, ed[m as int]);
                    assert(agg_set(deps@) == before.insert(t));
                    assert forall|u: DepTuple| partial_set(im, am, keys, j as int, m + 1).contains(u) <==> before.insert(
                        t,
                    ).contains(u) by {
                        if partial_set(im, am, keys, j as int, m + 1).contains(u) {
                            let (g, k) = choose|g: int, k: int|
                                0 <= g < keys.len() && 0 <= k < element_deps(am, keys[g].0, keys[g].1).len() && (g
                                    < j || (g == j && k < m + 1)) && dep_ok(
                                    im,
                                    #[trigger] element_deps(am, keys[g].0, keys[g].1)[k],
                                ) && u == dep_tuple(im, element_deps(am, keys[g].0, keys[g].1)[k]);
                            if !(g == j && k == m) {
                                assert(partial_set(im, am, keys, j as int, m as int).contains(u));
                            }
                        }
                        if u == t {
                            assert(element_deps(am, keys[j as int].0, keys[j as int].1)[m as int] == ed[m as int]);
                        }
                    }
                    assert(agg_set(deps@) =~= partial_set(im, am, keys, j as int, m + 1));
                }
            } else {
                proof {
                    assert(!dep_ok(im, ed[m as int]));
                    assert forall|u: DepTuple| partial_set(im, am, keys, j as int, m + 1).contains(u) implies before.contains(u) by {
                        let (g, k) = choose|g: int, k: int|
                            0 <= g < keys.len() && 0 <= k < element_deps(am, keys[g].0, keys[g].1).len() && (g < j
                                || (g == j && k < m + 1)) && dep_ok(
                                im,
                                #[trigger] element_deps(am, keys[g].0, keys[g].1)[k],
                            ) && u == dep_tuple(im, element_deps(am, keys[g].0, keys[g].1)[k]);
                        assert(partial_set(im, am, keys, j as int, m as int).contains(u));
                    }
                    assert(agg_set(deps@) =~= partial_set(im, am, keys, j as int, m + 1));
                }
            }
            m = m + 1;
        }
        proof {
            assert forall|u: DepTuple| partial_set(im, am, keys, j as int + 1, 0).contains(u) <==> partial_set(im, am, keys, j as int, m as int).contains(u) by {
                if partial_set(im, am, keys, j as int + 1, 0).contains(u) {
                    let (g, k) = choose|g: int, k: int|
                        0 <= g < keys.len() && 0 <= k < element_deps(am, keys[g].0, keys[g].1).len() && (g < j + 1
                            || (g == j + 1 && k < 0)) && dep_ok(
                            im,
                            #[trigger] element_deps(am, keys[g].0, keys[g].1)[k],
                        ) && u == dep_tuple(im, element_deps(am, keys[g].0, keys[g].1)[k]);
                    assert(partial_set(im, am, keys, j as int, m as int).contains(u));
                }
                if partial_set(im, am, keys, j as int, m as int).contains(u) {
                    let (g, k) = choose|g: int, k: int|
                        0 <= g < keys.len() && 0 <= k < element_deps(am, keys[g].0, keys[g].1).len() && (g < j
                            || (g == j && k < m)) && dep_ok(
                            im,
                            #[trigger] element_deps(am, keys[g].0, keys[g].1)[k],
                        ) && u == dep_tuple(im, element_deps(am, keys[g].0, keys[g].1)[k]);
                    assert(partial_set(im, am, keys, j as int + 1, 0).contains(u));
                }
            }
            assert(partial_set(im, am, keys, j as int + 1, 0) =~= partial_set(im, am, keys, j as int, m as int));
        }
        j = j + 1;
    }
    proof {
        let ds = dependence_set(im, am);
        let ps = partial_set(im, am, keys, j as int, 0);
        assert forall|u: DepTuple| ps.contains(u) <==> ds.contains(u) by {
            if ps.contains(u) {
                let (g, k) = choose|g: int, k: int|
                    0 <= g < keys.len() && 0 <= k < element_deps(am, keys[g].0, keys[g].1).len() && (g < j || (g
                        == j && k < 0)) && dep_ok(im, #[trigger] element_deps(am, keys[g].0, keys[g].1)[k]) && u
                        == dep_tuple(im, element_deps(am, keys[g].0, keys[g].1)[k]);
                assert(ds.contains(u));
            }
            if ds.contains(u) {
                let (var, idx, m) = choose|var: Seq<char>, idx: Seq<i32>, m: int|
                    0 <= m < element_deps(am, var, idx).len() && dep_ok(im, #[trigger] element_deps(am, var, idx)[m])
                        && u == dep_tuple(im, element_deps(am, var, idx)[m]);
                if group_seq(am, var, idx).len() == 0 {
                    assert(group_seq(am, var, idx) =~= seq![]);
                    assert(collapse(group_seq(am, var, idx)) =~= seq![]);
                }
                assert(keys.contains((var, idx)));
                let g = choose|g: int| 0 <= g < keys.len() && keys[g] == (var, idx);
                assert(element_deps(am, keys[g].0, keys[g].1)[m] == element_deps(am, var, idx)[m]);
            }
        }
        assert(ps =~= ds);
    }
    deps
}

} // verus!
