//! Dependences between statement instances that touch one array element,
//! and the loop level that carries each of them.
use vstd::prelude::*;

verus! {

pub type Statement = i32;

pub type LoopLabel = i32;

pub type Level = i32;

/// True (write then read), anti (read then write) or output (write then
/// write) dependence.
#[derive(PartialEq, Eq, Structural, Clone, Copy, Debug)]
pub enum DependencyType {
    True,
    Anti,
    Output,
}

/// A dependence kind with the loop level that carries it (0: loop
/// independent, k: the k-th enclosing loop counting from the outermost).
#[derive(PartialEq, Eq, Structural, Clone, Copy, Debug)]
pub struct LevelDependency(pub Level, pub DependencyType);

#[derive(PartialEq, Eq, Structural, Clone, Copy, Debug)]
pub enum Category {
    Read,
    Write,
}

/// One dynamic execution of a statement, with the labels of the loops
/// around it (outermost first) and their index values at that moment.
pub struct StatementInstance {
    pub statement: Statement,
    pub loops: Vec<LoopLabel>,
    pub iteration: Vec<i32>,
}

pub struct InstanceModel {
    pub statement: Statement,
    pub loops: Seq<LoopLabel>,
    pub iteration: Seq<i32>,
}

impl View for StatementInstance {
    type V = InstanceModel;

    open spec fn view(&self) -> InstanceModel {
        InstanceModel { statement: self.statement, loops: self.loops@, iteration: self.iteration@ }
    }
}

/// A read or write of one element, made by the instance with the given
/// index in the list of instances.
pub struct Access {
    pub instance: usize,
    pub var: String,
    pub category: Category,
    pub indices: Vec<i32>,
}

pub struct AccessModel {
    pub instance: nat,
    pub var: Seq<char>,
    pub category: Category,
    pub indices: Seq<i32>,
}

impl View for Access {
    type V = AccessModel;

    open spec fn view(&self) -> AccessModel {
        AccessModel {
            instance: self.instance as nat,
            var: self.var@,
            category: self.category,
            indices: self.indices@,
        }
    }
}

/// What one instance did to an element: read it, wrote it, or both.
pub struct UseDef {
    pub instance: usize,
    pub used: bool,
    pub defined: bool,
}

/// A dependence between two instances (by index), of the given kind.
#[derive(PartialEq, Eq, Structural, Clone, Copy, Debug)]
pub struct InstanceDep {
    pub from: usize,
    pub to: usize,
    pub kind: DependencyType,
}

/// Consecutive accesses of one instance merge into one entry.
pub open spec fn track_step(ud: Seq<UseDef>, inst: usize, cat: Category) -> Seq<UseDef> {
    if ud.len() > 0 && ud.last().instance == inst {
        ud.drop_last().push(UseDef {
            instance: inst,
            used: ud.last().used || cat == Category::Read,
            defined: ud.last().defined || cat == Category::Write,
        })
    } else {
        ud.push(UseDef { instance: inst, used: cat == Category::Read, defined: cat == Category::Write })
    }
}

/// Per-instance summary of a sequence of `(instance, category)` accesses.
pub open spec fn collapse(s: Seq<(usize, Category)>) -> Seq<UseDef>
    decreases s.len(),
{
    if s.len() == 0 {
        Seq::empty()
    } else {
        track_step(collapse(s.drop_last()), s.last().0, s.last().1)
    }
}

/// State of the dependence pass over one element: the dependences found so
/// far, the last writing instance, and the reading instances since then.
pub struct CalcState {
    pub deps: Seq<InstanceDep>,
    pub last_write: Option<usize>,
    pub uses: Seq<usize>,
}

pub open spec fn dep(from: usize, to: usize, kind: DependencyType) -> InstanceDep {
    InstanceDep { from, to, kind }
}

/// Anti dependences from each of `uses` to `to`.
pub open spec fn anti_from_uses(uses: Seq<usize>, to: usize) -> Seq<InstanceDep> {
    Seq::new(uses.len(), |i: int| dep(uses[i], to, DependencyType::Anti))
}

/// One transition of the pass, for the consecutive entries `a` and `b`.
pub open spec fn calc_step(st: CalcState, a: UseDef, b: UseDef) -> CalcState {
    let (s1, u1, d1, s2, u2, d2) = (a.instance, a.used, a.defined, b.instance, b.used, b.defined);
    if !u1 && d1 && !u2 && d2 {
        CalcState { deps: st.deps.push(dep(s1, s2, DependencyType::Output)), last_write: Some(s2), uses: seq![] }
    } else if !u1 && d1 && u2 && !d2 {
        CalcState { deps: st.deps.push(dep(s1, s2, DependencyType::True)), last_write: Some(s1), uses: seq![] }
    } else if !u1 && d1 && u2 && d2 {
        CalcState {
            deps: st.deps.push(dep(s1, s2, DependencyType::True)).push(dep(s1, s2, DependencyType::Output)),
            last_write: Some(s2),
            uses: seq![],
        }
    } else if u1 && !d1 && !u2 && d2 {
        let w = match st.last_write {
            Some(w) => seq![dep(w, s2, DependencyType::Output)],
            None => seq![],
        };
        CalcState {
            deps: st.deps + anti_from_uses(st.uses, s2) + w + seq![dep(s1, s2, DependencyType::Anti)],
            last_write: Some(s2),
            uses: seq![],
        }
    } else if u1 && !d1 && u2 && d2 {
        let w = match st.last_write {
            Some(w) => seq![dep(w, s2, DependencyType::True)],
            None => seq![],
        };
        CalcState {
            deps: st.deps + anti_from_uses(st.uses, s2) + w + seq![dep(s1, s2, DependencyType::Anti)],
            last_write: Some(s2),
            uses: seq![],
        }
    } else if u1 && d1 && !u2 && d2 {
        CalcState {
            deps: st.deps.push(dep(s1, s2, DependencyType::Anti)).push(dep(s1, s2, DependencyType::Output)),
            last_write: Some(s2),
            uses: seq![],
        }
    } else if u1 && d1 && u2 && !d2 {
        CalcState { deps: st.deps.push(dep(s1, s2, DependencyType::True)), last_write: Some(s1), uses: seq![] }
    } else if u1 && d1 && u2 && d2 {
        CalcState {
            deps: st.deps.push(dep(s1, s2, DependencyType::True)).push(dep(s1, s2, DependencyType::Output)).push(
                dep(s1, s2, DependencyType::Anti),
            ),
            last_write: Some(s2),
            uses: seq![],
        }
    } else if u1 && !d1 && u2 && !d2 {
        let w = match st.last_write {
            Some(w) => seq![dep(w, s2, DependencyType::True)],
            None => seq![],
        };
        CalcState { deps: st.deps + w, last_write: st.last_write, uses: st.uses.push(s1) }
    } else {
        // An entry neither reads nor writes: no summary is ever built so.
        st
    }
}

/// State of the pass after the first `k` pairs of consecutive entries.
pub open spec fn calc_state(ud: Seq<UseDef>, k: nat) -> CalcState
    decreases k,
{
    if k == 0 || ud.len() < 2 {
        CalcState { deps: seq![], last_write: None, uses: seq![] }
    } else if k > ud.len() - 1 {
        calc_state(ud, (ud.len() - 1) as nat)
    } else {
        calc_step(calc_state(ud, (k - 1) as nat), ud[k - 1], ud[k as int])
    }
}

/// The dependences that the pass finds over a whole per-instance summary.
pub open spec fn calc_spec(ud: Seq<UseDef>) -> Seq<InstanceDep> {
    if ud.len() < 2 {
        seq![]
    } else {
        calc_state(ud, (ud.len() - 1) as nat).deps
    }
}

/// Collects, per instance, whether it read and whether it wrote one element.
pub struct InstanceTracker {
    pub use_def: Vec<UseDef>,
}

impl InstanceTracker {
    pub fn new() -> (r: InstanceTracker)
        ensures
            r.use_def@ == Seq::<UseDef>::empty(),
    {
        InstanceTracker { use_def: Vec::new() }
    }

    /// Records an access of instance `inst`.
    pub fn add_access(&mut self, inst: usize, cat: Category)
        ensures
            final(self).use_def@ == track_step(old(self).use_def@, inst, cat),
    {
        let n = self.use_def.len();
        if n > 0 && self.use_def[n - 1].instance == inst {
            let last = self.use_def.pop().unwrap();
            self.use_def.push(UseDef {
                instance: inst,
                used: last.used || cat == Category::Read,
                defined: last.defined || cat == Category::Write,
            });
        } else {
            self.use_def.push(UseDef {
                instance: inst,
                used: cat == Category::Read,
                defined: cat == Category::Write,
            });
        }
    }

    /// Dependences between the recorded instances, as the transition table
    /// of the pass gives them (see `calc_spec`).
    pub fn calc_dependencies(&self) -> (r: Vec<InstanceDep>)
        ensures
            r@ == calc_spec(self.use_def@),
    {
        let ud = &self.use_def;
        let mut deps: Vec<InstanceDep> = Vec::new();
        let mut last_write: Option<usize> = None;
        let mut uses: Vec<usize> = Vec::new();
        if ud.len() < 2 {
            return deps;
        }
        let mut k: usize = 1;
        while k < ud.len()
            invariant
                1 <= k <= ud.len(),
                ud.len() >= 2,
                ({
                    let st = calc_state(ud@, (k - 1) as nat);
                    deps@ == st.deps && last_write == st.last_write && uses@ == st.uses
                }),
            decreases ud.len() - k,
        {
            let a = &ud[k - 1];
            let b = &ud[k];
            let (s1, u1, d1, s2, u2, d2) = (a.instance, a.used, a.defined, b.instance, b.used, b.defined);
            let ghost st = calc_state(ud@, (k - 1) as nat);
            if !u1 && d1 && !u2 && d2 {
                deps.push(InstanceDep { from: s1, to: s2, kind: DependencyType::Output });
                last_write = Some(s2);
                uses.clear();
            } else if !u1 && d1 && u2 && !d2 {
                deps.push(InstanceDep { from: s1, to: s2, kind: DependencyType::True });
                last_write = Some(s1);
                uses.clear();
            } else if !u1 && d1 && u2 && d2 {
                deps.push(InstanceDep { from: s1, to: s2, kind: DependencyType::True });
                deps.push(InstanceDep { from: s1, to: s2, kind: DependencyType::Output });
                last_write = Some(s2);
                uses.clear();
            } else if u1 && !d1 && d2 {
                let mut j: usize = 0;
                while j < uses.len()
                    invariant
                        j <= uses.len(),
                        uses@ == st.uses,
                        deps@ == st.deps + anti_from_uses(st.uses, s2).take(j as int),
                    decreases uses.len() - j,
                {
                    deps.push(InstanceDep { from: uses[j], to: s2, kind: DependencyType::Anti });
                    j = j + 1;
                    assert(deps@ =~= st.deps + anti_from_uses(st.uses, s2).take(j as int));
                }
                assert(anti_from_uses(st.uses, s2).take(j as int) =~= anti_from_uses(st.uses, s2));
                let ghost mid = deps@;
                let kind = if u2 { DependencyType::True } else { DependencyType::Output };
                let ghost wseq: Seq<InstanceDep> = match last_write {
                    Some(w) => seq![dep(w, s2, kind)],
                    None => seq![],
                };
                if let Some(w) = last_write {
                    deps.push(InstanceDep { from: w, to: s2, kind });
                }
                assert(deps@ =~= mid + wseq);
                deps.push(InstanceDep { from: s1, to: s2, kind: DependencyType::Anti });
                assert(deps@ =~= st.deps + anti_from_uses(st.uses, s2) + wseq + seq![dep(s1, s2, DependencyType::Anti)]);
                last_write = Some(s2);
                uses.clear();
            } else if u1 && d1 && !u2 && d2 {
                deps.push(InstanceDep { from: s1, to: s2, kind: DependencyType::Anti });
                deps.push(InstanceDep { from: s1, to: s2, kind: DependencyType::Output });
                last_write = Some(s2);
                uses.clear();
            } else if u1 && d1 && u2 && !d2 {
                deps.push(InstanceDep { from: s1, to: s2, kind: DependencyType::True });
                last_write = Some(s1);
                uses.clear();
            } else if u1 && d1 && u2 && d2 {
                deps.push(InstanceDep { from: s1, to: s2, kind: DependencyType::True });
                deps.push(InstanceDep { from: s1, to: s2, kind: DependencyType::Output });
                deps.push(InstanceDep { from: s1, to: s2, kind: DependencyType::Anti });
                last_write = Some(s2);
                uses.clear();
            } else if u1 && !d1 && u2 && !d2 {
                uses.push(s1);
                if let Some(w) = last_write {
                    deps.push(InstanceDep { from: w, to: s2, kind: DependencyType::True });
                }
            }
            proof {
                let nst = calc_state(ud@, k as nat);
                assert(nst == calc_step(st, ud@[k - 1], ud@[k as int]));
                assert(deps@ =~= nst.deps);
                assert(uses@ =~= nst.uses);
            }
            k = k + 1;
        }
        deps
    }
}

} // verus!

verus! {

/// Length of the longest common prefix of `a` and `b` within the first `n`
/// positions.
pub open spec fn common_prefix(a: Seq<i32>, b: Seq<i32>, n: nat) -> nat
    decreases n,
{
    if n == 0 {
        0
    } else if common_prefix(a, b, (n - 1) as nat) == n - 1 && a[n - 1] == b[n - 1] {
        n
    } else {
        common_prefix(a, b, (n - 1) as nat)
    }
}

pub open spec fn min_len(a: Seq<i32>, b: Seq<i32>) -> nat {
    if a.len() <= b.len() { a.len() } else { b.len() }
}

/// Number of outermost loops that two instances share.
pub open spec fn common_loops(s1: InstanceModel, s2: InstanceModel) -> nat {
    common_prefix(s1.loops, s2.loops, min_len(s1.loops, s2.loops))
}

/// Carry level of a dependence from instance `s1` to instance `s2`: the
/// first shared loop (1-based, outermost first) whose index differs, or 0
/// when all shared loops agree.
pub open spec fn level_spec(s1: InstanceModel, s2: InstanceModel) -> int {
    let c = common_loops(s1, s2);
    let n = if c <= min_len(s1.iteration, s2.iteration) { c } else { min_len(s1.iteration, s2.iteration) };
    let d = common_prefix(s1.iteration, s2.iteration, n);
    if d < n { d + 1 as int } else { 0 }
}

pub proof fn lemma_common_prefix(a: Seq<i32>, b: Seq<i32>, n: nat)
    requires
        n <= a.len(),
        n <= b.len(),
    ensures
        common_prefix(a, b, n) <= n,
        forall|i: int| 0 <= i < common_prefix(a, b, n) ==> a[i] == b[i],
        common_prefix(a, b, n) < n ==> a[common_prefix(a, b, n) as int] != b[common_prefix(a, b, n) as int],
    decreases n,
{
    if n > 0 {
        lemma_common_prefix(a, b, (n - 1) as nat);
    }
}

proof fn lemma_common_prefix_step(a: Seq<i32>, b: Seq<i32>, n: nat, k: nat)
    requires
        k <= n <= a.len(),
        n <= b.len(),
        forall|i: int| 0 <= i < k ==> a[i] == b[i],
        k < n ==> a[k as int] != b[k as int],
    ensures
        common_prefix(a, b, n) == k,
    decreases n,
{
    if n > k {
        lemma_common_prefix_step(a, b, (n - 1) as nat, k);
    } else if n > 0 {
        lemma_common_prefix_step(a, b, (n - 1) as nat, (n - 1) as nat);
    }
}

fn common_len(a: &Vec<i32>, b: &Vec<i32>, n: usize) -> (r: usize)
    requires
        n <= a.len(),
        n <= b.len(),
    ensures
        r == common_prefix(a@, b@, n as nat),
{
    let mut k: usize = 0;
    while k < n && a[k] == b[k]
        invariant
            k <= n <= a.len(),
            n <= b.len(),
            forall|i: int| 0 <= i < k ==> a@[i] == b@[i],
        decreases n - k,
    {
        k = k + 1;
    }
    proof {
        lemma_common_prefix_step(a@, b@, n as nat, k as nat);
    }
    k
}

/// Number of outermost loops shared by two instances.
pub fn max_common_level(s1: &StatementInstance, s2: &StatementInstance) -> (r: usize)
    ensures
        r == common_loops(s1@, s2@),
{
    let n = if s1.loops.len() <= s2.loops.len() { s1.loops.len() } else { s2.loops.len() };
    common_len(&s1.loops, &s2.loops, n)
}

/// Carry level of a dependence from `s1` to `s2` (see `level_spec`).
pub fn find_level(s1: &StatementInstance, s2: &StatementInstance) -> (r: Level)
    requires
        s1.iteration@.len() < i32::MAX,
    ensures
        r == level_spec(s1@, s2@),
        0 <= r <= s1.iteration@.len(),
{
    let c = max_common_level(s1, s2);
    let m = if s1.iteration.len() <= s2.iteration.len() { s1.iteration.len() } else { s2.iteration.len() };
    let n = if c <= m { c } else { m };
    let d = common_len(&s1.iteration, &s2.iteration, n);
    proof {
        lemma_common_prefix(s1.iteration@, s2.iteration@, n as nat);
    }
    if d < n { d as i32 + 1 } else { 0 }
}

} // verus!
