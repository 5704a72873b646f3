//! Reading an execution trace: one line per element access and per loop
//! event, turned into statement instances and the accesses they made.
use vstd::prelude::*;
use crate::deps::{Access, AccessModel, Category, InstanceModel, LoopLabel, Statement, StatementInstance};
use crate::lex::{all_digits, int_token, nat_token, parse_int, parse_nat, strings_model, tokenize, tokens};

verus! {

/// The access part of a trace line, before it is tied to an instance.
pub struct TraceAccess {
    pub statement: Statement,
    pub var: String,
    pub category: Category,
    pub indices: Vec<i32>,
}

/// One line of a trace.
pub enum TraceOutput {
    Access(TraceAccess),
    LoopBegin(LoopLabel),
    LoopEnd,
    LoopUpdate(i32),
}

/// A trace line that could not be read, by its index (0-based).
#[derive(PartialEq, Eq, Structural, Clone, Copy, Debug)]
pub enum TraceError {
    ParseAccessError(usize),
}

/// Model of one trace line.
pub enum TraceLine {
    Access(Statement, Seq<char>, Category, Seq<i32>),
    Begin(LoopLabel),
    End,
    Update(i32),
}

impl View for TraceOutput {
    type V = TraceLine;

    open spec fn view(&self) -> TraceLine {
        match self {
            TraceOutput::Access(a) => TraceLine::Access(a.statement, a.var@, a.category, a.indices@),
            TraceOutput::LoopBegin(l) => TraceLine::Begin(*l),
            TraceOutput::LoopEnd => TraceLine::End,
            TraceOutput::LoopUpdate(v) => TraceLine::Update(*v),
        }
    }
}

pub open spec fn category_of(t: Seq<char>) -> Option<Category> {
    if t == "USE"@ {
        Some(Category::Read)
    } else if t == "DEF"@ {
        Some(Category::Write)
    } else {
        None
    }
}

/// The integers that a sequence of tokens stands for, if each is one.
pub open spec fn ints_of(ts: Seq<Seq<char>>) -> Option<Seq<i32>>
    decreases ts.len(),
{
    if ts.len() == 0 {
        Some(seq![])
    } else {
        match (ints_of(ts.drop_last()), int_token(ts.last())) {
            (Some(a), Some(v)) => Some(a.push(v)),
            _ => None,
        }
    }
}

/// The trace line that a sequence of tokens forms:
/// `LABEL VAR USE|DEF i1 i2 ...`, `LABEL VAR loop begin`,
/// `LABEL VAR loop end` or `LABEL VAR value`.
pub open spec fn line_of(ts: Seq<Seq<char>>) -> Option<TraceLine> {
    if ts.len() >= 3 && nat_token(ts[0]) is Some && category_of(ts[2]) is Some
        && ints_of(ts.subrange(3, ts.len() as int)) is Some {
        Some(TraceLine::Access(
            nat_token(ts[0])->0,
            ts[1],
            category_of(ts[2])->0,
            ints_of(ts.subrange(3, ts.len() as int))->0,
        ))
    } else if ts.len() == 4 && nat_token(ts[0]) is Some && ts[2] == "loop"@ && ts[3] == "begin"@ {
        Some(TraceLine::Begin(nat_token(ts[0])->0))
    } else if ts.len() == 4 && nat_token(ts[0]) is Some && ts[2] == "loop"@ && ts[3] == "end"@ {
        Some(TraceLine::End)
    } else if ts.len() == 3 && nat_token(ts[0]) is Some && int_token(ts[2]) is Some {
        Some(TraceLine::Update(int_token(ts[2])->0))
    } else {
        None
    }
}

/// The trace line that a line of text forms, if any.
pub open spec fn parse_line_spec(s: Seq<char>) -> Option<TraceLine> {
    if vstd::utf8::is_ascii_chars(s) { line_of(tokens(s)) } else { None }
}

fn literal(s: &str) -> (r: String)
    ensures
        r@ == s@,
{
    String::from_str(s)
}

/// Reads one trace line.
pub fn parse_line(line: &str) -> (r: Option<TraceOutput>)
    ensures
        r matches Some(t) ==> parse_line_spec(line@) == Some(t@),
        r is None ==> parse_line_spec(line@) is None,
{
    proof {
        reveal_strlit("USE");
        reveal_strlit("DEF");
        reveal_strlit("loop");
        reveal_strlit("begin");
        reveal_strlit("end");
    }
    let toks = match tokenize(line) {
        Some(t) => t,
        None => return None,
    };
    let ghost ts = strings_model(toks@);
    assert(ts == tokens(line@));
    let n = toks.len();
    if n < 3 {
        return None;
    }
    assert(ts[0] == toks@[0]@ && ts[1] == toks@[1]@ && ts[2] == toks@[2]@);
    let label = match parse_nat(toks[0].as_str()) {
        Some(l) => l,
        None => return None,
    };
    let use_lit = literal("USE");
    let def_lit = literal("DEF");
    let loop_lit = literal("loop");
    let cat = if toks[2] == use_lit {
        Some(Category::Read)
    } else if toks[2] == def_lit {
        Some(Category::Write)
    } else {
        None
    };
    if let Some(category) = cat {
        let mut indices: Vec<i32> = Vec::new();
        let mut k: usize = 3;
        while k < n
            invariant
                3 <= k <= n,
                n == toks.len(),
                ts == strings_model(toks@),
                ints_of(ts.subrange(3, k as int)) == Some(indices@),
                category_of(ts[2]) is Some,
                ts == tokens(line@),
                line.is_ascii(),
            decreases n - k,
        {
            proof {
                assert(ts.subrange(3, k as int + 1).drop_last() =~= ts.subrange(3, k as int));
                assert(ts.subrange(3, k as int + 1).last() == toks@[k as int]@);
            }
            match parse_int(toks[k].as_str()) {
                Some(v) => indices.push(v),
                None => {
                    proof {
                        assert(ts.subrange(3, n as int).take(k - 3 + 1) =~= ts.subrange(3, k as int + 1));
                        assert(int_token(toks@[k as int]@) is None);
                        assert(ints_of(ts.subrange(3, k as int + 1)) is None);
                        if ints_of(ts.subrange(3, n as int)) is Some {
                            lemma_ints_of_prefix(ts.subrange(3, n as int), (k - 3 + 1) as nat);
                        }
                        assert(ints_of(ts.subrange(3, n as int)) is None);
                        reveal_strlit("USE");
                        reveal_strlit("DEF");
                        reveal_strlit("loop");
                        assert(ts[2] != "loop"@);
                        assert(!all_digits(ts[2]));
                        assert(int_token(ts[2]) is None);
                        assert(line_of(ts) is None);
                    }
                    return None;
                },
            }
            k = k + 1;
        }
        let var = toks[1].clone();
        return Some(TraceOutput::Access(TraceAccess { statement: label, var, category, indices }));
    }
    if n == 4 && toks[2] == loop_lit {
        let begin_lit = literal("begin");
        let end_lit = literal("end");
        assert(ts[3] == toks@[3]@);
        if toks[3] == begin_lit {
            return Some(TraceOutput::LoopBegin(label));
        } else if toks[3] == end_lit {
            return Some(TraceOutput::LoopEnd);
        }
        proof {
            reveal_strlit("begin");
            reveal_strlit("end");
            reveal_strlit("loop");
        }
        return None;
    }
    if n == 3 {
        match parse_int(toks[2].as_str()) {
            Some(v) => return Some(TraceOutput::LoopUpdate(v)),
            None => return None,
        }
    }
    None
}

proof fn lemma_ints_of_prefix(ts: Seq<Seq<char>>, k: nat)
    requires
        k <= ts.len(),
        ints_of(ts) is Some,
    ensures
        ints_of(ts.take(k as int)) is Some,
    decreases ts.len(),
{
    if k < ts.len() {
        assert(ts.drop_last().take(k as int) =~= ts.take(k as int));
        lemma_ints_of_prefix(ts.drop_last(), k);
    } else {
        assert(ts.take(k as int) =~= ts);
    }
}

} // verus!

verus! {

/// State of the trace reader: the instances and accesses so far, the
/// statement of the last access, the labels and index values of the
/// enclosing loops, and whether a loop index changed since the last access.
pub struct TraceState {
    pub instances: Seq<InstanceModel>,
    pub accesses: Seq<AccessModel>,
    pub last_statement: Statement,
    pub loops: Seq<LoopLabel>,
    pub iteration: Seq<i32>,
    pub loop_updated: bool,
}

pub open spec fn initial_state() -> TraceState {
    TraceState {
        instances: seq![],
        accesses: seq![],
        last_statement: 0,
        loops: seq![],
        iteration: seq![],
        loop_updated: false,
    }
}

/// Whether an access of `label` starts a new statement instance.
pub open spec fn starts_instance(st: TraceState, label: Statement) -> bool {
    st.instances.len() == 0 || label != st.last_statement || st.loop_updated
}

/// Effect of one trace line on the reader's state.
pub open spec fn trace_step(st: TraceState, t: TraceLine) -> TraceState {
    match t {
        TraceLine::Access(label, var, category, indices) => {
            let fresh = starts_instance(st, label);
            let instances = if fresh {
                st.instances.push(InstanceModel { statement: label, loops: st.loops, iteration: st.iteration })
            } else {
                st.instances
            };
            TraceState {
                instances,
                accesses: st.accesses.push(
                    AccessModel { instance: (instances.len() - 1) as nat, var, category, indices },
                ),
                last_statement: if fresh { label } else { st.last_statement },
                loop_updated: if fresh { false } else { st.loop_updated },
                ..st
            }
        },
        TraceLine::Begin(label) => TraceState {
            loops: st.loops.push(label),
            iteration: st.iteration.push(0),
            ..st
        },
        TraceLine::End => TraceState {
            loops: if st.loops.len() > 0 { st.loops.drop_last() } else { st.loops },
            iteration: if st.iteration.len() > 0 { st.iteration.drop_last() } else { st.iteration },
            ..st
        },
        TraceLine::Update(v) => TraceState {
            iteration: if st.iteration.len() > 0 {
                st.iteration.update(st.iteration.len() - 1, v)
            } else {
                st.iteration
            },
            loop_updated: true,
            ..st
        },
    }
}

/// The reader's state after the given lines, or the index of the first line
/// that is no trace line.
pub open spec fn trace_run(lines: Seq<Seq<char>>) -> Result<TraceState, nat>
    decreases lines.len(),
{
    if lines.len() == 0 {
        Ok(initial_state())
    } else {
        match trace_run(lines.drop_last()) {
            Err(k) => Err(k),
            Ok(st) => match parse_line_spec(lines.last()) {
                None => Err((lines.len() - 1) as nat),
                Some(t) => Ok(trace_step(st, t)),
            },
        }
    }
}

pub open spec fn instances_model(v: Seq<StatementInstance>) -> Seq<InstanceModel> {
    v.map_values(|x: StatementInstance| x@)
}

pub open spec fn accesses_model(v: Seq<Access>) -> Seq<AccessModel> {
    v.map_values(|x: Access| x@)
}

/// Every instance holds as many loop labels as index values, and every
/// access names an instance that precedes it.
pub open spec fn state_aligned(st: TraceState) -> bool {
    &&& st.loops.len() == st.iteration.len()
    &&& forall|i: int| 0 <= i < st.instances.len()
        ==> (#[trigger] st.instances[i]).loops.len() == st.instances[i].iteration.len()
    &&& forall|i: int| 0 <= i < st.accesses.len()
        ==> (#[trigger] st.accesses[i]).instance < st.instances.len()
}

/// Instance alignment: in every state that reading a trace reaches, each
/// instance has exactly one index value per enclosing loop, and each access
/// refers to an existing instance.
pub proof fn lemma_trace_aligned(lines: Seq<Seq<char>>)
    ensures
        trace_run(lines) matches Ok(st) ==> state_aligned(st),
    decreases lines.len(),
{
    if lines.len() > 0 {
        lemma_trace_aligned(lines.drop_last());
    }
}

proof fn lemma_trace_run_err(lines: Seq<Seq<char>>, m: nat)
    requires
        m <= lines.len(),
        trace_run(lines.take(m as int)) is Err,
    ensures
        trace_run(lines) == trace_run(lines.take(m as int)),
    decreases lines.len(),
{
    if m < lines.len() {
        assert(lines.drop_last().take(m as int) =~= lines.take(m as int));
        lemma_trace_run_err(lines.drop_last(), m);
    } else {
        assert(lines.take(m as int) =~= lines);
    }
}

fn copy_ints(v: &Vec<i32>) -> (r: Vec<i32>)
    ensures
        r@ == v@,
{
    let mut r: Vec<i32> = Vec::new();
    let mut i: usize = 0;
    while i < v.len()
        invariant
            i <= v.len(),
            r@ == v@.take(i as int),
        decreases v.len() - i,
    {
        r.push(v[i]);
        i = i + 1;
        assert(r@ =~= v@.take(i as int));
    }
    assert(v@.take(i as int) =~= v@);
    r
}

/// Reads a whole trace, one line per element, into the statement
/// instances and the accesses they made (see `trace_run`).
pub fn read_trace(lines: &Vec<String>) -> (r: Result<(Vec<StatementInstance>, Vec<Access>), TraceError>)
    ensures
        match (r, trace_run(strings_model(lines@))) {
            (Ok((inst, acc)), Ok(st)) => instances_model(inst@) == st.instances
                && accesses_model(acc@) == st.accesses,
            (Err(TraceError::ParseAccessError(k)), Err(j)) => k == j,
            _ => false,
        },
{
    let ghost ls = strings_model(lines@);
    let mut instances: Vec<StatementInstance> = Vec::new();
    let mut access: Vec<Access> = Vec::new();
    let mut last_statement: Statement = 0;
    let mut loops: Vec<LoopLabel> = Vec::new();
    let mut iteration: Vec<i32> = Vec::new();
    let mut loop_updated = false;
    let mut n: usize = 0;
    proof {
        assert(ls.take(0) =~= seq![]);
        assert(instances_model(instances@) =~= seq![]);
        assert(accesses_model(access@) =~= seq![]);
        assert(loops@ =~= seq![]);
        assert(iteration@ =~= seq![]);
    }
    while n < lines.len()
        invariant
            n <= lines.len(),
            ls == strings_model(lines@),
            trace_run(ls.take(n as int)) == Ok::<TraceState, nat>(TraceState {
                instances: instances_model(instances@),
                accesses: accesses_model(access@),
                last_statement,
                loops: loops@,
                iteration: iteration@,
                loop_updated,
            }),
        decreases lines.len() - n,
    {
        let ghost st = TraceState {
            instances: instances_model(instances@),
            accesses: accesses_model(access@),
            last_statement,
            loops: loops@,
            iteration: iteration@,
            loop_updated,
        };
        proof {
            assert(ls.take(n as int + 1).drop_last() =~= ls.take(n as int));
            assert(ls.take(n as int + 1).last() == lines@[n as int]@);
        }
        let t = match parse_line(lines[n].as_str()) {
            Some(t) => t,
            None => {
                proof {
                    lemma_trace_run_err(ls, (n + 1) as nat);
                }
                return Err(TraceError::ParseAccessError(n));
            },
        };
        match t {
            TraceOutput::Access(a) => {
                if instances.len() == 0 || a.statement != last_statement || loop_updated {
                    let ghost old_inst = instances@;
                    instances.push(StatementInstance {
                        statement: a.statement,
                        loops: copy_ints(&loops),
                        iteration: copy_ints(&iteration),
                    });
                    proof {
                        assert(instances_model(instances@) =~= instances_model(old_inst).push(
                            instances@.last()@,
                        ));
                    }
                    last_statement = a.statement;
                    loop_updated = false;
                }
                let ghost old_acc = access@;
                let ghost tl = TraceLine::Access(a.statement, a.var@, a.category, a.indices@);
                let acc = Access {
                    instance: instances.len() - 1,
                    var: a.var,
                    category: a.category,
                    indices: a.indices,
                };
                access.push(acc);
                proof {
                    assert(accesses_model(access@) =~= accesses_model(old_acc).push(access@.last()@));
                    assert(accesses_model(access@) == trace_step(st, tl).accesses);
                    assert(instances_model(instances@) == trace_step(st, tl).instances);
                }
            },
            TraceOutput::LoopBegin(label) => {
                loops.push(label);
                iteration.push(0);
            },
            TraceOutput::LoopEnd => {
                loops.pop();
                iteration.pop();
            },
            TraceOutput::LoopUpdate(index) => {
                let k = iteration.len();
                if k > 0 {
                    iteration.set(k - 1, index);
                }
                loop_updated = true;
            },
        }
        n = n + 1;
    }
    proof {
        assert(ls.take(n as int) =~= ls);
    }
    Ok((instances, access))
}

} // verus!
