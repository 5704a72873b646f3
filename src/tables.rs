//! Lookups into the program tree that the vectorizer needs: loops by label,
//! assignments by label, and the loops around each assignment. Conditionals
//! are not entered: the vectorizer does not handle them.
use vstd::prelude::*;
use crate::deps::{LoopLabel, Statement as Label};
use crate::ir::{Assign, Loop, Statement};
use crate::plan::{stat_loops_model, StatLoops};

verus! {

/// The first loop with the given label, in program order, searching loop
/// bodies but not conditionals.
pub open spec fn loop_spec(stmts: Seq<Statement>, label: LoopLabel) -> Option<Loop>
    decreases stmts,
{
    if stmts.len() == 0 {
        None
    } else {
        match stmts[0] {
            Statement::Loop(l) => if l.label == label {
                Some(l)
            } else {
                match loop_spec(l.statements.0@, label) {
                    Some(x) => Some(x),
                    None => loop_spec(stmts.drop_first(), label),
                }
            },
            _ => loop_spec(stmts.drop_first(), label),
        }
    }
}

/// The first assignment with the given label, in program order, searching
/// loop bodies but not conditionals.
pub open spec fn assign_spec(stmts: Seq<Statement>, label: Label) -> Option<Assign>
    decreases stmts,
{
    if stmts.len() == 0 {
        None
    } else {
        match stmts[0] {
            Statement::Loop(l) => match assign_spec(l.statements.0@, label) {
                Some(x) => Some(x),
                None => assign_spec(stmts.drop_first(), label),
            },
            Statement::Assignment(a) => if a.label == label {
                Some(a)
            } else {
                assign_spec(stmts.drop_first(), label)
            },
            Statement::If(_) => assign_spec(stmts.drop_first(), label),
        }
    }
}

/// Each assignment, in program order, with the labels of the loops around
/// it (those of `cur` first), conditionals left out.
pub open spec fn stat_loops_spec(stmts: Seq<Statement>, cur: Seq<LoopLabel>) -> Seq<(Label, Seq<LoopLabel>)>
    decreases stmts,
{
    if stmts.len() == 0 {
        seq![]
    } else {
        let rest = stat_loops_spec(stmts.drop_first(), cur);
        match stmts[0] {
            Statement::Loop(l) => stat_loops_spec(l.statements.0@, cur.push(l.label)) + rest,
            Statement::Assignment(a) => seq![(a.label, cur)] + rest,
            Statement::If(_) => rest,
        }
    }
}

/// The loop with the given label (see `loop_spec`).
pub fn find_loop<'a>(stmts: &'a Vec<Statement>, label: LoopLabel) -> (r: Option<&'a Loop>)
    ensures
        match r {
            Some(l) => loop_spec(stmts@, label) == Some(*l),
            None => loop_spec(stmts@, label) is None,
        },
    decreases stmts,
{
    let mut i: usize = 0;
    proof {
        assert(stmts@.subrange(0, stmts@.len() as int) =~= stmts@);
    }
    while i < stmts.len()
        invariant
            i <= stmts@.len(),
            loop_spec(stmts@, label) == loop_spec(stmts@.subrange(i as int, stmts@.len() as int), label),
        decreases stmts.len() - i,
    {
        proof {
            let rest = stmts@.subrange(i as int, stmts@.len() as int);
            assert(rest.drop_first() =~= stmts@.subrange(i as int + 1, stmts@.len() as int));
            assert(rest[0] == stmts@[i as int]);
        }
        match &stmts[i] {
            Statement::Loop(l) => {
                if l.label == label {
                    return Some(l);
                }
                match find_loop(&l.statements.0, label) {
                    Some(x) => return Some(x),
                    None => {},
                }
            },
            _ => {},
        }
        i = i + 1;
    }
    None
}

/// The assignment with the given label (see `assign_spec`).
pub fn find_assign<'a>(stmts: &'a Vec<Statement>, label: Label) -> (r: Option<&'a Assign>)
    ensures
        match r {
            Some(a) => assign_spec(stmts@, label) == Some(*a),
            None => assign_spec(stmts@, label) is None,
        },
    decreases stmts,
{
    let mut i: usize = 0;
    proof {
        assert(stmts@.subrange(0, stmts@.len() as int) =~= stmts@);
    }
    while i < stmts.len()
        invariant
            i <= stmts@.len(),
            assign_spec(stmts@, label) == assign_spec(stmts@.subrange(i as int, stmts@.len() as int), label),
        decreases stmts.len() - i,
    {
        proof {
            let rest = stmts@.subrange(i as int, stmts@.len() as int);
            assert(rest.drop_first() =~= stmts@.subrange(i as int + 1, stmts@.len() as int));
            assert(rest[0] == stmts@[i as int]);
        }
        match &stmts[i] {
            Statement::Loop(l) => {
                match find_assign(&l.statements.0, label) {
                    Some(x) => return Some(x),
                    None => {},
                }
            },
            Statement::Assignment(a) => {
                if a.label == label {
                    return Some(a);
                }
            },
            Statement::If(_) => {},
        }
        i = i + 1;
    }
    None
}


/// Appends each assignment with the labels of the loops around it (see
/// `stat_loops_spec`).
pub fn ast_statements(stmts: &Vec<Statement>, loop_cur: &mut Vec<LoopLabel>, stat_lps: &mut Vec<StatLoops>)
    ensures
        final(loop_cur)@ == old(loop_cur)@,
        stat_loops_model(final(stat_lps)@) == stat_loops_model(old(stat_lps)@) + stat_loops_spec(stmts@, old(loop_cur)@),
    decreases stmts,
{
    let mut i: usize = 0;
    let ghost cur = loop_cur@;
    let ghost start = stat_loops_model(stat_lps@);
    while i < stmts.len()
        invariant
            i <= stmts@.len(),
            loop_cur@ == cur,
            stat_loops_model(stat_lps@) == start + stat_loops_spec(stmts@.take(i as int), cur),
        decreases stmts.len() - i,
    {
        proof {
            lemma_stat_loops_take(stmts@, cur, i as nat);
        }
        let ghost before = stat_loops_model(stat_lps@);
        match &stmts[i] {
            Statement::Loop(l) => {
                loop_cur.push(l.label);
                ast_statements(&l.statements.0, loop_cur, stat_lps);
                loop_cur.pop();
                proof {
                    assert(loop_cur@ =~= cur);
                }
            },
            Statement::Assignment(a) => {
                let mut lps: Vec<LoopLabel> = Vec::new();
                let mut k: usize = 0;
                while k < loop_cur.len()
                    invariant
                        k <= loop_cur@.len(),
                        lps@ == loop_cur@.take(k as int),
                    decreases loop_cur.len() - k,
                {
                    lps.push(loop_cur[k]);
                    k = k + 1;
                    assert(lps@ =~= loop_cur@.take(k as int));
                }
                assert(loop_cur@.take(k as int) =~= loop_cur@);
                stat_lps.push(StatLoops { statement: a.label, loops: lps });
                proof {
                    assert(stat_loops_model(stat_lps@) =~= before + seq![(a.label, cur)]);
                }
            },
            Statement::If(_) => {},
        }
        proof {
            assert(stat_loops_model(stat_lps@) =~= start + stat_loops_spec(stmts@.take(i as int + 1), cur));
        }
        i = i + 1;
    }
    proof {
        assert(stmts@.take(i as int) =~= stmts@);
    }
}

proof fn lemma_stat_loops_take(stmts: Seq<Statement>, cur: Seq<LoopLabel>, i: nat)
    requires
        i < stmts.len(),
    ensures
        stat_loops_spec(stmts.take(i as int + 1), cur) == stat_loops_spec(stmts.take(i as int), cur) + match stmts[i as int] {
            Statement::Loop(l) => stat_loops_spec(l.statements.0@, cur.push(l.label)),
            Statement::Assignment(a) => seq![(a.label, cur)],
            Statement::If(_) => seq![],
        },
    decreases i,
{
    let t1 = stmts.take(i as int + 1);
    if i == 0 {
        assert(t1.drop_first() =~= seq![]);
        assert(stmts.take(0) =~= seq![]);
    } else {
        assert(t1.drop_first() =~= stmts.drop_first().take(i as int));
        assert(stmts.take(i as int).drop_first() =~= stmts.drop_first().take(i as int - 1));
        lemma_stat_loops_take(stmts.drop_first(), cur, (i - 1) as nat);
        assert(stmts.drop_first()[i - 1] == stmts[i as int]);
    }
}

} // verus!

verus! {

pub open spec fn sat_add(a: nat, b: nat) -> nat {
    if a + b < usize::MAX { a + b } else { usize::MAX as nat }
}

/// How many conditionals the vectorizer passes over: those at the top level
/// and in loop bodies (it does not enter conditionals), counted up to
/// `usize::MAX`.
pub open spec fn skipped_ifs_spec(stmts: Seq<Statement>) -> nat
    decreases stmts,
{
    if stmts.len() == 0 {
        0
    } else {
        let rest = skipped_ifs_spec(stmts.drop_first());
        match stmts[0] {
            Statement::Loop(l) => sat_add(skipped_ifs_spec(l.statements.0@), rest),
            Statement::Assignment(_) => rest,
            Statement::If(_) => sat_add(1, rest),
        }
    }
}

/// The number of conditionals the vectorizer passes over without
/// vectorizing them (see `skipped_ifs_spec`), for a caller to warn about.
pub fn skipped_conditionals(stmts: &Vec<Statement>) -> (r: usize)
    ensures
        r == skipped_ifs_spec(stmts@),
    decreases stmts,
{
    let n = stmts.len();
    let mut i: usize = n;
    let mut count: usize = 0;
    proof {
        assert(stmts@.subrange(n as int, n as int) =~= seq![]);
    }
    while i > 0
        invariant
            i <= n == stmts@.len(),
            count == skipped_ifs_spec(stmts@.subrange(i as int, n as int)),
        decreases i,
    {
        proof {
            let t = stmts@.subrange(i - 1, n as int);
            assert(t.drop_first() =~= stmts@.subrange(i as int, n as int));
            assert(t[0] == stmts@[i - 1]);
        }
        let add: usize = match &stmts[i - 1] {
            Statement::Loop(l) => skipped_conditionals(&l.statements.0),
            Statement::Assignment(_) => 0,
            Statement::If(_) => 1,
        };
        count = if (add as u128) + (count as u128) < (usize::MAX as u128) { add + count } else { usize::MAX };
        i = i - 1;
    }
    proof {
        assert(stmts@.subrange(0, n as int) =~= stmts@);
    }
    count
}

} // verus!
