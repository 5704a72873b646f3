//! The vectorizer: the Allen–Kennedy walk over the dependence graph,
//! written out as a program in which loops without carried cycles have
//! become array-range assignments.
use vstd::prelude::*;
use crate::codegen::{bounds_model, LoopBounds};
use crate::deps::{LoopLabel, Statement as Label};
use crate::emit::{assign_text, footer_text, header_text, vec_end_text, vec_start_text, with_index, without_index, Codegen, GenModel, Generator, Vectorizer};
use crate::graph::DepGraph;
use crate::ir::{clone_expr, Ast, Expr, Statement};
use crate::plan::{lookup_loops, plan_matches, plan_spec, plan_vectorization, stat_loops_model, StatLoops, VecStep, VectorizeError};
use crate::tables::{assign_spec, ast_statements, find_assign, find_loop, loop_spec, stat_loops_spec};

verus! {

/// The bounds of the loops with the given labels, in order.
pub open spec fn bounds_for(stmts: Seq<Statement>, labels: Seq<LoopLabel>) -> Result<Seq<(Seq<char>, Expr, Expr)>, VectorizeError>
    decreases labels.len(),
{
    if labels.len() == 0 {
        Ok(seq![])
    } else {
        match bounds_for(stmts, labels.drop_last()) {
            Err(e) => Err(e),
            Ok(m) => match loop_spec(stmts, labels.last()) {
                None => Err(VectorizeError::MissingLoop(labels.last())),
                Some(l) => Ok(m.push((l.var@, l.lower@, l.upper@))),
            },
        }
    }
}

/// The text of one step and the emitter's state after it.
#[verifier::opaque]
pub open spec fn step_text(
    stmts: Seq<Statement>,
    lps: Seq<(Label, Seq<LoopLabel>)>,
    g: GenModel,
    step: VecStep,
) -> Result<(Seq<char>, GenModel), VectorizeError> {
    match step {
        VecStep::LoopStart(label, c) => if c > 255 {
            Err(VectorizeError::TooDeep(c))
        } else {
            match loop_spec(stmts, label) {
                None => Err(VectorizeError::MissingLoop(label)),
                Some(l) => Ok((vec_start_text(g, l, c as nat), with_index(g, l.var@))),
            }
        },
        VecStep::LoopEnd(label, c) => if c > 255 {
            Err(VectorizeError::TooDeep(c))
        } else {
            match loop_spec(stmts, label) {
                None => Err(VectorizeError::MissingLoop(label)),
                Some(l) => Ok((vec_end_text(g, l, c as nat), without_index(g, l.var@))),
            }
        },
        VecStep::Assignment(stmt, c) => if c > 255 {
            Err(VectorizeError::TooDeep(c))
        } else {
            match assign_spec(stmts, stmt) {
                None => Err(VectorizeError::MissingStatement(stmt)),
                Some(a) => match lookup_loops(lps, stmt) {
                    None => Err(VectorizeError::MissingLoops(stmt)),
                    Some(loops) => {
                        let labels = if loops.len() > c { loops.subrange(c as int, loops.len() as int) } else { seq![] };
                        match bounds_for(stmts, labels) {
                            Err(e) => Err(e),
                            Ok(m) => {
                                let g2 = if g.tracing { g } else { GenModel { map: m, ..g } };
                                Ok((assign_text(g2, a, c as nat), g2))
                            },
                        }
                    },
                },
            }
        },
    }
}

/// The text of a sequence of steps and the emitter's state after them.
pub open spec fn steps_text(
    stmts: Seq<Statement>,
    lps: Seq<(Label, Seq<LoopLabel>)>,
    g: GenModel,
    steps: Seq<VecStep>,
) -> Result<(Seq<char>, GenModel), VectorizeError>
    decreases steps.len(),
{
    if steps.len() == 0 {
        Ok((seq![], g))
    } else {
        match steps_text(stmts, lps, g, steps.drop_last()) {
            Err(e) => Err(e),
            Ok((t, g1)) => match step_text(stmts, lps, g1, steps.last()) {
                Err(e) => Err(e),
                Ok((t2, g2)) => Ok((t + t2, g2)),
            },
        }
    }
}

pub open spec fn vectorizer_model(fold: bool) -> GenModel {
    GenModel { tracing: false, indices: Set::empty(), map: seq![], folding: fold }
}

/// The vector program for a dependence graph and a program: header, the
/// steps of the Allen–Kennedy walk, footer.
pub open spec fn vectorize_spec(graph: DepGraph, ast: Ast, fold: bool) -> Result<Seq<char>, VectorizeError> {
    let stmts = ast.statements.0@;
    let lps = stat_loops_spec(stmts, seq![]);
    match plan_spec(graph, lps) {
        Err(e) => Err(e),
        Ok(steps) => match steps_text(stmts, lps, vectorizer_model(fold), steps) {
            Err(e) => Err(e),
            Ok((t, _)) => Ok(header_text(ast.name@, ast.vardef@) + t + footer_text(ast.name@)),
        },
    }
}

proof fn lemma_steps_err(
    stmts: Seq<Statement>,
    lps: Seq<(Label, Seq<LoopLabel>)>,
    g: GenModel,
    steps: Seq<VecStep>,
    k: nat,
)
    requires
        k <= steps.len(),
        steps_text(stmts, lps, g, steps.take(k as int)) is Err,
    ensures
        steps_text(stmts, lps, g, steps) == steps_text(stmts, lps, g, steps.take(k as int)),
    decreases steps.len(),
{
    if k < steps.len() {
        assert(steps.drop_last().take(k as int) =~= steps.take(k as int));
        lemma_steps_err(stmts, lps, g, steps.drop_last(), k);
    } else {
        assert(steps.take(k as int) =~= steps);
    }
}

fn loop_bounds_for(stmts: &Vec<Statement>, loops: &Vec<LoopLabel>, c: usize) -> (r: Result<Vec<LoopBounds>, VectorizeError>)
    ensures
        match r {
            Ok(v) => bounds_for(stmts@, if loops@.len() > c { loops@.subrange(c as int, loops@.len() as int) } else { seq![] })
                == Ok::<Seq<(Seq<char>, Expr, Expr)>, VectorizeError>(bounds_model(v@)),
            Err(e) => bounds_for(stmts@, if loops@.len() > c { loops@.subrange(c as int, loops@.len() as int) } else { seq![] })
                == Err::<Seq<(Seq<char>, Expr, Expr)>, VectorizeError>(e),
        },
{
    let ghost labels = if loops@.len() > c { loops@.subrange(c as int, loops@.len() as int) } else { seq![] };
    let mut v: Vec<LoopBounds> = Vec::new();
    if loops.len() <= c {
        assert(bounds_model(v@) =~= seq![]);
        return Ok(v);
    }
    let mut i: usize = c;
    assert(labels.take(0) =~= seq![]);
    assert(bounds_model(v@) =~= seq![]);
    while i < loops.len()
        invariant
            c <= i <= loops@.len(),
            loops@.len() > c,
            labels == loops@.subrange(c as int, loops@.len() as int),
            bounds_for(stmts@, labels.take(i - c)) == Ok::<Seq<(Seq<char>, Expr, Expr)>, VectorizeError>(bounds_model(v@)),
        decreases loops.len() - i,
    {
        proof {
            let t = labels.take(i - c + 1);
            assert(t.drop_last() =~= labels.take(i - c));
            assert(t.last() == loops@[i as int]);
        }
        match find_loop(stmts, loops[i]) {
            None => {
                proof {
                    lemma_bounds_err(stmts@, labels, (i - c + 1) as nat);
                }
                return Err(VectorizeError::MissingLoop(loops[i]));
            },
            Some(l) => {
                let ghost before = v@;
                v.push(LoopBounds { var: l.var.clone(), lower: clone_expr(&l.lower), upper: clone_expr(&l.upper) });
                proof {
                    assert(bounds_model(v@) =~= bounds_model(before).push((l.var@, l.lower@, l.upper@)));
                }
            },
        }
        i = i + 1;
    }
    assert(labels.take(i - c) =~= labels);
    Ok(v)
}

proof fn lemma_bounds_err(stmts: Seq<Statement>, labels: Seq<LoopLabel>, k: nat)
    requires
        k <= labels.len(),
        bounds_for(stmts, labels.take(k as int)) is Err,
    ensures
        bounds_for(stmts, labels) == bounds_for(stmts, labels.take(k as int)),
    decreases labels.len(),
{
    if k < labels.len() {
        assert(labels.drop_last().take(k as int) =~= labels.take(k as int));
        lemma_bounds_err(stmts, labels.drop_last(), k);
    } else {
        assert(labels.take(k as int) =~= labels);
    }
}

/// Writes one step.
fn emit_step(cg: &mut Codegen, ast: &Ast, lps: &Vec<StatLoops>, step: VecStep) -> (r: Result<(), VectorizeError>)
    requires
        !old(cg).generator.model().tracing,
    ensures
        match step_text(ast.statements.0@, stat_loops_model(lps@), old(cg).generator.model(), step) {
            Ok((t, g)) => r is Ok && final(cg).out@ == old(cg).out@ + t && final(cg).generator.model() == g,
            Err(e) => r == Err::<(), VectorizeError>(e),
        },
        !final(cg).generator.model().tracing,
{
    reveal(step_text);
    let stmts = &ast.statements.0;
    match step {
        VecStep::LoopStart(label, c) => {
            if c > 255 {
                return Err(VectorizeError::TooDeep(c));
            }
            match find_loop(stmts, label) {
                None => Err(VectorizeError::MissingLoop(label)),
                Some(l) => {
                    cg.generate_loop_vec_start(l, c as u8);
                    Ok(())
                },
            }
        },
        VecStep::LoopEnd(label, c) => {
            if c > 255 {
                return Err(VectorizeError::TooDeep(c));
            }
            match find_loop(stmts, label) {
                None => Err(VectorizeError::MissingLoop(label)),
                Some(l) => {
                    cg.generate_loop_vec_end(l, c as u8);
                    Ok(())
                },
            }
        },
        VecStep::Assignment(stmt, c) => {
            if c > 255 {
                return Err(VectorizeError::TooDeep(c));
            }
            let a = match find_assign(stmts, stmt) {
                None => return Err(VectorizeError::MissingStatement(stmt)),
                Some(a) => a,
            };
            let loops = match crate::plan::find_loops(lps, stmt) {
                None => return Err(VectorizeError::MissingLoops(stmt)),
                Some(l) => l,
            };
            let bounds = match loop_bounds_for(stmts, loops, c) {
                Err(e) => return Err(e),
                Ok(b) => b,
            };
            cg.set_loop_data(bounds);
            cg.generate_assignment(a, c as u8);
            Ok(())
        },
    }
}

/// The vector program for a dependence graph and the program it was
/// traced from (see `vectorize_spec`); `fold` turns on folding of the
/// substituted bounds.
pub fn vectorize(graph: &DepGraph, ast: &Ast, fold: bool) -> (r: Result<String, VectorizeError>)
    ensures
        match vectorize_spec(*graph, *ast, fold) {
            Ok(t) => r matches Ok(s) && s@ == t,
            Err(e) => r == Err::<String, VectorizeError>(e),
        },
{
    let stmts = &ast.statements.0;
    let mut loop_cur: Vec<LoopLabel> = Vec::new();
    let mut lps: Vec<StatLoops> = Vec::new();
    ast_statements(stmts, &mut loop_cur, &mut lps);
    proof {
        assert(stat_loops_model(lps@) =~= stat_loops_spec(stmts@, seq![]));
    }
    let ghost lm = stat_loops_model(lps@);
    assert(lm == stat_loops_spec(ast.statements.0@, seq![]));
    let plan = match plan_vectorization(graph, &lps) {
        Ok(p) => p,
        Err(e) => return Err(e),
    };
    let mut cg = Codegen::new(Generator::Vectorizer(Vectorizer::new(fold)));
    proof {
        assert(bounds_model(cg.generator->Vectorizer_0.loop_replacement@) =~= seq![]);
        assert(cg.generator.model() == vectorizer_model(fold));
    }
    cg.generate_header(ast);
    let ghost start = cg.out@;
    let mut i: usize = 0;
    assert(plan@.take(0) =~= seq![]);
    while i < plan.len()
        invariant
            i <= plan@.len(),
            lm == stat_loops_model(lps@),
            stmts@ == ast.statements.0@,
            lm == stat_loops_spec(ast.statements.0@, seq![]),
            plan_spec(*graph, lm) == Ok::<Seq<VecStep>, VectorizeError>(plan@),
            !cg.generator.model().tracing,
            steps_text(stmts@, lm, vectorizer_model(fold), plan@.take(i as int)) matches Ok((t, g))
                && cg.out@ == start + t && cg.generator.model() == g,
        decreases plan.len() - i,
    {
        proof {
            let t = plan@.take(i as int + 1);
            assert(t.drop_last() =~= plan@.take(i as int));
            assert(t.last() == plan@[i as int]);
        }
        let ghost g_before = cg.generator.model();
        proof {
            let prev = steps_text(stmts@, lm, vectorizer_model(fold), plan@.take(i as int));
            assert(prev == Ok::<(Seq<char>, GenModel), VectorizeError>((prev->Ok_0.0, g_before)));
        }
        let st = plan[i];
        assert(st == plan@[i as int]);
        match emit_step(&mut cg, ast, &lps, st) {
            Ok(()) => {},
            Err(e) => {
                proof {
                    assert(step_text(stmts@, lm, g_before, plan@[i as int]) == Err::<(Seq<char>, GenModel), VectorizeError>(e));
                    assert(steps_text(stmts@, lm, vectorizer_model(fold), plan@.take(i as int + 1)) == Err::<(Seq<char>, GenModel), VectorizeError>(e));
                    lemma_steps_err(stmts@, lm, vectorizer_model(fold), plan@, (i + 1) as nat);
                }
                return Err(e);
            },
        }
        proof {
            let t = plan@.take(i as int + 1);
            assert(cg.out@ =~= start + steps_text(stmts@, lm, vectorizer_model(fold), t)->Ok_0.0);
        }
        i = i + 1;
    }
    assert(plan@.take(i as int) =~= plan@);
    cg.generate_footer(ast);
    assert(cg.out@ =~= header_text(ast.name@, ast.vardef@) + steps_text(stmts@, lm, vectorizer_model(fold), plan@)->Ok_0.0
        + footer_text(ast.name@));
    Ok(cg.out)
}

} // verus!
