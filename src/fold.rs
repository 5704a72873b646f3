//! Constant folding of expressions: the model and the idempotence law.
use vstd::prelude::*;
use crate::ir::{Expr, OpType};

verus! {

/// `b` as the integer that the target language gives a truth value.
pub open spec fn truth(b: bool) -> i32 {
    if b { 1 } else { 0 }
}

/// Value of a binary operation on two integer literals, where it folds.
/// Arithmetic wraps on overflow; a division by zero or one that overflows
/// does not fold.
pub open spec fn int_binop(op: OpType, a: i32, b: i32) -> Option<i32> {
    match op {
        OpType::Plus => Some(a.wrapping_add(b)),
        OpType::Minus => Some(a.wrapping_sub(b)),
        OpType::Mul => Some(a.wrapping_mul(b)),
        OpType::Div => a.checked_div(b),
        OpType::Equal => Some(truth(a == b)),
        OpType::NotEqual => Some(truth(a != b)),
        OpType::Greater => Some(truth(a > b)),
        OpType::GreaterEqual => Some(truth(a >= b)),
        OpType::Lower => Some(truth(a < b)),
        OpType::LowerEqual => Some(truth(a <= b)),
        OpType::And => Some(truth(a != 0 && b != 0)),
        OpType::Or => Some(truth(a != 0 || b != 0)),
        OpType::Not => Some(truth(b == 0)),
    }
}

/// Value of a unary operation on an integer literal. Only `-` and `.not.`
/// compute; the other operators compare or combine the operand with itself.
pub open spec fn int_unop(op: OpType, a: i32) -> i32 {
    match op {
        OpType::Plus | OpType::Mul | OpType::Div => a,
        OpType::Minus => (0i32).wrapping_sub(a),
        OpType::Equal | OpType::GreaterEqual | OpType::LowerEqual => 1,
        OpType::NotEqual | OpType::Greater | OpType::Lower => 0,
        OpType::And | OpType::Or => truth(a != 0),
        OpType::Not => truth(a == 0),
    }
}

pub open spec fn is_literal(e: Expr) -> bool {
    e is Int || e is Real
}

pub open spec fn fold_binop(op: OpType, l: Expr, r: Expr) -> Expr {
    match (l, r) {
        (Expr::Int(a), Expr::Int(b)) => match int_binop(op, a, b) {
            Some(v) => Expr::Int(v),
            None => Expr::Bin(op, Box::new(l), Box::new(r)),
        },
        _ => Expr::Bin(op, Box::new(l), Box::new(r)),
    }
}

pub open spec fn fold_unop(op: OpType, r: Expr) -> Expr {
    match r {
        Expr::Int(a) => Expr::Int(int_unop(op, a)),
        _ => Expr::Un(op, Box::new(r)),
    }
}

/// Bottom-up constant folding: operations on integer literals are computed,
/// parentheses around a literal are dropped, everything else is rebuilt
/// from its folded parts.
pub open spec fn fold_spec(e: Expr) -> Expr
    decreases e,
{
    match e {
        Expr::Int(_) => e,
        Expr::Real(_) => e,
        Expr::Var(n, idx) => Expr::Var(n, folds_spec(idx)),
        Expr::Bin(op, l, r) => fold_binop(op, fold_spec(*l), fold_spec(*r)),
        Expr::Un(op, r) => fold_unop(op, fold_spec(*r)),
        Expr::Paren(x) => {
            let f = fold_spec(*x);
            if is_literal(f) { f } else { Expr::Paren(Box::new(f)) }
        },
    }
}

pub open spec fn folds_spec(s: Seq<Expr>) -> Seq<Expr>
    decreases s,
{
    if s.len() == 0 {
        Seq::empty()
    } else {
        folds_spec(s.drop_last()).push(fold_spec(s.last()))
    }
}

pub proof fn lemma_folds_push(s: Seq<Expr>, e: Expr)
    ensures
        folds_spec(s.push(e)) == folds_spec(s).push(fold_spec(e)),
{
    assert(s.push(e).drop_last() =~= s);
}

/// Folding is idempotent: folding an already folded expression changes
/// nothing.
pub proof fn lemma_fold_idempotent(e: Expr)
    ensures
        fold_spec(fold_spec(e)) == fold_spec(e),
    decreases e,
{
    match e {
        Expr::Int(_) => {},
        Expr::Real(_) => {},
        Expr::Var(n, idx) => {
            lemma_folds_idempotent(idx);
        },
        Expr::Bin(op, l, r) => {
            lemma_fold_idempotent(*l);
            lemma_fold_idempotent(*r);
        },
        Expr::Un(op, r) => {
            lemma_fold_idempotent(*r);
        },
        Expr::Paren(x) => {
            lemma_fold_idempotent(*x);
        },
    }
}

pub proof fn lemma_folds_idempotent(s: Seq<Expr>)
    ensures
        folds_spec(folds_spec(s)) == folds_spec(s),
    decreases s,
{
    if s.len() > 0 {
        lemma_folds_idempotent(s.drop_last());
        lemma_fold_idempotent(s.last());
        lemma_folds_push(folds_spec(s.drop_last()), fold_spec(s.last()));
    }
}

} // verus!
