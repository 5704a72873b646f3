//! Emitting the target program: expression text, the index rewriting of
//! the vectorizer (loop variables become ranges), and constant folding.
use vstd::prelude::*;
use crate::fold::{fold_spec, folds_spec, lemma_folds_push, int_binop, int_unop, truth};
use crate::ir::{clone_expr, exprs_model, expr_model, lemma_exprs_model, lemma_exprs_model_push, BinOp, Expr, Expression, OpType, UnOp, Variable};
use crate::text::{int_text, push_int};

verus! {

/// The bounds of a loop whose variable the vectorizer turns into a range.
pub struct LoopBounds {
    pub var: String,
    pub lower: Expression,
    pub upper: Expression,
}

pub open spec fn bounds_model(m: Seq<LoopBounds>) -> Seq<(Seq<char>, Expr, Expr)> {
    m.map_values(|b: LoopBounds| (b.var@, b.lower@, b.upper@))
}

/// Position of the last entry for `name` in the loop map, if any.
pub open spec fn lookup_bounds(m: Seq<(Seq<char>, Expr, Expr)>, name: Seq<char>) -> Option<int>
    decreases m.len(),
{
    if m.len() == 0 {
        None
    } else if m.last().0 == name {
        Some(m.len() - 1)
    } else {
        lookup_bounds(m.drop_last(), name)
    }
}

/// Whether an expression mentions a mapped loop variable anywhere, the
/// indices of array references included.
pub open spec fn check_spec(m: Seq<(Seq<char>, Expr, Expr)>, e: Expr) -> bool
    decreases e,
{
    match e {
        Expr::Var(n, idx) => lookup_bounds(m, n) is Some || checks_spec(m, idx),
        Expr::Int(_) => false,
        Expr::Real(_) => false,
        Expr::Un(_, r) => check_spec(m, *r),
        Expr::Bin(_, l, r) => check_spec(m, *l) || check_spec(m, *r),
        Expr::Paren(x) => check_spec(m, *x),
    }
}

/// Whether some expression of `s` mentions a mapped loop variable.
pub open spec fn checks_spec(m: Seq<(Seq<char>, Expr, Expr)>, s: Seq<Expr>) -> bool
    decreases s,
{
    if s.len() == 0 {
        false
    } else {
        checks_spec(m, s.drop_last()) || check_spec(m, s.last())
    }
}

/// `e` with each mapped loop variable replaced by its lower (or upper)
/// bound; a bound is itself rewritten with the loops mapped before its own.
/// With `replacing` set, a result that is an operation is put in
/// parentheses. The emitter rewrites a whole index with `replacing` set, so
/// the substituted index `i+2` over `lb..ub` reads `(lb+2):(ub+2)`, while a
/// bare `i` reads `lb:ub`; a bound that is an operation is parenthesized
/// where it replaces the variable.
pub open spec fn build_spec(m: Seq<(Seq<char>, Expr, Expr)>, e: Expr, upper: bool, replacing: bool) -> Expr
    decreases m.len(), e,
{
    match e {
        Expr::Var(n, idx) => match lookup_bounds(m, n) {
            Some(k) => if 0 <= k < m.len() {
                build_spec(m.take(k), if upper { m[k].2 } else { m[k].1 }, upper, true)
            } else {
                e
            },
            None => Expr::Var(n, builds_spec(m, idx, upper)),
        },
        Expr::Int(_) => e,
        Expr::Real(_) => e,
        Expr::Bin(op, l, r) => {
            let b = Expr::Bin(op, Box::new(build_spec(m, *l, upper, false)), Box::new(build_spec(m, *r, upper, false)));
            if replacing { Expr::Paren(Box::new(b)) } else { b }
        },
        Expr::Un(op, r) => {
            let u = Expr::Un(op, Box::new(build_spec(m, *r, upper, false)));
            if replacing { Expr::Paren(Box::new(u)) } else { u }
        },
        Expr::Paren(x) => Expr::Paren(Box::new(build_spec(m, *x, upper, false))),
    }
}

pub open spec fn builds_spec(m: Seq<(Seq<char>, Expr, Expr)>, s: Seq<Expr>, upper: bool) -> Seq<Expr>
    decreases m.len(), s,
{
    if s.len() == 0 {
        seq![]
    } else {
        builds_spec(m, s.drop_last(), upper).push(build_spec(m, s.last(), upper, false))
    }
}

proof fn lemma_builds_push(m: Seq<(Seq<char>, Expr, Expr)>, s: Seq<Expr>, e: Expr, upper: bool)
    ensures
        builds_spec(m, s.push(e), upper) == builds_spec(m, s, upper).push(build_spec(m, e, upper, false)),
{
    assert(s.push(e).drop_last() =~= s);
}

proof fn lemma_lookup_bounds(m: Seq<(Seq<char>, Expr, Expr)>, name: Seq<char>)
    ensures
        lookup_bounds(m, name) matches Some(k) ==> 0 <= k < m.len() && m[k].0 == name,
    decreases m.len(),
{
    if m.len() > 0 {
        lemma_lookup_bounds(m.drop_last(), name);
    }
}

fn find_bounds(m: &Vec<LoopBounds>, name: &String) -> (r: Option<usize>)
    ensures
        match r {
            Some(k) => lookup_bounds(bounds_model(m@), name@) == Some(k as int),
            None => lookup_bounds(bounds_model(m@), name@) is None,
        },
        r matches Some(k) ==> k < m@.len(),
{
    let ghost bm = bounds_model(m@);
    let mut i: usize = m.len();
    proof {
        assert(bm.take(i as int) =~= bm);
    }
    while i > 0
        invariant
            i <= m@.len(),
            bm == bounds_model(m@),
            lookup_bounds(bm, name@) == lookup_bounds(bm.take(i as int), name@),
        decreases i,
    {
        proof {
            assert(bm.take(i as int).drop_last() =~= bm.take(i as int - 1));
        }
        if m[i - 1].var == *name {
            proof {
                assert(bm.take(i as int).last() == bm[i - 1]);
            }
            return Some(i - 1);
        }
        i = i - 1;
    }
    None
}

/// Whether the index expression mentions a mapped loop variable (see
/// `check_spec`).
pub fn check_expr(m: &Vec<LoopBounds>, e: &Expression) -> (r: bool)
    ensures
        r == check_spec(bounds_model(m@), e@),
    decreases e,
{
    match e {
        Expression::Variable(v) => find_bounds(m, &v.name).is_some() || check_indices(m, v),
        Expression::Integer(_) => false,
        Expression::Real(_) => false,
        Expression::UnOp(u) => check_expr(m, &u.right),
        Expression::BinOp(b) => check_expr(m, &b.left) || check_expr(m, &b.right),
        Expression::Expression(x) => check_expr(m, x),
    }
}

fn check_indices(m: &Vec<LoopBounds>, v: &Variable) -> (r: bool)
    ensures
        r == checks_spec(bounds_model(m@), exprs_model(v.indices@)),
    decreases v,
{
    let ghost bm = bounds_model(m@);
    let ghost im = exprs_model(v.indices@);
    proof {
        lemma_exprs_model(v.indices@);
        assert(im.take(0) =~= seq![]);
    }
    let mut i: usize = 0;
    while i < v.indices.len()
        invariant
            i <= v.indices@.len(),
            bm == bounds_model(m@),
            im == exprs_model(v.indices@),
            im.len() == v.indices@.len(),
            forall|k: int| 0 <= k < v.indices@.len() ==> #[trigger] im[k] == expr_model(v.indices@[k]),
            !checks_spec(bm, im.take(i as int)),
        decreases v.indices.len() - i,
    {
        proof {
            assert(im.take(i as int + 1).drop_last() =~= im.take(i as int));
        }
        if check_expr(m, &v.indices[i]) {
            proof {
                lemma_checks_prefix(bm, im, (i + 1) as nat);
            }
            return true;
        }
        i = i + 1;
    }
    assert(im.take(i as int) =~= im);
    false
}

proof fn lemma_checks_prefix(m: Seq<(Seq<char>, Expr, Expr)>, s: Seq<Expr>, k: nat)
    requires
        k <= s.len(),
        checks_spec(m, s.take(k as int)),
    ensures
        checks_spec(m, s),
    decreases s.len(),
{
    if k < s.len() {
        assert(s.drop_last().take(k as int) =~= s.take(k as int));
        lemma_checks_prefix(m, s.drop_last(), k);
    } else {
        assert(s.take(k as int) =~= s);
    }
}

fn prefix_bounds(m: &Vec<LoopBounds>, k: usize) -> (r: Vec<LoopBounds>)
    requires
        k <= m@.len(),
    ensures
        bounds_model(r@) == bounds_model(m@).take(k as int),
        r@.len() == k,
{
    let mut r: Vec<LoopBounds> = Vec::new();
    let mut i: usize = 0;
    while i < k
        invariant
            i <= k <= m@.len(),
            bounds_model(r@) == bounds_model(m@).take(i as int),
            r@.len() == i,
        decreases k - i,
    {
        let b = LoopBounds { var: m[i].var.clone(), lower: clone_expr(&m[i].lower), upper: clone_expr(&m[i].upper) };
        let ghost old_r = r@;
        r.push(b);
        proof {
            assert(bounds_model(r@) =~= bounds_model(old_r).push((b.var@, b.lower@, b.upper@)));
            assert(bounds_model(m@).take(i as int + 1) =~= bounds_model(m@).take(i as int).push(bounds_model(m@)[i as int]));
        }
        i = i + 1;
    }
    r
}

/// `e` with the mapped loop variables replaced by their bounds (see
/// `build_spec`).
pub fn build_expr(m: &Vec<LoopBounds>, e: &Expression, upper: bool, replacing: bool) -> (r: Expression)
    ensures
        r@ == build_spec(bounds_model(m@), e@, upper, replacing),
    decreases m@.len(), e,
{
    match e {
        Expression::Variable(v) => {
            match find_bounds(m, &v.name) {
                Some(k) => {
                    proof {
                        lemma_lookup_bounds(bounds_model(m@), v.name@);
                    }
                    let pre = prefix_bounds(m, k);
                    assert(bounds_model(m@)[k as int] == (m@[k as int].var@, m@[k as int].lower@, m@[k as int].upper@));
                    let ghost bm = bounds_model(m@);
                    let r = if upper {
                        build_expr(&pre, &m[k].upper, upper, true)
                    } else {
                        build_expr(&pre, &m[k].lower, upper, true)
                    };
                    assert(e@ == Expr::Var(v.name@, exprs_model(v.indices@)));
                    r
                },
                None => {
                    let bv = build_variable(m, v, upper);
                    let r = Expression::Variable(bv);
                    assert(e@ == Expr::Var(v.name@, exprs_model(v.indices@)));
                    assert(r@ == Expr::Var(bv.name@, exprs_model(bv.indices@)));
                    r
                },

            }
        },
        Expression::Integer(i) => Expression::Integer(*i),
        Expression::Real(t) => Expression::Real(t.clone()),
        Expression::BinOp(b) => {
            let l = build_expr(m, &b.left, upper, false);
            let r = build_expr(m, &b.right, upper, false);
            let n = Expression::BinOp(Box::new(BinOp { op: b.op, left: l, right: r }));
            assert(n@ == Expr::Bin(b.op, Box::new(l@), Box::new(r@)));
            if replacing {
                let p = Expression::Expression(Box::new(n));
                assert(p@ == Expr::Paren(Box::new(n@)));
                p
            } else {
                n
            }
        },
        Expression::UnOp(u) => {
            let r = build_expr(m, &u.right, upper, false);
            let n = Expression::UnOp(Box::new(UnOp { op: u.op, right: r }));
            assert(n@ == Expr::Un(u.op, Box::new(r@)));
            if replacing {
                let p = Expression::Expression(Box::new(n));
                assert(p@ == Expr::Paren(Box::new(n@)));
                p
            } else {
                n
            }
        },
        Expression::Expression(x) => {
            Expression::Expression(Box::new(build_expr(m, x, upper, false)))
        },
    }
}

fn build_variable(m: &Vec<LoopBounds>, v: &Variable, upper: bool) -> (r: Variable)
    ensures
        r.name@ == v.name@,
        exprs_model(r.indices@) == builds_spec(bounds_model(m@), exprs_model(v.indices@), upper),
    decreases m@.len(), v,
{
    let mut indices: Vec<Expression> = Vec::new();
    let mut i: usize = 0;
    let ghost bm = bounds_model(m@);
    let ghost im = exprs_model(v.indices@);
    proof {
        lemma_exprs_model(v.indices@);
        assert(im.take(0) =~= seq![]);
    }
    while i < v.indices.len()
        invariant
            i <= v.indices@.len(),
            bm == bounds_model(m@),
            im == exprs_model(v.indices@),
            im.len() == v.indices@.len(),
            forall|k: int| 0 <= k < v.indices@.len() ==> #[trigger] im[k] == expr_model(v.indices@[k]),
            exprs_model(indices@) == builds_spec(bm, im.take(i as int), upper),
        decreases v.indices.len() - i,
    {
        let b = build_expr(m, &v.indices[i], upper, false);
        proof {
            lemma_exprs_model_push(indices@, b);
            assert(im.take(i as int + 1) =~= im.take(i as int).push(im[i as int]));
            lemma_builds_push(bm, im.take(i as int), im[i as int], upper);
        }
        indices.push(b);
        i = i + 1;
    }
    proof {
        assert(im.take(i as int) =~= im);
    }
    Variable { name: v.name.clone(), indices }
}

} // verus!

verus! {

fn truth_of(b: bool) -> (r: i32)
    ensures
        r == truth(b),
{
    if b { 1 } else { 0 }
}

fn fold_int_binop(op: OpType, a: i32, b: i32) -> (r: Option<i32>)
    ensures
        r == int_binop(op, a, b),
{
    match op {
        OpType::Plus => Some(a.wrapping_add(b)),
        OpType::Minus => Some(a.wrapping_sub(b)),
        OpType::Mul => Some(a.wrapping_mul(b)),
        OpType::Div => a.checked_div(b),
        OpType::Equal => Some(truth_of(a == b)),
        OpType::NotEqual => Some(truth_of(a != b)),
        OpType::Greater => Some(truth_of(a > b)),
        OpType::GreaterEqual => Some(truth_of(a >= b)),
        OpType::Lower => Some(truth_of(a < b)),
        OpType::LowerEqual => Some(truth_of(a <= b)),
        OpType::And => Some(truth_of(a != 0 && b != 0)),
        OpType::Or => Some(truth_of(a != 0 || b != 0)),
        OpType::Not => Some(truth_of(b == 0)),
    }
}

fn fold_int_unop(op: OpType, a: i32) -> (r: i32)
    ensures
        r == int_unop(op, a),
{
    match op {
        OpType::Plus | OpType::Mul | OpType::Div => a,
        OpType::Minus => 0i32.wrapping_sub(a),
        OpType::Equal | OpType::GreaterEqual | OpType::LowerEqual => 1,
        OpType::NotEqual | OpType::Greater | OpType::Lower => 0,
        OpType::And | OpType::Or => truth_of(a != 0),
        OpType::Not => truth_of(a == 0),
    }
}

/// Bottom-up constant folding (see `fold_spec`): operations on integer
/// literals are computed, parentheses around a literal are dropped.
pub fn fold_expr(e: &Expression) -> (r: Expression)
    ensures
        r@ == fold_spec(e@),
    decreases e,
{
    match e {
        Expression::Variable(v) => {
            let fv = fold_variable(v);
            let r = Expression::Variable(fv);
            assert(r@ == Expr::Var(fv.name@, exprs_model(fv.indices@)));
            r
        },
        Expression::Integer(i) => Expression::Integer(*i),
        Expression::Real(t) => Expression::Real(t.clone()),
        Expression::BinOp(b) => {
            let left = fold_expr(&b.left);
            let right = fold_expr(&b.right);
            assert(e@ == Expr::Bin(b.op, Box::new(b.left@), Box::new(b.right@)));
            let folded = match (&left, &right) {
                (Expression::Integer(x), Expression::Integer(y)) => fold_int_binop(b.op, *x, *y),
                _ => None,
            };
            match folded {
                Some(v) => Expression::Integer(v),
                None => {
                    let r = Expression::BinOp(Box::new(BinOp { op: b.op, left, right }));
                    assert(r@ == Expr::Bin(b.op, Box::new(left@), Box::new(right@)));
                    r
                },
            }
        },
        Expression::UnOp(u) => {
            let right = fold_expr(&u.right);
            assert(e@ == Expr::Un(u.op, Box::new(u.right@)));
            match right {
                Expression::Integer(x) => Expression::Integer(fold_int_unop(u.op, x)),
                _ => {
                    let ghost rm = right@;
                    let r = Expression::UnOp(Box::new(UnOp { op: u.op, right }));
                    assert(r@ == Expr::Un(u.op, Box::new(rm)));
                    r
                },
            }
        },
        Expression::Expression(x) => {
            let f = fold_expr(x);
            assert(e@ == Expr::Paren(Box::new(expr_model(**x))));
            match f {
                Expression::Integer(_) | Expression::Real(_) => f,
                _ => {
                    let ghost fm = f@;
                    let r = Expression::Expression(Box::new(f));
                    assert(r@ == Expr::Paren(Box::new(fm)));
                    r
                },
            }
        },
    }
}

fn fold_variable(v: &Variable) -> (r: Variable)
    ensures
        r.name@ == v.name@,
        exprs_model(r.indices@) == folds_spec(exprs_model(v.indices@)),
    decreases v,
{
    let mut indices: Vec<Expression> = Vec::new();
    let mut i: usize = 0;
    let ghost im = exprs_model(v.indices@);
    proof {
        lemma_exprs_model(v.indices@);
        assert(im.take(0) =~= seq![]);
    }
    while i < v.indices.len()
        invariant
            i <= v.indices@.len(),
            im == exprs_model(v.indices@),
            im.len() == v.indices@.len(),
            forall|k: int| 0 <= k < v.indices@.len() ==> #[trigger] im[k] == expr_model(v.indices@[k]),
            exprs_model(indices@) == folds_spec(im.take(i as int)),
        decreases v.indices.len() - i,
    {
        let b = fold_expr(&v.indices[i]);
        proof {
            lemma_exprs_model_push(indices@, b);
            assert(im.take(i as int + 1) =~= im.take(i as int).push(im[i as int]));
            lemma_folds_push(im.take(i as int), im[i as int]);
        }
        indices.push(b);
        i = i + 1;
    }
    proof {
        assert(im.take(i as int) =~= im);
    }
    Variable { name: v.name.clone(), indices }
}

} // verus!

verus! {

/// Text of an operator in the target language.
pub open spec fn op_text(op: OpType) -> Seq<char> {
    match op {
        OpType::Plus => "+"@,
        OpType::Minus => "-"@,
        OpType::Mul => "*"@,
        OpType::Div => "/"@,
        OpType::Equal => " == "@,
        OpType::NotEqual => " /= "@,
        OpType::Greater => " > "@,
        OpType::GreaterEqual => " >= "@,
        OpType::Lower => " < "@,
        OpType::LowerEqual => " <= "@,
        OpType::And => " .and. "@,
        OpType::Or => " .or. "@,
        OpType::Not => " .not. "@,
    }
}

pub open spec fn maybe_fold(folding: bool, e: Expr) -> Expr {
    if folding { fold_spec(e) } else { e }
}

/// Text of an expression. Each index expression that mentions a variable of
/// the loop map `m` is written as `lower:upper`: the expression with its
/// loop variables replaced by their lower (upper) bounds, parenthesized when
/// it is an operation (see `build_spec`), and folded when `folding` is set;
/// other text is written as it is.
pub open spec fn expr_text(m: Seq<(Seq<char>, Expr, Expr)>, folding: bool, e: Expr) -> Seq<char>
    decreases m.len(), e,
{
    match e {
        Expr::Int(i) => int_text(i as int),
        Expr::Real(t) => t,
        Expr::Var(n, idx) => if idx.len() == 0 {
            n
        } else {
            n + "("@ + indices_text(m, folding, idx) + ")"@
        },
        Expr::Bin(op, l, r) => expr_text(m, folding, *l) + op_text(op) + expr_text(m, folding, *r),
        Expr::Un(op, r) => op_text(op) + expr_text(m, folding, *r),
        Expr::Paren(x) => "("@ + expr_text(m, folding, *x) + ")"@,
    }
}

/// Text of a list of index expressions, separated by commas.
pub open spec fn indices_text(m: Seq<(Seq<char>, Expr, Expr)>, folding: bool, s: Seq<Expr>) -> Seq<char>
    decreases m.len(), s,
{
    if s.len() == 0 {
        seq![]
    } else {
        let prev = indices_text(m, folding, s.drop_last());
        let sep = if s.len() > 1 { ","@ } else { seq![] };
        let e = s.last();
        let t = if m.len() > 0 && check_spec(m, e) {
            expr_text(seq![], false, maybe_fold(folding, build_spec(m, e, false, true))) + ":"@
                + expr_text(seq![], false, maybe_fold(folding, build_spec(m, e, true, true)))
        } else {
            expr_text(m, folding, e)
        };
        prev + sep + t
    }
}

fn op_str(op: OpType) -> (r: &'static str)
    ensures
        r@ == op_text(op),
{
    match op {
        OpType::Plus => "+",
        OpType::Minus => "-",
        OpType::Mul => "*",
        OpType::Div => "/",
        OpType::Equal => " == ",
        OpType::NotEqual => " /= ",
        OpType::Greater => " > ",
        OpType::GreaterEqual => " >= ",
        OpType::Lower => " < ",
        OpType::LowerEqual => " <= ",
        OpType::And => " .and. ",
        OpType::Or => " .or. ",
        OpType::Not => " .not. ",
    }
}

/// Appends the text of an expression (see `expr_text`).
pub fn generate_expression(m: &Vec<LoopBounds>, folding: bool, out: &mut String, e: &Expression)
    ensures
        final(out)@ == old(out)@ + expr_text(bounds_model(m@), folding, e@),
    decreases m@.len(), e,
{
    let ghost bm = bounds_model(m@);
    match e {
        Expression::Integer(i) => push_int(out, *i),
        Expression::Real(t) => out.append(t.as_str()),
        Expression::Variable(v) => {
            write_variable(m, folding, out, v);
            assert(e@ == Expr::Var(v.name@, exprs_model(v.indices@)));
        },
        Expression::BinOp(b) => {
            generate_expression(m, folding, out, &b.left);
            out.append(op_str(b.op));
            generate_expression(m, folding, out, &b.right);
            assert(e@ == Expr::Bin(b.op, Box::new(b.left@), Box::new(b.right@)));
            assert(final(out)@ =~= old(out)@ + expr_text(bm, folding, e@));
        },
        Expression::UnOp(u) => {
            out.append(op_str(u.op));
            generate_expression(m, folding, out, &u.right);
            assert(e@ == Expr::Un(u.op, Box::new(u.right@)));
            assert(final(out)@ =~= old(out)@ + expr_text(bm, folding, e@));
        },
        Expression::Expression(x) => {
            out.append("(");
            generate_expression(m, folding, out, x);
            out.append(")");
            assert(e@ == Expr::Paren(Box::new(expr_model(**x))));
            assert(final(out)@ =~= old(out)@ + expr_text(bm, folding, e@));
        },
    }
}

/// Appends a variable reference: its name and, if any, its indices in
/// parentheses.
pub fn write_variable(m: &Vec<LoopBounds>, folding: bool, out: &mut String, v: &Variable)
    ensures
        final(out)@ == old(out)@ + expr_text(bounds_model(m@), folding, Expr::Var(v.name@, exprs_model(v.indices@))),
    decreases m@.len(), v,
{
    let ghost bm = bounds_model(m@);
    let ghost im = exprs_model(v.indices@);
    proof {
        lemma_exprs_model(v.indices@);
    }
    out.append(v.name.as_str());
    if v.indices.len() == 0 {
        assert(im =~= seq![]);
        return;
    }
    out.append("(");
    let ghost start = out@;
    let empty: Vec<LoopBounds> = Vec::new();
    assert(bounds_model(empty@) =~= seq![]);
    let mut i: usize = 0;
    assert(im.take(0) =~= seq![]);
    while i < v.indices.len()
        invariant
            i <= v.indices@.len(),
            bm == bounds_model(m@),
            bounds_model(empty@) == Seq::<(Seq<char>, Expr, Expr)>::empty(),
            empty@.len() == 0,
            im == exprs_model(v.indices@),
            im.len() == v.indices@.len(),
            forall|k: int| 0 <= k < v.indices@.len() ==> #[trigger] im[k] == expr_model(v.indices@[k]),
            out@ == start + indices_text(bm, folding, im.take(i as int)),
        decreases v.indices.len() - i,
    {
        let ghost before = out@;
        if i > 0 {
            out.append(",");
        }
        let idx = &v.indices[i];
        if m.len() > 0 && check_expr(m, idx) {
            let lo = build_expr(m, idx, false, true);
            let lo = if folding { fold_expr(&lo) } else { lo };
            generate_expression(&empty, false, out, &lo);
            out.append(":");
            let hi = build_expr(m, idx, true, true);
            let hi = if folding { fold_expr(&hi) } else { hi };
            generate_expression(&empty, false, out, &hi);
        } else {
            generate_expression(m, folding, out, idx);
        }
        proof {
            let s1 = im.take(i as int + 1);
            assert(s1.drop_last() =~= im.take(i as int));
            assert(s1.last() == im[i as int]);
            assert(out@ =~= start + indices_text(bm, folding, s1));
        }
        i = i + 1;
    }
    out.append(")");
    proof {
        assert(im.take(i as int) =~= im);
        assert(final(out)@ =~= old(out)@ + expr_text(bm, folding, Expr::Var(v.name@, im)));
    }
}

} // verus!
