//! Reading the textual IR: whitespace-separated tagged tokens, read by
//! recursive descent.
//!
//! ```text
//! ast      := NAME def* stmtlist
//! def      := NAME (FLOAT|INT) (n dim{n})?        dim := lb ub
//! stmtlist := STMTLIST stmt* /STMTLIST
//! stmt     := ASSIGN @ label var expr
//!           | FOR @ label ENTRY NAME expr expr stmtlist
//!           | FOR @ label expr stmtlist stmtlist
//! var      := VAR ENTRY NAME (EXPRLIST expr+ /EXPRLIST)?
//! expr     := EXPR (FLOAT real | INT int | BINOP op expr expr | UNOP op expr | var | expr)
//! ```
use vstd::prelude::*;
use crate::ir::{Ast, Def, Definition, DefinitionType, Expr, Expression, OpType, Program, Statement, Stmt};
use crate::lex::{is_digit, nat_token, tokens};

verus! {

pub open spec fn at(ts: Seq<Seq<char>>, p: nat, lit: Seq<char>) -> bool {
    p < ts.len() && ts[p as int] == lit
}

/// The operator a token names.
pub open spec fn op_of(t: Seq<char>) -> Option<OpType> {
    if t == "+"@ { Some(OpType::Plus) }
    else if t == "-"@ { Some(OpType::Minus) }
    else if t == "*"@ { Some(OpType::Mul) }
    else if t == "/"@ { Some(OpType::Div) }
    else if t == "=="@ { Some(OpType::Equal) }
    else if t == "<>"@ { Some(OpType::NotEqual) }
    else if t == ">"@ { Some(OpType::Greater) }
    else if t == ">="@ { Some(OpType::GreaterEqual) }
    else if t == "<"@ { Some(OpType::Lower) }
    else if t == "<="@ { Some(OpType::LowerEqual) }
    else if t == ".and."@ { Some(OpType::And) }
    else if t == ".or."@ { Some(OpType::Or) }
    else if t == ".not."@ { Some(OpType::Not) }
    else { None }
}

pub open spec fn real_char(c: char) -> bool {
    is_digit(c) || c == '.' || c == '+' || c == '-' || c == 'e' || c == 'E'
}

/// A real literal: digits, sign, point and exponent characters, with at
/// least one digit.
pub open spec fn is_real_token(t: Seq<char>) -> bool {
    &&& forall|i: int| 0 <= i < t.len() ==> real_char(#[trigger] t[i])
    &&& exists|i: int| 0 <= i < t.len() && is_digit(#[trigger] t[i])
}

pub open spec fn tok_nat(ts: Seq<Seq<char>>, p: nat) -> Option<i32> {
    if p < ts.len() { nat_token(ts[p as int]) } else { None }
}

/// An expression starting at `p`, with the position after it.
pub open spec fn p_expr(ts: Seq<Seq<char>>, p: nat) -> Option<(Expr, nat)>
    decreases ts.len() - p, 0nat,
{
    if !at(ts, p, "EXPR"@) {
        None
    } else {
        let q = p + 1;
        if at(ts, q, "FLOAT"@) {
            if q + 1 < ts.len() && is_real_token(ts[(q + 1) as int]) { Some((Expr::Real(ts[(q + 1) as int]), q + 2)) } else { None }
        } else if at(ts, q, "INT"@) {
            match tok_nat(ts, q + 1) {
                Some(v) => Some((Expr::Int(v), q + 2)),
                None => None,
            }
        } else if at(ts, q, "BINOP"@) || at(ts, q, "UNOP"@) {
            let op = if q + 1 < ts.len() { op_of(ts[(q + 1) as int]) } else { None };
            match op {
                None => None,
                Some(op) => match p_expr(ts, q + 2) {
                    None => None,
                    Some((a, r1)) => if at(ts, q, "UNOP"@) {
                        Some((Expr::Un(op, Box::new(a)), r1))
                    } else if r1 > q + 2 && r1 <= ts.len() {
                        match p_expr(ts, r1) {
                            None => None,
                            Some((b, r2)) => Some((Expr::Bin(op, Box::new(a), Box::new(b)), r2)),
                        }
                    } else {
                        None
                    },
                },
            }
        } else if at(ts, q, "VAR"@) {
            match p_var(ts, q) {
                Some((n, idx, r)) => Some((Expr::Var(n, idx), r)),
                None => None,
            }
        } else {
            match p_expr(ts, q) {
                Some((x, r)) => Some((Expr::Paren(Box::new(x)), r)),
                None => None,
            }
        }
    }
}

/// As many expressions as follow `p`.
pub open spec fn p_exprs(ts: Seq<Seq<char>>, p: nat) -> (Seq<Expr>, nat)
    decreases ts.len() - p, 1nat,
{
    match p_expr(ts, p) {
        None => (seq![], p),
        Some((e, r)) => if r > p && r <= ts.len() {
            let (rest, r2) = p_exprs(ts, r);
            (seq![e] + rest, r2)
        } else {
            (seq![], p)
        },
    }
}

/// A variable reference at `p` (which holds `VAR`): name, indices, and the
/// position after it.
pub open spec fn p_var(ts: Seq<Seq<char>>, p: nat) -> Option<(Seq<char>, Seq<Expr>, nat)>
    decreases ts.len() - p, 2nat,
{
    if !(at(ts, p, "VAR"@) && at(ts, p + 1, "ENTRY"@) && p + 2 < ts.len()) {
        None
    } else {
        let name = ts[(p + 2) as int];
        if at(ts, p + 3, "EXPRLIST"@) {
            let (idx, r) = p_exprs(ts, p + 4);
            if idx.len() > 0 && at(ts, r, "/EXPRLIST"@) {
                Some((name, idx, r + 1))
            } else {
                Some((name, seq![], p + 3))
            }
        } else {
            Some((name, seq![], p + 3))
        }
    }
}

/// A statement starting at `p`, with the position after it.
pub open spec fn p_stmt(ts: Seq<Seq<char>>, p: nat) -> Option<(Stmt, nat)>
    decreases ts.len() - p, 0nat,
{
    if !(at(ts, p + 1, "@"@) && tok_nat(ts, p + 2) is Some) {
        None
    } else {
        let label = tok_nat(ts, p + 2)->0;
        if at(ts, p, "ASSIGN"@) {
            match p_var(ts, p + 3) {
                None => None,
                Some((n, idx, r)) => match p_expr(ts, r) {
                    None => None,
                    Some((e, r2)) => Some((Stmt::Assign(label, n, idx, e), r2)),
                },
            }
        } else if at(ts, p, "FOR"@) {
            if at(ts, p + 3, "ENTRY"@) && p + 4 < ts.len() {
                match p_expr(ts, p + 5) {
                    None => None,
                    Some((lo, r1)) => match p_expr(ts, r1) {
                        None => None,
                        Some((hi, r2)) => if r2 > p && r2 <= ts.len() {
                            match p_stmtlist(ts, r2) {
                                None => None,
                                Some((body, r3)) => Some((Stmt::Loop(label, ts[(p + 4) as int], lo, hi, body), r3)),
                            }
                        } else {
                            None
                        },
                    },
                }
            } else {
                match p_expr(ts, p + 3) {
                    None => None,
                    Some((c, r1)) => if r1 > p && r1 <= ts.len() {
                        match p_stmtlist(ts, r1) {
                            None => None,
                            Some((t, r2)) => if r2 > p && r2 <= ts.len() {
                                match p_stmtlist(ts, r2) {
                                    None => None,
                                    Some((e, r3)) => Some((Stmt::If(label, c, t, e), r3)),
                                }
                            } else {
                                None
                            },
                        }
                    } else {
                        None
                    },
                }
            }
        } else {
            None
        }
    }
}

/// As many statements as follow `p`.
pub open spec fn p_stmts(ts: Seq<Seq<char>>, p: nat) -> (Seq<Stmt>, nat)
    decreases ts.len() - p, 1nat,
{
    match p_stmt(ts, p) {
        None => (seq![], p),
        Some((s, r)) => if r > p && r <= ts.len() {
            let (rest, r2) = p_stmts(ts, r);
            (seq![s] + rest, r2)
        } else {
            (seq![], p)
        },
    }
}

/// A statement list at `p`, with the position after it.
pub open spec fn p_stmtlist(ts: Seq<Seq<char>>, p: nat) -> Option<(Seq<Stmt>, nat)>
    decreases ts.len() - p, 2nat,
{
    if !at(ts, p, "STMTLIST"@) {
        None
    } else {
        let (ss, r) = p_stmts(ts, p + 1);
        if at(ts, r, "/STMTLIST"@) { Some((ss, r + 1)) } else { None }
    }
}

pub open spec fn dtype_of(t: Seq<char>) -> Option<DefinitionType> {
    if t == "FLOAT"@ { Some(DefinitionType::Real) } else if t == "INT"@ { Some(DefinitionType::Integer) } else { None }
}

/// `n` dimension pairs from `p` on.
pub open spec fn p_dims(ts: Seq<Seq<char>>, p: nat, n: nat) -> Option<Seq<(i32, i32)>>
    decreases n,
{
    if n == 0 {
        Some(seq![])
    } else {
        match (p_dims(ts, p, (n - 1) as nat), tok_nat(ts, (p + 2 * (n - 1)) as nat), tok_nat(ts, (p + 2 * (n - 1) + 1) as nat)) {
            (Some(d), Some(lb), Some(ub)) => Some(d.push((lb, ub))),
            _ => None,
        }
    }
}

/// A declaration at `p`: an array one where the count and the pairs are
/// there, else a scalar one.
pub open spec fn p_def(ts: Seq<Seq<char>>, p: nat) -> Option<(Def, nat)> {
    if !(p + 1 < ts.len() && dtype_of(ts[(p + 1) as int]) is Some) {
        None
    } else {
        let dtype = dtype_of(ts[(p + 1) as int])->0;
        let scalar = Some((Def { name: ts[p as int], dims: seq![], dtype }, p + 2));
        match tok_nat(ts, p + 2) {
            None => scalar,
            Some(n) => match p_dims(ts, p + 3, n as nat) {
                Some(d) => Some((Def { name: ts[p as int], dims: d, dtype }, (p + 3 + 2 * n) as nat)),
                None => scalar,
            },
        }
    }
}

/// As many declarations as follow `p`.
pub open spec fn p_defs(ts: Seq<Seq<char>>, p: nat) -> (Seq<Def>, nat)
    decreases ts.len() - p,
{
    match p_def(ts, p) {
        None => (seq![], p),
        Some((d, r)) => if r > p && r <= ts.len() {
            let (rest, r2) = p_defs(ts, r);
            (seq![d] + rest, r2)
        } else {
            (seq![], p)
        },
    }
}

/// The program that a token sequence starts with: a name, declarations and
/// a statement list (what follows is not read).
pub open spec fn p_program(ts: Seq<Seq<char>>) -> Option<Program> {
    if ts.len() == 0 {
        None
    } else {
        let (defs, r) = p_defs(ts, 1);
        match p_stmtlist(ts, r) {
            Some((ss, _)) => Some(Program { name: ts[0], defs, stmts: ss }),
            None => None,
        }
    }
}

/// Where reading a statement list at `p` stops: at `p` when no list opens
/// there, else after the statements that could be read.
pub open spec fn stmtlist_stop(ts: Seq<Seq<char>>, p: nat) -> nat {
    if !at(ts, p, "STMTLIST"@) { p } else { p_stmts(ts, p + 1).1 }
}

/// Where reading a text that is no program stops (see `ParseError`).
pub open spec fn program_error(s: Seq<char>) -> nat {
    if !vstd::utf8::is_ascii_chars(s) || tokens(s).len() == 0 {
        0
    } else {
        stmtlist_stop(tokens(s), p_defs(tokens(s), 1).1)
    }
}

/// The program that a text holds, if it is ASCII and reads as one.
pub open spec fn program_spec(s: Seq<char>) -> Option<Program> {
    if vstd::utf8::is_ascii_chars(s) { p_program(tokens(s)) } else { None }
}

} // verus!

verus! {

pub open spec fn tm(ts: Seq<String>) -> Seq<Seq<char>> {
    crate::lex::strings_model(ts)
}

/// A text that does not read as a program: `token` is the index of the
/// token where reading stopped, the start of the unread remainder (0 for a
/// text that is empty or not ASCII).
#[derive(PartialEq, Eq, Structural, Clone, Copy, Debug)]
pub struct ParseError {
    pub token: usize,
}

fn is_at(ts: &Vec<String>, p: usize, lit: &str) -> (r: bool)
    ensures
        r == at(tm(ts@), p as nat, lit@),
        r ==> p < ts@.len(),
{
    if p < ts.len() {
        let l = String::from_str(lit);
        ts[p] == l
    } else {
        false
    }
}

fn nat_at(ts: &Vec<String>, p: usize) -> (r: Option<i32>)
    ensures
        r == tok_nat(tm(ts@), p as nat),
        r matches Some(v) ==> v >= 0 && p < ts@.len(),
{
    if p < ts.len() {
        proof {
            if nat_token(tm(ts@)[p as int]) is Some {
                crate::lex::lemma_dec_value_nonneg(tm(ts@)[p as int]);
            }
        }
        crate::lex::parse_nat(ts[p].as_str())
    } else {
        None
    }
}

fn op_at(ts: &Vec<String>, p: usize) -> (r: Option<OpType>)
    ensures
        r == (if p < ts@.len() { op_of(tm(ts@)[p as int]) } else { None }),
{
    if is_at(ts, p, "+") { Some(OpType::Plus) }
    else if is_at(ts, p, "-") { Some(OpType::Minus) }
    else if is_at(ts, p, "*") { Some(OpType::Mul) }
    else if is_at(ts, p, "/") { Some(OpType::Div) }
    else if is_at(ts, p, "==") { Some(OpType::Equal) }
    else if is_at(ts, p, "<>") { Some(OpType::NotEqual) }
    else if is_at(ts, p, ">") { Some(OpType::Greater) }
    else if is_at(ts, p, ">=") { Some(OpType::GreaterEqual) }
    else if is_at(ts, p, "<") { Some(OpType::Lower) }
    else if is_at(ts, p, "<=") { Some(OpType::LowerEqual) }
    else if is_at(ts, p, ".and.") { Some(OpType::And) }
    else if is_at(ts, p, ".or.") { Some(OpType::Or) }
    else if is_at(ts, p, ".not.") { Some(OpType::Not) }
    else { None }
}

fn real_ok(t: &str) -> (r: bool)
    ensures
        r == is_real_token(t@),
{
    if !t.is_ascii() {
        proof {
            if is_real_token(t@) {
                assert forall|i: int| 0 <= i < t@.len() implies '\0' <= #[trigger] t@[i] <= '\u{7f}' by {
                    assert(real_char(t@[i]));
                }
            }
        }
        return false;
    }
    let n = t.unicode_len();
    let mut i: usize = 0;
    let mut digit = false;
    while i < n
        invariant
            t.is_ascii(),
            n == t@.len(),
            i <= n,
            forall|k: int| 0 <= k < i ==> real_char(#[trigger] t@[k]),
            digit == exists|k: int| 0 <= k < i && is_digit(#[trigger] t@[k]),
        decreases n - i,
    {
        let b = t.get_ascii(i);
        let ghost c = t@[i as int];
        assert('\0' <= c <= '\u{7f}');
        let d = 48u8 <= b && b <= 57u8;
        if !(d || b == 46u8 || b == 43u8 || b == 45u8 || b == 101u8 || b == 69u8) {
            assert(!real_char(c));
            return false;
        }
        proof {
            assert(d == is_digit(c));
            if d {
                assert(is_digit(t@[i as int]));
            }
            if digit && !d {
                let k = choose|k: int| 0 <= k < i && is_digit(#[trigger] t@[k]);
                assert(0 <= k < i + 1 && is_digit(t@[k]));
            }
        }
        digit = digit || d;
        i = i + 1;
    }
    digit
}

pub open spec fn expr_result(r: Option<(Expression, usize)>, s: Option<(Expr, nat)>) -> bool {
    match r {
        Some((e, q)) => s == Some((e@, q as nat)),
        None => s is None,
    }
}

/// Reads an expression at `p` (see `p_expr`).
fn parse_expr(ts: &Vec<String>, p: usize) -> (r: Option<(Expression, usize)>)
    requires
        p <= ts@.len(),
    ensures
        expr_result(r, p_expr(tm(ts@), p as nat)),
        r matches Some((_, q)) ==> q <= ts@.len(),
    decreases ts@.len() - p, 0nat,
{
    let _n = ts.len();
    if !is_at(ts, p, "EXPR") {
        return None;
    }
    let q = p + 1;
    if is_at(ts, q, "FLOAT") {
        if q + 1 < ts.len() && real_ok(ts[q + 1].as_str()) {
            return Some((Expression::Real(ts[q + 1].clone()), q + 2));
        }
        return None;
    }
    if is_at(ts, q, "INT") {
        return match nat_at(ts, q + 1) {
            Some(v) => Some((Expression::Integer(v), q + 2)),
            None => None,
        };
    }
    let bin = is_at(ts, q, "BINOP");
    let un = is_at(ts, q, "UNOP");
    if bin || un {
        let op = if q + 1 < ts.len() { op_at(ts, q + 1) } else { None };
        let op = match op {
            None => return None,
            Some(op) => op,
        };
        if q + 2 > ts.len() {
            return None;
        }
        let (a, r1) = match parse_expr(ts, q + 2) {
            None => return None,
            Some(x) => x,
        };
        if un {
            let ghost am = a@;
            let e = Expression::UnOp(Box::new(crate::ir::UnOp { op, right: a }));
            assert(e@ == Expr::Un(op, Box::new(am)));
            return Some((e, r1));
        }
        if !(r1 > q + 2 && r1 <= ts.len()) {
            return None;
        }
        let (b, r2) = match parse_expr(ts, r1) {
            None => return None,
            Some(x) => x,
        };
        let ghost am = a@;
        let ghost bm = b@;
        let e = Expression::BinOp(Box::new(crate::ir::BinOp { op, left: a, right: b }));
        assert(e@ == Expr::Bin(op, Box::new(am), Box::new(bm)));
        return Some((e, r2));
    }
    if is_at(ts, q, "VAR") {
        return match parse_var(ts, q) {
            Some((v, r)) => {
                let e = Expression::Variable(v);
                assert(e@ == Expr::Var(v.name@, crate::ir::exprs_model(v.indices@)));
                Some((e, r))
            },
            None => None,
        };
    }
    match parse_expr(ts, q) {
        Some((x, r)) => {
            let ghost xm = x@;
            let e = Expression::Expression(Box::new(x));
            assert(e@ == Expr::Paren(Box::new(xm)));
            Some((e, r))
        },
        None => None,
    }
}

/// Reads as many expressions as follow `p` (see `p_exprs`).
fn parse_exprs(ts: &Vec<String>, p: usize) -> (r: (Vec<Expression>, usize))
    requires
        p <= ts@.len(),
    ensures
        p_exprs(tm(ts@), p as nat) == (crate::ir::exprs_model(r.0@), r.1 as nat),
        p <= r.1 <= ts@.len(),
    decreases ts@.len() - p, 1nat,
{
    let mut acc: Vec<Expression> = Vec::new();
    let mut cur: usize = p;
    let ghost t = tm(ts@);
    assert(crate::ir::exprs_model(acc@) =~= seq![]);
    loop
        invariant
            p <= cur <= ts@.len(),
            t == tm(ts@),
            p_exprs(t, p as nat) == (crate::ir::exprs_model(acc@) + p_exprs(t, cur as nat).0, p_exprs(t, cur as nat).1),
        decreases ts@.len() - cur,
    {
        match parse_expr(ts, cur) {
            None => {
                assert(crate::ir::exprs_model(acc@) + seq![] =~= crate::ir::exprs_model(acc@));
                return (acc, cur);
            },
            Some((e, r)) => {
                if !(r > cur && r <= ts.len()) {
                    assert(crate::ir::exprs_model(acc@) + seq![] =~= crate::ir::exprs_model(acc@));
                    return (acc, cur);
                }
                let ghost before = crate::ir::exprs_model(acc@);
                let ghost em = e@;
                proof {
                    crate::ir::lemma_exprs_model_push(acc@, e);
                }
                acc.push(e);
                proof {
                    let rest = p_exprs(t, r as nat);
                    assert(p_exprs(t, cur as nat) == (seq![em] + rest.0, rest.1));
                    assert(before + (seq![em] + rest.0) =~= before.push(em) + rest.0);
                }
                cur = r;
            },
        }
    }
}

/// Reads a variable reference at `p` (see `p_var`).
fn parse_var(ts: &Vec<String>, p: usize) -> (r: Option<(crate::ir::Variable, usize)>)
    requires
        p <= ts@.len(),
    ensures
        match r {
            Some((v, q)) => p_var(tm(ts@), p as nat) == Some((v.name@, crate::ir::exprs_model(v.indices@), q as nat)),
            None => p_var(tm(ts@), p as nat) is None,
        },
        r matches Some((_, q)) ==> q <= ts@.len(),
    decreases ts@.len() - p, 2nat,
{
    let _n = ts.len();
    if !(is_at(ts, p, "VAR") && is_at(ts, p + 1, "ENTRY") && p + 2 < ts.len()) {
        return None;
    }
    let name = ts[p + 2].clone();
    if is_at(ts, p + 3, "EXPRLIST") {
        let (idx, r) = parse_exprs(ts, p + 4);
        if idx.len() > 0 && is_at(ts, r, "/EXPRLIST") {
            proof {
                crate::ir::lemma_exprs_model(idx@);
            }
            return Some((crate::ir::Variable { name, indices: idx }, r + 1));
        }
    }
    let v = crate::ir::Variable { name, indices: Vec::new() };
    assert(crate::ir::exprs_model(v.indices@) =~= seq![]);
    Some((v, p + 3))
}

} // verus!

verus! {

/// Reads a statement at `p` (see `p_stmt`).
fn parse_stmt(ts: &Vec<String>, p: usize) -> (r: Option<(Statement, usize)>)
    requires
        p <= ts@.len(),
    ensures
        match r {
            Some((s, q)) => p_stmt(tm(ts@), p as nat) == Some((crate::ir::stmt_model(s), q as nat)) && q <= ts@.len(),
            None => p_stmt(tm(ts@), p as nat) is None,
        },
    decreases ts@.len() - p, 0nat,
{
    let n = ts.len();
    if p >= n || n - p <= 2 || !is_at(ts, p + 1, "@") {
        return None;
    }
    let label = match nat_at(ts, p + 2) {
        None => return None,
        Some(l) => l,
    };
    if is_at(ts, p, "ASSIGN") {
        let (v, r) = match parse_var(ts, p + 3) {
            None => return None,
            Some(x) => x,
        };
        let (e, r2) = match parse_expr(ts, r) {
            None => return None,
            Some(x) => x,
        };
        let s = Statement::Assignment(crate::ir::Assign { label, lhs: v, rhs: e });
        return Some((s, r2));
    }
    if !is_at(ts, p, "FOR") {
        return None;
    }
    if is_at(ts, p + 3, "ENTRY") && p + 4 < n {
        let (lo, r1) = match parse_expr(ts, p + 5) {
            None => return None,
            Some(x) => x,
        };
        let (hi, r2) = match parse_expr(ts, r1) {
            None => return None,
            Some(x) => x,
        };
        if !(r2 > p && r2 <= n) {
            return None;
        }
        let (body, r3) = match parse_stmtlist(ts, r2) {
            None => return None,
            Some(x) => x,
        };
        let s = Statement::Loop(crate::ir::Loop {
            label,
            var: ts[p + 4].clone(),
            lower: lo,
            upper: hi,
            statements: crate::ir::StatementList(body),
        });
        return Some((s, r3));
    }
    let (c, r1) = match parse_expr(ts, p + 3) {
        None => return None,
        Some(x) => x,
    };
    if !(r1 > p && r1 <= n) {
        return None;
    }
    let (t, r2) = match parse_stmtlist(ts, r1) {
        None => return None,
        Some(x) => x,
    };
    if !(r2 > p && r2 <= n) {
        return None;
    }
    let (e, r3) = match parse_stmtlist(ts, r2) {
        None => return None,
        Some(x) => x,
    };
    let s = Statement::If(crate::ir::If {
        label,
        expr: c,
        then_branch: crate::ir::StatementList(t),
        else_branch: crate::ir::StatementList(e),
    });
    Some((s, r3))
}

/// Reads as many statements as follow `p` (see `p_stmts`).
fn parse_stmts(ts: &Vec<String>, p: usize) -> (r: (Vec<Statement>, usize))
    requires
        p <= ts@.len(),
    ensures
        p_stmts(tm(ts@), p as nat) == (crate::ir::stmts_model(r.0@), r.1 as nat),
        p <= r.1 <= ts@.len(),
    decreases ts@.len() - p, 1nat,
{
    let mut acc: Vec<Statement> = Vec::new();
    let mut cur: usize = p;
    let ghost t = tm(ts@);
    assert(crate::ir::stmts_model(acc@) =~= seq![]);
    loop
        invariant
            p <= cur <= ts@.len(),
            t == tm(ts@),
            p_stmts(t, p as nat) == (crate::ir::stmts_model(acc@) + p_stmts(t, cur as nat).0, p_stmts(t, cur as nat).1),
        decreases ts@.len() - cur,
    {
        match parse_stmt(ts, cur) {
            None => {
                assert(crate::ir::stmts_model(acc@) + seq![] =~= crate::ir::stmts_model(acc@));
                return (acc, cur);
            },
            Some((s, r)) => {
                if !(r > cur && r <= ts.len()) {
                    assert(crate::ir::stmts_model(acc@) + seq![] =~= crate::ir::stmts_model(acc@));
                    return (acc, cur);
                }
                let ghost before = crate::ir::stmts_model(acc@);
                let ghost sm = crate::ir::stmt_model(s);
                proof {
                    crate::ir::lemma_stmts_model_push(acc@, s);
                }
                acc.push(s);
                proof {
                    let rest = p_stmts(t, r as nat);
                    assert(p_stmts(t, cur as nat) == (seq![sm] + rest.0, rest.1));
                    assert(before + (seq![sm] + rest.0) =~= before.push(sm) + rest.0);
                }
                cur = r;
            },
        }
    }
}

/// Reads a statement list at `p` (see `p_stmtlist`).
fn parse_stmtlist(ts: &Vec<String>, p: usize) -> (r: Option<(Vec<Statement>, usize)>)
    requires
        p <= ts@.len(),
    ensures
        match r {
            Some((v, q)) => p_stmtlist(tm(ts@), p as nat) == Some((crate::ir::stmts_model(v@), q as nat)) && q <= ts@.len(),
            None => p_stmtlist(tm(ts@), p as nat) is None,
        },
    decreases ts@.len() - p, 2nat,
{
    let _n = ts.len();
    if !is_at(ts, p, "STMTLIST") {
        return None;
    }
    let (ss, r) = parse_stmts(ts, p + 1);
    if is_at(ts, r, "/STMTLIST") {
        Some((ss, r + 1))
    } else {
        None
    }
}

fn parse_dims(ts: &Vec<String>, p: usize, count: i32) -> (r: Option<Vec<(i32, i32)>>)
    requires
        count >= 0,
        p <= ts@.len(),
    ensures
        match r {
            Some(d) => p_dims(tm(ts@), p as nat, count as nat) == Some(d@) && p + 2 * count <= ts@.len(),
            None => p_dims(tm(ts@), p as nat, count as nat) is None,
        },
{
    let n = ts.len();
    let avail = n - p;
    let mut d: Vec<(i32, i32)> = Vec::new();
    let mut k: i32 = 0;
    while k < count
        invariant
            0 <= k <= count,
            n == ts@.len(),
            p <= n,
            avail == n - p,
            p + 2 * k <= n,
            p_dims(tm(ts@), p as nat, k as nat) == Some(d@),
        decreases count - k,
    {
        if 2 * (k as u64) + 1 >= avail as u64 {
            proof {
                lemma_dims_prefix(tm(ts@), p as nat, count as nat, (k + 1) as nat);
            }
            return None;
        }
        let a = p + 2 * (k as usize);
        let lb = nat_at(ts, a);
        let ub = nat_at(ts, a + 1);
        match (lb, ub) {
            (Some(x), Some(y)) => d.push((x, y)),
            _ => {
                proof {
                    lemma_dims_prefix(tm(ts@), p as nat, count as nat, (k + 1) as nat);
                }
                return None;
            },
        }
        k = k + 1;
    }
    Some(d)
}

proof fn lemma_dims_prefix(ts: Seq<Seq<char>>, p: nat, n: nat, k: nat)
    requires
        k <= n,
        p_dims(ts, p, k) is None,
    ensures
        p_dims(ts, p, n) is None,
    decreases n,
{
    if n > k {
        lemma_dims_prefix(ts, p, (n - 1) as nat, k);
    }
}

/// Reads a declaration at `p` (see `p_def`).
fn parse_def(ts: &Vec<String>, p: usize) -> (r: Option<(Definition, usize)>)
    ensures
        match r {
            Some((d, q)) => p_def(tm(ts@), p as nat) == Some((crate::ir::def_model(d), q as nat)),
            None => p_def(tm(ts@), p as nat) is None,
        },
{
    let n = ts.len();
    if p >= n || p + 1 >= n {
        return None;
    }
    let dtype = if is_at(ts, p + 1, "FLOAT") {
        DefinitionType::Real
    } else if is_at(ts, p + 1, "INT") {
        DefinitionType::Integer
    } else {
        return None;
    };
    let name = ts[p].clone();
    if let Some(count) = nat_at(ts, p + 2) {
        if let Some(dims) = parse_dims(ts, p + 3, count) {
            let q = p + 3 + 2 * (count as usize);
            return Some((Definition { name, dimensions: dims, dtype }, q));
        }
    }
    Some((Definition { name, dimensions: Vec::new(), dtype }, p + 2))
}

/// Reads as many declarations as follow `p` (see `p_defs`).
fn parse_defs(ts: &Vec<String>, p: usize) -> (r: (Vec<Definition>, usize))
    requires
        p <= ts@.len(),
    ensures
        p_defs(tm(ts@), p as nat) == (crate::ir::defs_model(r.0@), r.1 as nat),
        p <= r.1 <= ts@.len(),
{
    let mut acc: Vec<Definition> = Vec::new();
    let mut cur: usize = p;
    let ghost t = tm(ts@);
    assert(crate::ir::defs_model(acc@) =~= seq![]);
    loop
        invariant
            p <= cur <= ts@.len(),
            t == tm(ts@),
            p_defs(t, p as nat) == (crate::ir::defs_model(acc@) + p_defs(t, cur as nat).0, p_defs(t, cur as nat).1),
        decreases ts@.len() - cur,
    {
        match parse_def(ts, cur) {
            None => {
                assert(crate::ir::defs_model(acc@) + seq![] =~= crate::ir::defs_model(acc@));
                return (acc, cur);
            },
            Some((d, r)) => {
                if !(r > cur && r <= ts.len()) {
                    assert(crate::ir::defs_model(acc@) + seq![] =~= crate::ir::defs_model(acc@));
                    return (acc, cur);
                }
                let ghost before = crate::ir::defs_model(acc@);
                let ghost dm = crate::ir::def_model(d);
                acc.push(d);
                proof {
                    assert(crate::ir::defs_model(acc@) =~= before.push(dm));
                    let rest = p_defs(t, r as nat);
                    assert(p_defs(t, cur as nat) == (seq![dm] + rest.0, rest.1));
                    assert(before + (seq![dm] + rest.0) =~= before.push(dm) + rest.0);
                }
                cur = r;
            },
        }
    }
}

/// Reads a program from its textual IR (see `program_spec`); what follows
/// the statement list is not read.
pub fn parse_ast(text: &str) -> (r: Result<Ast, ParseError>)
    ensures
        match r {
            Ok(a) => program_spec(text@) == Some(crate::ir::program_model(a)),
            Err(e) => program_spec(text@) is None && e.token == program_error(text@),
        },
{
    let ts = match crate::lex::tokenize(text) {
        None => return Err(ParseError { token: 0 }),
        Some(t) => t,
    };
    if ts.len() == 0 {
        return Err(ParseError { token: 0 });
    }
    let (defs, r) = parse_defs(&ts, 1);
    match parse_stmtlist(&ts, r) {
        Some((ss, _)) => {
            let a = Ast { name: ts[0].clone(), vardef: defs, statements: crate::ir::StatementList(ss) };
            Ok(a)
        },
        None => {
            let stop = if is_at(&ts, r, "STMTLIST") { parse_stmts(&ts, r + 1).1 } else { r };
            Err(ParseError { token: stop })
        },
    }
}

} // verus!
