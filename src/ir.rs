//! The intermediate representation of a program: declarations, nested counted
//! loops, assignments and conditionals, with a mathematical model of each
//! expression.
use vstd::prelude::*;

verus! {

/// A whole program: its name, its declarations and its top-level statements.
pub struct Ast {
    pub name: String,
    pub vardef: Vec<Definition>,
    pub statements: StatementList,
}

/// A declared scalar (no dimensions) or array (one `(lower, upper)` pair per
/// dimension).
pub struct Definition {
    pub name: String,
    pub dimensions: Vec<(i32, i32)>,
    pub dtype: DefinitionType,
}

#[derive(PartialEq, Eq, Structural, Clone, Copy, Debug)]
pub enum DefinitionType {
    Real,
    Integer,
}

pub struct StatementList(pub Vec<Statement>);

pub enum Statement {
    Assignment(Assign),
    Loop(Loop),
    If(If),
}

pub struct Assign {
    pub label: i32,
    pub lhs: Variable,
    pub rhs: Expression,
}

pub struct Loop {
    pub label: i32,
    pub var: String,
    pub lower: Expression,
    pub upper: Expression,
    pub statements: StatementList,
}

pub struct If {
    pub label: i32,
    pub expr: Expression,
    pub then_branch: StatementList,
    pub else_branch: StatementList,
}

/// A reference to a scalar (no indices) or to an array element.
pub struct Variable {
    pub name: String,
    pub indices: Vec<Expression>,
}

/// An expression. A real literal is kept as the text it was written with;
/// `Expression` is an explicit pair of parentheses around its operand.
pub enum Expression {
    Integer(i32),
    Real(String),
    UnOp(Box<UnOp>),
    BinOp(Box<BinOp>),
    Variable(Variable),
    Expression(Box<Expression>),
}

#[derive(PartialEq, Eq, Structural, Clone, Copy, Debug)]
pub enum OpType {
    Plus,
    Minus,
    Mul,
    Div,
    Equal,
    NotEqual,
    Greater,
    GreaterEqual,
    Lower,
    LowerEqual,
    And,
    Or,
    Not,
}

pub struct UnOp {
    pub op: OpType,
    pub right: Expression,
}

pub struct BinOp {
    pub op: OpType,
    pub left: Expression,
    pub right: Expression,
}

/// Mathematical model of an expression.
pub enum Expr {
    Int(i32),
    Real(Seq<char>),
    Un(OpType, Box<Expr>),
    Bin(OpType, Box<Expr>, Box<Expr>),
    Var(Seq<char>, Seq<Expr>),
    Paren(Box<Expr>),
}

pub open spec fn expr_model(e: Expression) -> Expr
    decreases e,
{
    match e {
        Expression::Integer(i) => Expr::Int(i),
        Expression::Real(t) => Expr::Real(t@),
        Expression::UnOp(u) => Expr::Un(u.op, Box::new(expr_model(u.right))),
        Expression::BinOp(b) => Expr::Bin(b.op, Box::new(expr_model(b.left)), Box::new(expr_model(b.right))),
        Expression::Variable(v) => Expr::Var(v.name@, exprs_model(v.indices@)),
        Expression::Expression(p) => Expr::Paren(Box::new(expr_model(*p))),
    }
}

pub open spec fn exprs_model(s: Seq<Expression>) -> Seq<Expr>
    decreases s,
{
    if s.len() == 0 {
        Seq::empty()
    } else {
        exprs_model(s.drop_last()).push(expr_model(s.last()))
    }
}

} // verus!

verus! {

impl View for Expression {
    type V = Expr;

    open spec fn view(&self) -> Expr {
        expr_model(*self)
    }
}

/// The model of a sequence of expressions is the sequence of their models.
pub proof fn lemma_exprs_model(s: Seq<Expression>)
    ensures
        exprs_model(s).len() == s.len(),
        forall|i: int| 0 <= i < s.len() ==> #[trigger] exprs_model(s)[i] == expr_model(s[i]),
    decreases s.len(),
{
    if s.len() > 0 {
        lemma_exprs_model(s.drop_last());
    }
}

pub proof fn lemma_exprs_model_push(s: Seq<Expression>, e: Expression)
    ensures
        exprs_model(s.push(e)) == exprs_model(s).push(expr_model(e)),
{
    assert(s.push(e).drop_last() =~= s);
}

/// A copy of an expression with the same model.
pub fn clone_expr(e: &Expression) -> (r: Expression)
    ensures
        r@ == e@,
    decreases e,
{
    match e {
        Expression::Integer(i) => Expression::Integer(*i),
        Expression::Real(t) => Expression::Real(t.clone()),
        Expression::UnOp(u) => Expression::UnOp(Box::new(UnOp { op: u.op, right: clone_expr(&u.right) })),
        Expression::BinOp(b) => Expression::BinOp(
            Box::new(BinOp { op: b.op, left: clone_expr(&b.left), right: clone_expr(&b.right) }),
        ),
        Expression::Variable(v) => Expression::Variable(clone_variable(v)),
        Expression::Expression(p) => Expression::Expression(Box::new(clone_expr(p))),
    }
}

/// A copy of a variable reference with the same name and index models.
pub fn clone_variable(v: &Variable) -> (r: Variable)
    ensures
        r.name@ == v.name@,
        exprs_model(r.indices@) == exprs_model(v.indices@),
    decreases v,
{
    let mut indices: Vec<Expression> = Vec::new();
    let mut i: usize = 0;
    proof {
        lemma_exprs_model(v.indices@);
    }
    while i < v.indices.len()
        invariant
            i <= v.indices.len(),
            exprs_model(indices@) == exprs_model(v.indices@).take(i as int),
            exprs_model(v.indices@).len() == v.indices@.len(),
            forall|k: int| 0 <= k < v.indices@.len() ==> #[trigger] exprs_model(v.indices@)[k] == expr_model(v.indices@[k]),
        decreases v.indices.len() - i,
    {
        let c = clone_expr(&v.indices[i]);
        proof {
            lemma_exprs_model_push(indices@, c);
            assert(exprs_model(v.indices@).take(i as int + 1) =~= exprs_model(v.indices@).take(i as int).push(expr_model(v.indices@[i as int])));
        }
        indices.push(c);
        i = i + 1;
    }
    proof {
        assert(exprs_model(v.indices@).take(i as int) =~= exprs_model(v.indices@));
    }
    Variable { name: v.name.clone(), indices }
}

} // verus!

verus! {

/// Mathematical model of a statement.
pub enum Stmt {
    Assign(i32, Seq<char>, Seq<Expr>, Expr),
    Loop(i32, Seq<char>, Expr, Expr, Seq<Stmt>),
    If(i32, Expr, Seq<Stmt>, Seq<Stmt>),
}

/// Mathematical model of a declaration.
pub struct Def {
    pub name: Seq<char>,
    pub dims: Seq<(i32, i32)>,
    pub dtype: DefinitionType,
}

/// Mathematical model of a program.
pub struct Program {
    pub name: Seq<char>,
    pub defs: Seq<Def>,
    pub stmts: Seq<Stmt>,
}

pub open spec fn stmt_model(s: Statement) -> Stmt
    decreases s,
{
    match s {
        Statement::Assignment(a) => Stmt::Assign(a.label, a.lhs.name@, exprs_model(a.lhs.indices@), a.rhs@),
        Statement::Loop(l) => Stmt::Loop(l.label, l.var@, l.lower@, l.upper@, stmts_model(l.statements.0@)),
        Statement::If(i) => Stmt::If(i.label, i.expr@, stmts_model(i.then_branch.0@), stmts_model(i.else_branch.0@)),
    }
}

pub open spec fn stmts_model(s: Seq<Statement>) -> Seq<Stmt>
    decreases s,
{
    if s.len() == 0 {
        Seq::empty()
    } else {
        stmts_model(s.drop_last()).push(stmt_model(s.last()))
    }
}

pub open spec fn def_model(d: Definition) -> Def {
    Def { name: d.name@, dims: d.dimensions@, dtype: d.dtype }
}

pub open spec fn defs_model(d: Seq<Definition>) -> Seq<Def> {
    d.map_values(|x: Definition| def_model(x))
}

pub open spec fn program_model(a: Ast) -> Program {
    Program { name: a.name@, defs: defs_model(a.vardef@), stmts: stmts_model(a.statements.0@) }
}

pub proof fn lemma_stmts_model_push(s: Seq<Statement>, x: Statement)
    ensures
        stmts_model(s.push(x)) == stmts_model(s).push(stmt_model(x)),
{
    assert(s.push(x).drop_last() =~= s);
}

} // verus!
