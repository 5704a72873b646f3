//! The emitters: the tracing one writes the program with a log line for
//! every loop event and element access; the vectorizing one writes
//! statements with loop variables turned into index ranges.
use vstd::prelude::*;
use crate::codegen::{bounds_model, expr_text, LoopBounds};
use crate::ir::{exprs_model, expr_model, Assign, Definition, DefinitionType, Expr, Loop, Statement, Variable};
use crate::text::{digits, indent_text, int_text, label_text};

verus! {

/// What the text of the emitter depends on: whether it logs, the loop
/// variables it is inside of (when logging), and the loop map and folding
/// switch of the vectorizer.
pub struct GenModel {
    pub tracing: bool,
    pub indices: Set<Seq<char>>,
    pub map: Seq<(Seq<char>, Expr, Expr)>,
    pub folding: bool,
}

pub open spec fn next_indent(i: nat) -> nat {
    if i < usize::MAX { i + 1 } else { i }
}

pub open spec fn line_prefix(indent: nat) -> Seq<char> {
    "    "@ + indent_text(indent)
}

/// `, e1, e2, ...` for the index expressions of a logged access.
pub open spec fn index_args(idx: Seq<Expr>) -> Seq<char>
    decreases idx.len(),
{
    if idx.len() == 0 {
        seq![]
    } else {
        index_args(idx.drop_last()) + ", "@ + expr_text(seq![], false, idx.last())
    }
}

/// The log line of one access (`kind` is `USE` or `DEF`).
pub open spec fn access_line(indent: nat, label: i32, name: Seq<char>, idx: Seq<Expr>, kind: Seq<char>) -> Seq<char> {
    if idx.len() > 0 {
        line_prefix(indent) + "write (*,'(a,"@ + digits(idx.len()) + "(x,i0))') ' "@ + label_text(label as int) + " "@ + name
            + " "@ + kind + "'"@ + index_args(idx) + "\n"@
    } else {
        line_prefix(indent) + "write (*,'(a)')         ' "@ + label_text(label as int) + " "@ + name + " "@ + kind
            + "'\n"@
    }
}

/// Log lines for every variable read by an expression, outermost first;
/// the variables of enclosing loops are left out (their values are logged
/// by the loop).
pub open spec fn log_uses(s: Set<Seq<char>>, indent: nat, label: i32, e: Expr) -> Seq<char>
    decreases e,
{
    match e {
        Expr::Int(_) => seq![],
        Expr::Real(_) => seq![],
        Expr::Paren(x) => log_uses(s, indent, label, *x),
        Expr::Un(_, r) => log_uses(s, indent, label, *r),
        Expr::Bin(_, l, r) => log_uses(s, indent, label, *l) + log_uses(s, indent, label, *r),
        Expr::Var(n, idx) => (if s.contains(n) {
            seq![]
        } else {
            access_line(indent, label, n, idx, "USE"@)
        }) + log_uses_seq(s, indent, label, idx),
    }
}

pub open spec fn log_uses_seq(s: Set<Seq<char>>, indent: nat, label: i32, idx: Seq<Expr>) -> Seq<char>
    decreases idx,
{
    if idx.len() == 0 {
        seq![]
    } else {
        log_uses_seq(s, indent, label, idx.drop_last()) + log_uses(s, indent, label, idx.last())
    }
}

pub open spec fn loop_line(indent: nat, label: i32, var: Seq<char>, what: Seq<char>) -> Seq<char> {
    line_prefix(indent) + "write (*,'(a)')         ' "@ + int_text(label as int) + " "@ + var + what + "'\n"@
}

pub open spec fn update_line(indent: nat, label: i32, var: Seq<char>) -> Seq<char> {
    line_prefix(indent) + "write (*,'(a,i0)')      ' "@ + int_text(label as int) + " "@ + var + " ', "@ + var + "\n"@
}

pub open spec fn var_model(v: Variable) -> Expr {
    Expr::Var(v.name@, exprs_model(v.indices@))
}

/// Text of an assignment, with its log lines first when tracing.
pub open spec fn assign_text(g: GenModel, a: Assign, indent: nat) -> Seq<char> {
    (if g.tracing {
        access_line(indent, a.label, a.lhs.name@, exprs_model(a.lhs.indices@), "DEF"@) + log_uses_seq(
            g.indices,
            indent,
            a.label,
            exprs_model(a.lhs.indices@),
        ) + log_uses(g.indices, indent, a.label, a.rhs@)
    } else {
        seq![]
    }) + label_text(a.label as int) + " "@ + indent_text(indent) + expr_text(g.map, g.folding, var_model(a.lhs)) + " = "@
        + expr_text(g.map, g.folding, a.rhs@) + "\n"@
}

/// The header line of a loop (`do VAR = lower, upper`), after `lead`.
pub open spec fn do_line(g: GenModel, l: Loop, lead: Seq<char>) -> Seq<char> {
    lead + "do "@ + l.var@ + " = "@ + expr_text(g.map, g.folding, l.lower@) + ", "@ + expr_text(g.map, g.folding, l.upper@)
        + "\n"@
}

pub open spec fn with_index(g: GenModel, var: Seq<char>) -> GenModel {
    if g.tracing { GenModel { indices: g.indices.insert(var), ..g } } else { g }
}

pub open spec fn without_index(g: GenModel, var: Seq<char>) -> GenModel {
    if g.tracing { GenModel { indices: g.indices.remove(var), ..g } } else { g }
}

/// Text of one statement and the emitter's state after it.
pub open spec fn stmt_text(g: GenModel, s: Statement, indent: nat) -> (Seq<char>, GenModel)
    decreases s,
{
    match s {
        Statement::Assignment(a) => (assign_text(g, a, indent), g),
        Statement::Loop(l) => {
            let (body, g2) = stmts_text(with_index(g, l.var@), l.statements.0@, next_indent(indent));
            (loop_head(g, l, indent) + body + loop_tail(g, l, indent), without_index(g2, l.var@))
        },
        Statement::If(i) => {
            let (t1, g1) = stmts_text(g, i.then_branch.0@, next_indent(indent));
            let (t2, g2) = stmts_text(g1, i.else_branch.0@, next_indent(indent));
            (if_head(g, i, indent) + t1 + line_prefix(indent) + "else\n"@ + t2 + line_prefix(indent) + "end if\n"@, g2)
        },
    }
}

/// The lines that open a loop: its log line when tracing, the `do` line,
/// and the log of the index value inside the loop.
pub open spec fn loop_head(g: GenModel, l: Loop, indent: nat) -> Seq<char> {
    (if g.tracing { loop_line(indent, l.label, l.var@, " loop begin"@) } else { seq![] }) + do_line(
        g,
        l,
        label_text(l.label as int) + " "@ + indent_text(indent),
    ) + (if g.tracing { update_line(next_indent(indent), l.label, l.var@) } else { seq![] })
}

/// The lines that close a loop.
pub open spec fn loop_tail(g: GenModel, l: Loop, indent: nat) -> Seq<char> {
    line_prefix(indent) + "end do\n"@ + (if g.tracing { loop_line(indent, l.label, l.var@, " loop end"@) } else { seq![] })
}

pub open spec fn if_head(g: GenModel, i: crate::ir::If, indent: nat) -> Seq<char> {
    label_text(i.label as int) + " "@ + indent_text(indent) + "if ("@ + expr_text(g.map, g.folding, i.expr@) + ") then\n"@
}

/// Text of a statement list and the emitter's state after it.
pub open spec fn stmts_text(g: GenModel, ss: Seq<Statement>, indent: nat) -> (Seq<char>, GenModel)
    decreases ss,
{
    if ss.len() == 0 {
        (seq![], g)
    } else {
        let (t1, g1) = stmts_text(g, ss.drop_last(), indent);
        let (t2, g2) = stmt_text(g1, ss.last(), indent);
        (t1 + t2, g2)
    }
}

/// `lb:ub` pairs of a declaration, comma separated.
pub open spec fn dims_text(d: Seq<(i32, i32)>) -> Seq<char>
    decreases d.len(),
{
    if d.len() == 0 {
        seq![]
    } else {
        dims_text(d.drop_last()) + (if d.len() > 1 { ","@ } else { seq![] }) + int_text(d.last().0 as int) + ":"@
            + int_text(d.last().1 as int)
    }
}

/// The declaration line of a variable.
pub open spec fn definition_text(d: Definition) -> Seq<char> {
    (match d.dtype {
        DefinitionType::Integer => "integer"@,
        DefinitionType::Real => "real"@,
    }) + (if d.dimensions@.len() > 0 { ", dimension("@ + dims_text(d.dimensions@) + ")"@ } else { seq![] }) + " :: "@
        + d.name@ + "\n"@
}

pub open spec fn definitions_text(ds: Seq<Definition>) -> Seq<char>
    decreases ds.len(),
{
    if ds.len() == 0 {
        seq![]
    } else {
        definitions_text(ds.drop_last()) + definition_text(ds.last())
    }
}

pub open spec fn banner() -> Seq<char> {
    "! Compilers for Parallel Systems\n! 185.A64 SS 2018 H. Moritsch\n! F90 generated from EFL source\n\n"@
}

/// The program header: a comment banner, the program line, and the
/// declarations.
pub open spec fn header_text(name: Seq<char>, ds: Seq<Definition>) -> Seq<char> {
    banner() + "program "@ + name + "\n\n"@ + definitions_text(ds) + "\n"@
}

pub open spec fn footer_text(name: Seq<char>) -> Seq<char> {
    "\n"@ + "end program "@ + name + "\n"@
}

} // verus!

verus! {

/// The tracing emitter's state: the variables of the loops it is inside.
pub struct Tracer {
    pub loop_indices: Vec<String>,
}

/// The vectorizing emitter's state: the loops whose variables become
/// ranges in the next assignment, and whether bounds are folded.
pub struct Vectorizer {
    pub loop_replacement: Vec<LoopBounds>,
    pub folding: bool,
}

/// One of the two emitters.
pub enum Generator {
    Tracer(Tracer),
    Vectorizer(Vectorizer),
}

pub open spec fn names_set(v: Seq<String>) -> Set<Seq<char>> {
    Set::new(|s: Seq<char>| exists|i: int| 0 <= i < v.len() && (#[trigger] v[i])@ == s)
}

impl Generator {
    pub open spec fn model(&self) -> GenModel {
        match self {
            Generator::Tracer(t) => GenModel {
                tracing: true,
                indices: names_set(t.loop_indices@),
                map: seq![],
                folding: false,
            },
            Generator::Vectorizer(v) => GenModel {
                tracing: false,
                indices: Set::empty(),
                map: bounds_model(v.loop_replacement@),
                folding: v.folding,
            },
        }
    }
}

impl Tracer {
    pub fn new() -> (r: Tracer)
        ensures
            names_set(r.loop_indices@) == Set::<Seq<char>>::empty(),
    {
        let r = Tracer { loop_indices: Vec::new() };
        assert(names_set(r.loop_indices@) =~= Set::<Seq<char>>::empty());
        r
    }

    fn has_index(&self, name: &String) -> (r: bool)
        ensures
            r == names_set(self.loop_indices@).contains(name@),
    {
        let mut i: usize = 0;
        while i < self.loop_indices.len()
            invariant
                i <= self.loop_indices@.len(),
                forall|k: int| 0 <= k < i ==> (#[trigger] self.loop_indices@[k])@ != name@,
            decreases self.loop_indices.len() - i,
        {
            if self.loop_indices[i] == *name {
                return true;
            }
            i = i + 1;
        }
        false
    }

    fn add_index(&mut self, name: &String)
        ensures
            names_set(final(self).loop_indices@) == names_set(old(self).loop_indices@).insert(name@),
    {
        if !self.has_index(name) {
            let ghost old_v = self.loop_indices@;
            self.loop_indices.push(name.clone());
            assert forall|s: Seq<char>| names_set(self.loop_indices@).contains(s) <==> names_set(old_v).insert(name@).contains(s) by {
                if names_set(old_v).contains(s) {
                    let i = choose|i: int| 0 <= i < old_v.len() && (#[trigger] old_v[i])@ == s;
                    assert(self.loop_indices@[i] == old_v[i]);
                }
                if s == name@ {
                    assert(self.loop_indices@[old_v.len() as int]@ == s);
                }
                if names_set(self.loop_indices@).contains(s) {
                    let i = choose|i: int| 0 <= i < self.loop_indices@.len() && (#[trigger] self.loop_indices@[i])@ == s;
                    if i < old_v.len() {
                        assert(old_v[i] == self.loop_indices@[i]);
                    }
                }
            }
            assert(names_set(self.loop_indices@) =~= names_set(old_v).insert(name@));
        } else {
            assert(names_set(self.loop_indices@) =~= names_set(self.loop_indices@).insert(name@));
        }
    }

    fn remove_index(&mut self, name: &String)
        ensures
            names_set(final(self).loop_indices@) == names_set(old(self).loop_indices@).remove(name@),
    {
        let ghost old_v = self.loop_indices@;
        let mut kept: Vec<String> = Vec::new();
        let mut i: usize = 0;
        while i < self.loop_indices.len()
            invariant
                i <= self.loop_indices@.len(),
                self.loop_indices@ == old_v,
                names_set(kept@) == names_set(old_v.take(i as int)).remove(name@),
            decreases self.loop_indices.len() - i,
        {
            let ghost before = kept@;
            if self.loop_indices[i] != *name {
                kept.push(self.loop_indices[i].clone());
            }
            proof {
                let t = old_v.take(i as int + 1);
                assert forall|s: Seq<char>| names_set(kept@).contains(s) <==> names_set(t).remove(name@).contains(s) by {
                    if names_set(kept@).contains(s) {
                        let j = choose|j: int| 0 <= j < kept@.len() && (#[trigger] kept@[j])@ == s;
                        if j < before.len() {
                            assert(before[j] == kept@[j]);
                            assert(names_set(before).contains(s));
                            let q = choose|q: int| 0 <= q < i && (#[trigger] old_v.take(i as int)[q])@ == s;
                            assert(t[q] == old_v.take(i as int)[q]);
                        } else {
                            assert(t[i as int] == old_v[i as int]);
                        }
                    }
                    if names_set(t).remove(name@).contains(s) {
                        let q = choose|q: int| 0 <= q < t.len() && (#[trigger] t[q])@ == s;
                        if q < i {
                            assert(old_v.take(i as int)[q] == t[q]);
                            assert(names_set(before).contains(s));
                            let j = choose|j: int| 0 <= j < before.len() && (#[trigger] before[j])@ == s;
                            assert(kept@[j] == before[j]);
                        } else {
                            assert(kept@[before.len() as int]@ == s);
                        }
                    }
                }
                assert(names_set(kept@) =~= names_set(t).remove(name@));
            }
            i = i + 1;
        }
        proof {
            assert(old_v.take(i as int) =~= old_v);
        }
        self.loop_indices = kept;
    }
}

impl Vectorizer {
    pub fn new(folding: bool) -> (r: Vectorizer)
        ensures
            r.loop_replacement@.len() == 0,
            r.folding == folding,
    {
        Vectorizer { loop_replacement: Vec::new(), folding }
    }
}

} // verus!

verus! {

fn push_indent(out: &mut String, indent: usize)
    ensures
        final(out)@ == old(out)@ + indent_text(indent as nat),
{
    let ghost start = out@;
    let mut i: usize = 0;
    while i < indent
        invariant
            i <= indent,
            out@.len() == start.len() + 4 * i,
            out@.subrange(0, start.len() as int) == start,
            forall|k: int| start.len() <= k < out@.len() ==> out@[k] == ' ',
        decreases indent - i,
    {
        proof {
            reveal_strlit("    ");
        }
        let ghost before = out@;
        out.append("    ");
        proof {
            assert(out@.subrange(0, start.len() as int) =~= before.subrange(0, start.len() as int));
        }
        i = i + 1;
    }
    assert(out@ =~= start + indent_text(indent as nat));
}

fn push_prefix(out: &mut String, indent: usize)
    ensures
        final(out)@ == old(out)@ + line_prefix(indent as nat),
{
    out.append("    ");
    push_indent(out, indent);
    assert(final(out)@ =~= old(out)@ + line_prefix(indent as nat));
}

fn write_index_args(out: &mut String, idx: &Vec<crate::ir::Expression>)
    ensures
        final(out)@ == old(out)@ + index_args(exprs_model(idx@)),
{
    let ghost im = exprs_model(idx@);
    let ghost start = out@;
    let empty: Vec<LoopBounds> = Vec::new();
    proof {
        crate::ir::lemma_exprs_model(idx@);
        assert(bounds_model(empty@) =~= seq![]);
        assert(im.take(0) =~= seq![]);
    }
    let mut i: usize = 0;
    while i < idx.len()
        invariant
            i <= idx@.len(),
            im == exprs_model(idx@),
            im.len() == idx@.len(),
            forall|k: int| 0 <= k < idx@.len() ==> #[trigger] im[k] == expr_model(idx@[k]),
            bounds_model(empty@) == Seq::<(Seq<char>, Expr, Expr)>::empty(),
            out@ == start + index_args(im.take(i as int)),
        decreases idx.len() - i,
    {
        out.append(", ");
        crate::codegen::generate_expression(&empty, false, out, &idx[i]);
        proof {
            let t = im.take(i as int + 1);
            assert(t.drop_last() =~= im.take(i as int));
            assert(out@ =~= start + index_args(t));
        }
        i = i + 1;
    }
    assert(im.take(i as int) =~= im);
}

fn write_access_line(out: &mut String, indent: usize, label: i32, v: &Variable, kind: &str)
    ensures
        final(out)@ == old(out)@ + access_line(indent as nat, label, v.name@, exprs_model(v.indices@), kind@),
{
    proof {
        crate::ir::lemma_exprs_model(v.indices@);
    }
    push_prefix(out, indent);
    if v.indices.len() > 0 {
        out.append("write (*,'(a,");
        crate::text::push_digits(out, v.indices.len() as u64);
        out.append("(x,i0))') ' ");
        crate::text::push_label(out, label);
        out.append(" ");
        out.append(v.name.as_str());
        out.append(" ");
        out.append(kind);
        out.append("'");
        write_index_args(out, &v.indices);
        out.append("\n");
    } else {
        out.append("write (*,'(a)')         ' ");
        crate::text::push_label(out, label);
        out.append(" ");
        out.append(v.name.as_str());
        out.append(" ");
        out.append(kind);
        out.append("'\n");
    }
    assert(final(out)@ =~= old(out)@ + access_line(indent as nat, label, v.name@, exprs_model(v.indices@), kind@));
}

fn write_log_uses(t: &Tracer, out: &mut String, indent: usize, label: i32, e: &crate::ir::Expression)
    ensures
        final(out)@ == old(out)@ + log_uses(names_set(t.loop_indices@), indent as nat, label, e@),
    decreases e,
{
    let ghost s = names_set(t.loop_indices@);
    match e {
        crate::ir::Expression::Integer(_) => {
            assert(final(out)@ =~= old(out)@ + log_uses(s, indent as nat, label, e@));
        },
        crate::ir::Expression::Real(_) => {
            assert(final(out)@ =~= old(out)@ + log_uses(s, indent as nat, label, e@));
        },
        crate::ir::Expression::Expression(x) => {
            write_log_uses(t, out, indent, label, x);
            assert(e@ == Expr::Paren(Box::new(expr_model(**x))));
        },
        crate::ir::Expression::UnOp(u) => {
            write_log_uses(t, out, indent, label, &u.right);
            assert(e@ == Expr::Un(u.op, Box::new(u.right@)));
        },
        crate::ir::Expression::BinOp(b) => {
            write_log_uses(t, out, indent, label, &b.left);
            write_log_uses(t, out, indent, label, &b.right);
            assert(e@ == Expr::Bin(b.op, Box::new(b.left@), Box::new(b.right@)));
            assert(final(out)@ =~= old(out)@ + log_uses(s, indent as nat, label, e@));
        },
        crate::ir::Expression::Variable(v) => {
            write_log_uses_var(t, out, indent, label, v);
            assert(e@ == Expr::Var(v.name@, exprs_model(v.indices@)));
        },
    }
}

fn write_log_uses_var(t: &Tracer, out: &mut String, indent: usize, label: i32, v: &Variable)
    ensures
        final(out)@ == old(out)@ + (if names_set(t.loop_indices@).contains(v.name@) {
            seq![]
        } else {
            access_line(indent as nat, label, v.name@, exprs_model(v.indices@), "USE"@)
        }) + log_uses_seq(names_set(t.loop_indices@), indent as nat, label, exprs_model(v.indices@)),
    decreases v,
{
    let ghost s = names_set(t.loop_indices@);
    let ghost im = exprs_model(v.indices@);
    if !t.has_index(&v.name) {
        write_access_line(out, indent, label, v, "USE");
    }
    let ghost start = out@;
    proof {
        crate::ir::lemma_exprs_model(v.indices@);
        assert(im.take(0) =~= seq![]);
    }
    let mut i: usize = 0;
    while i < v.indices.len()
        invariant
            i <= v.indices@.len(),
            im == exprs_model(v.indices@),
            im.len() == v.indices@.len(),
            forall|k: int| 0 <= k < v.indices@.len() ==> #[trigger] im[k] == expr_model(v.indices@[k]),
            s == names_set(t.loop_indices@),
            out@ == start + log_uses_seq(s, indent as nat, label, im.take(i as int)),
        decreases v.indices.len() - i,
    {
        write_log_uses(t, out, indent, label, &v.indices[i]);
        proof {
            let tk = im.take(i as int + 1);
            assert(tk.drop_last() =~= im.take(i as int));
            assert(out@ =~= start + log_uses_seq(s, indent as nat, label, tk));
        }
        i = i + 1;
    }
    assert(im.take(i as int) =~= im);
    assert(final(out)@ =~= old(out)@ + (if s.contains(v.name@) {
        seq![]
    } else {
        access_line(indent as nat, label, v.name@, im, "USE"@)
    }) + log_uses_seq(s, indent as nat, label, im));
}

/// Appends the text of an expression as the emitter writes it.
fn gen_write_expr(g: &Generator, out: &mut String, e: &crate::ir::Expression)
    ensures
        final(out)@ == old(out)@ + expr_text(g.model().map, g.model().folding, e@),
{
    match g {
        Generator::Tracer(_) => {
            let empty: Vec<LoopBounds> = Vec::new();
            assert(bounds_model(empty@) =~= seq![]);
            crate::codegen::generate_expression(&empty, false, out, e);
        },
        Generator::Vectorizer(v) => crate::codegen::generate_expression(&v.loop_replacement, v.folding, out, e),
    }
}

fn gen_write_variable(g: &Generator, out: &mut String, v: &Variable)
    ensures
        final(out)@ == old(out)@ + expr_text(g.model().map, g.model().folding, var_model(*v)),
{
    match g {
        Generator::Tracer(_) => {
            let empty: Vec<LoopBounds> = Vec::new();
            assert(bounds_model(empty@) =~= seq![]);
            crate::codegen::write_variable(&empty, false, out, v);
        },
        Generator::Vectorizer(vz) => crate::codegen::write_variable(&vz.loop_replacement, vz.folding, out, v),
    }
}

/// Appends an assignment (see `assign_text`).
pub fn emit_assign(g: &Generator, out: &mut String, a: &Assign, indent: usize)
    ensures
        final(out)@ == old(out)@ + assign_text(g.model(), *a, indent as nat),
{
    if let Generator::Tracer(t) = g {
        write_access_line(out, indent, a.label, &a.lhs, "DEF");
        let ghost mid = out@;
        write_log_uses_var_indices(t, out, indent, a.label, &a.lhs);
        write_log_uses(t, out, indent, a.label, &a.rhs);
    }
    crate::text::push_label(out, a.label);
    out.append(" ");
    push_indent(out, indent);
    gen_write_variable(g, out, &a.lhs);
    out.append(" = ");
    gen_write_expr(g, out, &a.rhs);
    out.append("\n");
    assert(final(out)@ =~= old(out)@ + assign_text(g.model(), *a, indent as nat));
}

fn write_log_uses_var_indices(t: &Tracer, out: &mut String, indent: usize, label: i32, v: &Variable)
    ensures
        final(out)@ == old(out)@ + log_uses_seq(names_set(t.loop_indices@), indent as nat, label, exprs_model(v.indices@)),
{
    let ghost s = names_set(t.loop_indices@);
    let ghost im = exprs_model(v.indices@);
    let ghost start = out@;
    proof {
        crate::ir::lemma_exprs_model(v.indices@);
        assert(im.take(0) =~= seq![]);
    }
    let mut i: usize = 0;
    while i < v.indices.len()
        invariant
            i <= v.indices@.len(),
            im == exprs_model(v.indices@),
            im.len() == v.indices@.len(),
            forall|k: int| 0 <= k < v.indices@.len() ==> #[trigger] im[k] == expr_model(v.indices@[k]),
            s == names_set(t.loop_indices@),
            out@ == start + log_uses_seq(s, indent as nat, label, im.take(i as int)),
        decreases v.indices.len() - i,
    {
        write_log_uses(t, out, indent, label, &v.indices[i]);
        proof {
            let tk = im.take(i as int + 1);
            assert(tk.drop_last() =~= im.take(i as int));
            assert(out@ =~= start + log_uses_seq(s, indent as nat, label, tk));
        }
        i = i + 1;
    }
    assert(im.take(i as int) =~= im);
}

} // verus!

verus! {

fn write_loop_line(out: &mut String, indent: usize, label: i32, var: &String, what: &str)
    ensures
        final(out)@ == old(out)@ + loop_line(indent as nat, label, var@, what@),
{
    push_prefix(out, indent);
    out.append("write (*,'(a)')         ' ");
    crate::text::push_int(out, label);
    out.append(" ");
    out.append(var.as_str());
    out.append(what);
    out.append("'\n");
    assert(final(out)@ =~= old(out)@ + loop_line(indent as nat, label, var@, what@));
}

fn write_update_line(out: &mut String, indent: usize, label: i32, var: &String)
    ensures
        final(out)@ == old(out)@ + update_line(indent as nat, label, var@),
{
    push_prefix(out, indent);
    out.append("write (*,'(a,i0)')      ' ");
    crate::text::push_int(out, label);
    out.append(" ");
    out.append(var.as_str());
    out.append(" ', ");
    out.append(var.as_str());
    out.append("\n");
    assert(final(out)@ =~= old(out)@ + update_line(indent as nat, label, var@));
}

fn write_do_line(g: &Generator, out: &mut String, l: &Loop)
    ensures
        final(out)@ == do_line(g.model(), *l, old(out)@),
{
    out.append("do ");
    out.append(l.var.as_str());
    out.append(" = ");
    gen_write_expr(g, out, &l.lower);
    out.append(", ");
    gen_write_expr(g, out, &l.upper);
    out.append("\n");
    assert(final(out)@ =~= do_line(g.model(), *l, old(out)@));
}

fn next(indent: usize) -> (r: usize)
    ensures
        r == next_indent(indent as nat),
{
    if indent < usize::MAX { indent + 1 } else { indent }
}

fn enter_loop(g: &mut Generator, var: &String)
    ensures
        final(g).model() == with_index(old(g).model(), var@),
{
    match g {
        Generator::Tracer(t) => t.add_index(var),
        Generator::Vectorizer(_) => {},
    }
}

fn leave_loop(g: &mut Generator, var: &String)
    ensures
        final(g).model() == without_index(old(g).model(), var@),
{
    match g {
        Generator::Tracer(t) => t.remove_index(var),
        Generator::Vectorizer(_) => {},
    }
}

fn is_tracing(g: &Generator) -> (r: bool)
    ensures
        r == g.model().tracing,
{
    match g {
        Generator::Tracer(_) => true,
        Generator::Vectorizer(_) => false,
    }
}

fn write_loop_head(g: &Generator, out: &mut String, l: &Loop, indent: usize)
    ensures
        final(out)@ == old(out)@ + loop_head(g.model(), *l, indent as nat),
{
    let tracing = is_tracing(g);
    if tracing {
        write_loop_line(out, indent, l.label, &l.var, " loop begin");
    }
    let ghost mid = out@;
    crate::text::push_label(out, l.label);
    out.append(" ");
    push_indent(out, indent);
    let ghost lead = out@;
    write_do_line(g, out, l);
    proof {
        assert(lead =~= mid + label_text(l.label as int) + " "@ + indent_text(indent as nat));
    }
    if tracing {
        write_update_line(out, next(indent), l.label, &l.var);
    }
    assert(final(out)@ =~= old(out)@ + loop_head(g.model(), *l, indent as nat));
}

fn write_loop_tail(g: &Generator, out: &mut String, l: &Loop, indent: usize)
    ensures
        final(out)@ == old(out)@ + loop_tail(g.model(), *l, indent as nat),
{
    push_prefix(out, indent);
    out.append("end do\n");
    if is_tracing(g) {
        write_loop_line(out, indent, l.label, &l.var, " loop end");
    }
    assert(final(out)@ =~= old(out)@ + loop_tail(g.model(), *l, indent as nat));
}

fn emit_loop(g: &mut Generator, out: &mut String, l: &Loop, indent: usize)
    ensures
        final(out)@ == old(out)@ + stmt_text(old(g).model(), Statement::Loop(*l), indent as nat).0,
        final(g).model() == stmt_text(old(g).model(), Statement::Loop(*l), indent as nat).1,
    decreases l,
{
    let ghost g0 = g.model();
    write_loop_head(g, out, l, indent);
    let ghost a = out@;
    enter_loop(g, &l.var);
    emit_stmts(g, out, &l.statements.0, next(indent));
    let ghost b = out@;
    proof {
        assert(g0.tracing == g.model().tracing) by {
            lemma_tracing_kept(with_index(g0, l.var@), l.statements.0@, next_indent(indent as nat));
        }
    }
    write_loop_tail(g, out, l, indent);
    proof {
        assert(loop_tail(g0, *l, indent as nat) == loop_tail(g.model(), *l, indent as nat));
    }
    leave_loop(g, &l.var);
    assert(final(out)@ =~= old(out)@ + stmt_text(g0, Statement::Loop(*l), indent as nat).0);
}

fn emit_if(g: &mut Generator, out: &mut String, i: &crate::ir::If, indent: usize)
    ensures
        final(out)@ == old(out)@ + stmt_text(old(g).model(), Statement::If(*i), indent as nat).0,
        final(g).model() == stmt_text(old(g).model(), Statement::If(*i), indent as nat).1,
    decreases i,
{
    let ghost g0 = g.model();
    let ni = next(indent);
    crate::text::push_label(out, i.label);
    out.append(" ");
    push_indent(out, indent);
    out.append("if (");
    gen_write_expr(g, out, &i.expr);
    out.append(") then\n");
    assert(out@ =~= old(out)@ + if_head(g0, *i, indent as nat));
    emit_stmts(g, out, &i.then_branch.0, ni);
    push_prefix(out, indent);
    out.append("else\n");
    emit_stmts(g, out, &i.else_branch.0, ni);
    push_prefix(out, indent);
    out.append("end if\n");
    assert(final(out)@ =~= old(out)@ + stmt_text(g0, Statement::If(*i), indent as nat).0);
}

/// Whether the emitter logs does not change while it writes statements.
pub proof fn lemma_tracing_kept(g: GenModel, ss: Seq<Statement>, indent: nat)
    ensures
        stmts_text(g, ss, indent).1.tracing == g.tracing,
    decreases ss,
{
    if ss.len() > 0 {
        lemma_tracing_kept(g, ss.drop_last(), indent);
        lemma_tracing_kept_stmt(stmts_text(g, ss.drop_last(), indent).1, ss.last(), indent);
    }
}

pub proof fn lemma_tracing_kept_stmt(g: GenModel, s: Statement, indent: nat)
    ensures
        stmt_text(g, s, indent).1.tracing == g.tracing,
    decreases s,
{
    match s {
        Statement::Assignment(_) => {},
        Statement::Loop(l) => {
            lemma_tracing_kept(with_index(g, l.var@), l.statements.0@, next_indent(indent));
        },
        Statement::If(i) => {
            lemma_tracing_kept(g, i.then_branch.0@, next_indent(indent));
            lemma_tracing_kept(stmts_text(g, i.then_branch.0@, next_indent(indent)).1, i.else_branch.0@, next_indent(indent));
        },
    }
}

/// Appends one statement (see `stmt_text`).
pub fn emit_stmt(g: &mut Generator, out: &mut String, s: &Statement, indent: usize)
    ensures
        final(out)@ == old(out)@ + stmt_text(old(g).model(), *s, indent as nat).0,
        final(g).model() == stmt_text(old(g).model(), *s, indent as nat).1,
    decreases s,
{
    match s {
        Statement::Assignment(a) => emit_assign(g, out, a, indent),
        Statement::Loop(l) => emit_loop(g, out, l, indent),
        Statement::If(i) => emit_if(g, out, i, indent),
    }
}

/// Appends a statement list (see `stmts_text`).
pub fn emit_stmts(g: &mut Generator, out: &mut String, ss: &Vec<Statement>, indent: usize)
    ensures
        final(out)@ == old(out)@ + stmts_text(old(g).model(), ss@, indent as nat).0,
        final(g).model() == stmts_text(old(g).model(), ss@, indent as nat).1,
    decreases ss,
{
    let ghost g0 = g.model();
    let ghost start = out@;
    let mut i: usize = 0;
    proof {
        assert(ss@.take(0) =~= seq![]);
    }
    while i < ss.len()
        invariant
            i <= ss@.len(),
            out@ == start + stmts_text(g0, ss@.take(i as int), indent as nat).0,
            g.model() == stmts_text(g0, ss@.take(i as int), indent as nat).1,
        decreases ss.len() - i,
    {
        emit_stmt(g, out, &ss[i], indent);
        proof {
            let t = ss@.take(i as int + 1);
            assert(t.drop_last() =~= ss@.take(i as int));
            assert(out@ =~= start + stmts_text(g0, t, indent as nat).0);
        }
        i = i + 1;
    }
    assert(ss@.take(i as int) =~= ss@);
}

fn write_dims(out: &mut String, d: &Vec<(i32, i32)>)
    ensures
        final(out)@ == old(out)@ + dims_text(d@),
{
    let ghost start = out@;
    let mut i: usize = 0;
    assert(d@.take(0) =~= seq![]);
    while i < d.len()
        invariant
            i <= d@.len(),
            out@ == start + dims_text(d@.take(i as int)),
        decreases d.len() - i,
    {
        if i > 0 {
            out.append(",");
        }
        crate::text::push_int(out, d[i].0);
        out.append(":");
        crate::text::push_int(out, d[i].1);
        proof {
            let t = d@.take(i as int + 1);
            assert(t.drop_last() =~= d@.take(i as int));
            assert(out@ =~= start + dims_text(t));
        }
        i = i + 1;
    }
    assert(d@.take(i as int) =~= d@);
}

/// Appends the declaration line of a variable (see `definition_text`).
pub fn write_definition(out: &mut String, def: &Definition)
    ensures
        final(out)@ == old(out)@ + definition_text(*def),
{
    match def.dtype {
        DefinitionType::Integer => out.append("integer"),
        DefinitionType::Real => out.append("real"),
    }
    if def.dimensions.len() > 0 {
        out.append(", dimension(");
        write_dims(out, &def.dimensions);
        out.append(")");
    }
    out.append(" :: ");
    out.append(def.name.as_str());
    out.append("\n");
    assert(final(out)@ =~= old(out)@ + definition_text(*def));
}

/// Appends the program header (see `header_text`).
pub fn write_header(out: &mut String, name: &String, defs: &Vec<Definition>)
    ensures
        final(out)@ == old(out)@ + header_text(name@, defs@),
{
    out.append("! Compilers for Parallel Systems\n! 185.A64 SS 2018 H. Moritsch\n! F90 generated from EFL source\n\n");
    out.append("program ");
    out.append(name.as_str());
    out.append("\n\n");
    let ghost start = out@;
    let mut i: usize = 0;
    assert(defs@.take(0) =~= seq![]);
    while i < defs.len()
        invariant
            i <= defs@.len(),
            out@ == start + definitions_text(defs@.take(i as int)),
        decreases defs.len() - i,
    {
        write_definition(out, &defs[i]);
        proof {
            let t = defs@.take(i as int + 1);
            assert(t.drop_last() =~= defs@.take(i as int));
            assert(out@ =~= start + definitions_text(t));
        }
        i = i + 1;
    }
    assert(defs@.take(i as int) =~= defs@);
    out.append("\n");
    assert(final(out)@ =~= old(out)@ + header_text(name@, defs@));
}

/// Appends the program footer (see `footer_text`).
pub fn write_footer(out: &mut String, name: &String)
    ensures
        final(out)@ == old(out)@ + footer_text(name@),
{
    out.append("\n");
    out.append("end program ");
    out.append(name.as_str());
    out.append("\n");
    assert(final(out)@ =~= old(out)@ + footer_text(name@));
}

} // verus!

verus! {

/// The lines that open a loop regenerated by the vectorizer at depth `c`.
pub open spec fn vec_start_text(g: GenModel, l: Loop, c: nat) -> Seq<char> {
    (if g.tracing { loop_line(c, l.label, l.var@, " loop begin"@) } else { seq![] }) + do_line(g, l, line_prefix(c)) + (if g.tracing {
        update_line(next_indent(c), l.label, l.var@)
    } else {
        seq![]
    })
}

/// The lines that close a loop regenerated by the vectorizer at depth `c`.
pub open spec fn vec_end_text(g: GenModel, l: Loop, c: nat) -> Seq<char> {
    line_prefix(c) + "end do\n"@ + (if g.tracing { loop_line(c, l.label, l.var@, " loop end"@) } else { seq![] })
}

/// An emitter with the text written so far.
pub struct Codegen {
    pub generator: Generator,
    pub out: String,
}

impl Codegen {
    /// A code generator with nothing written yet.
    pub fn new(generator: Generator) -> (r: Codegen)
        ensures
            r.out@ == Seq::<char>::empty(),
            r.generator.model() == generator.model(),
    {
        Codegen { generator, out: String::new() }
    }

    /// A code generator with nothing written yet that folds the bounds it
    /// substitutes (a tracing emitter substitutes none).
    pub fn new_folding(generator: Generator) -> (r: Codegen)
        ensures
            r.out@ == Seq::<char>::empty(),
            r.generator.model() == (if generator.model().tracing {
                generator.model()
            } else {
                GenModel { folding: true, ..generator.model() }
            }),
    {
        let generator = match generator {
            Generator::Tracer(t) => Generator::Tracer(t),
            Generator::Vectorizer(v) => Generator::Vectorizer(Vectorizer { loop_replacement: v.loop_replacement, folding: true }),
        };
        Codegen { generator, out: String::new() }
    }

    /// Sets the loops whose variables the next assignments turn into ranges
    /// (a tracing emitter ignores them).
    pub fn set_loop_data(&mut self, loop_replacement: Vec<LoopBounds>)
        ensures
            final(self).out@ == old(self).out@,
            final(self).generator.model() == (if old(self).generator.model().tracing {
                old(self).generator.model()
            } else {
                GenModel { map: bounds_model(loop_replacement@), ..old(self).generator.model() }
            }),
    {
        match &mut self.generator {
            Generator::Tracer(_) => {},
            Generator::Vectorizer(v) => {
                v.loop_replacement = loop_replacement;
            },
        }
    }

    /// Writes a whole program: header, statements, footer.
    pub fn generate_ast(&mut self, ast: &crate::ir::Ast)
        ensures
            final(self).out@ == old(self).out@ + header_text(ast.name@, ast.vardef@) + stmts_text(
                old(self).generator.model(),
                ast.statements.0@,
                0,
            ).0 + footer_text(ast.name@),
            final(self).generator.model() == stmts_text(old(self).generator.model(), ast.statements.0@, 0).1,
    {
        write_header(&mut self.out, &ast.name, &ast.vardef);
        emit_stmts(&mut self.generator, &mut self.out, &ast.statements.0, 0);
        write_footer(&mut self.out, &ast.name);
        assert(self.out@ =~= old(self).out@ + header_text(ast.name@, ast.vardef@) + stmts_text(
            old(self).generator.model(),
            ast.statements.0@,
            0,
        ).0 + footer_text(ast.name@));
    }

    /// Writes the program header (see `header_text`).
    pub fn generate_header(&mut self, ast: &crate::ir::Ast)
        ensures
            final(self).out@ == old(self).out@ + header_text(ast.name@, ast.vardef@),
            final(self).generator == old(self).generator,
    {
        write_header(&mut self.out, &ast.name, &ast.vardef);
    }

    /// Writes the program footer (see `footer_text`).
    pub fn generate_footer(&mut self, ast: &crate::ir::Ast)
        ensures
            final(self).out@ == old(self).out@ + footer_text(ast.name@),
            final(self).generator == old(self).generator,
    {
        write_footer(&mut self.out, &ast.name);
    }

    /// Writes one declaration line (see `definition_text`).
    pub fn generate_definition(&mut self, def: &Definition)
        ensures
            final(self).out@ == old(self).out@ + definition_text(*def),
            final(self).generator == old(self).generator,
    {
        write_definition(&mut self.out, def);
    }

    /// Opens a loop that the vectorizer keeps, at depth `c`.
    pub fn generate_loop_vec_start(&mut self, loop_node: &Loop, c: u8)
        ensures
            final(self).out@ == old(self).out@ + vec_start_text(old(self).generator.model(), *loop_node, c as nat),
            final(self).generator.model() == with_index(old(self).generator.model(), loop_node.var@),
    {
        let tracing = is_tracing(&self.generator);
        let c = c as usize;
        if tracing {
            write_loop_line(&mut self.out, c, loop_node.label, &loop_node.var, " loop begin");
        }
        let ghost mid = self.out@;
        push_prefix(&mut self.out, c);
        let ghost lead = self.out@;
        write_do_line(&self.generator, &mut self.out, loop_node);
        if tracing {
            write_update_line(&mut self.out, next(c), loop_node.label, &loop_node.var);
        }
        enter_loop(&mut self.generator, &loop_node.var);
        proof {
            assert(lead =~= mid + line_prefix(c as nat));
        }
        assert(self.out@ =~= old(self).out@ + vec_start_text(old(self).generator.model(), *loop_node, c as nat));
    }

    /// Closes a loop that the vectorizer keeps, at depth `c`.
    pub fn generate_loop_vec_end(&mut self, loop_node: &Loop, c: u8)
        ensures
            final(self).out@ == old(self).out@ + vec_end_text(old(self).generator.model(), *loop_node, c as nat),
            final(self).generator.model() == without_index(old(self).generator.model(), loop_node.var@),
    {
        let c = c as usize;
        push_prefix(&mut self.out, c);
        self.out.append("end do\n");
        if is_tracing(&self.generator) {
            write_loop_line(&mut self.out, c, loop_node.label, &loop_node.var, " loop end");
        }
        leave_loop(&mut self.generator, &loop_node.var);
        assert(self.out@ =~= old(self).out@ + vec_end_text(old(self).generator.model(), *loop_node, c as nat));
    }

    /// Writes an assignment at the given depth (see `assign_text`).
    pub fn generate_assignment(&mut self, assignment: &Assign, indent: u8)
        ensures
            final(self).out@ == old(self).out@ + assign_text(old(self).generator.model(), *assignment, indent as nat),
            final(self).generator == old(self).generator,
    {
        emit_assign(&self.generator, &mut self.out, assignment, indent as usize);
    }
}

pub open spec fn tracer_model() -> GenModel {
    GenModel { tracing: true, indices: Set::empty(), map: seq![], folding: false }
}

/// The instrumented program: the program with a log line for every loop
/// begin, index update and end, and for every element read and written.
pub open spec fn trace_program_text(ast: crate::ir::Ast) -> Seq<char> {
    header_text(ast.name@, ast.vardef@) + stmts_text(tracer_model(), ast.statements.0@, 0).0 + footer_text(ast.name@)
}

/// Writes the instrumented program (see `trace_program_text`).
pub fn generate_trace(ast: &crate::ir::Ast) -> (r: String)
    ensures
        r@ == trace_program_text(*ast),
{
    let mut cg = Codegen::new(Generator::Tracer(Tracer::new()));
    cg.generate_ast(ast);
    cg.out
}

} // verus!
