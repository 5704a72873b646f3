use vectorizer::codegen::{fold_expr, generate_expression, LoopBounds};
use vectorizer::deps::{DependencyType, LevelDependency};
use vectorizer::dot::print_graph;
use vectorizer::emit::generate_trace;
use vectorizer::graph::{find_dependencies, DepEdge, DepGraph};
use vectorizer::ir::{Assign, Ast, BinOp, Definition, DefinitionType, Expression, Loop, OpType, Statement, StatementList, UnOp, Variable};
use vectorizer::ir_parse::parse_ast;
use vectorizer::plan::VectorizeError;
use vectorizer::tables::skipped_conditionals;
use vectorizer::text::indentation;
use vectorizer::trace::{read_trace, TraceError};
use vectorizer::vectorize::vectorize;

fn lines(v: &[&str]) -> Vec<String> {
    v.iter().map(|s| s.to_string()).collect()
}

fn lit(i: i32) -> Expression {
    Expression::Integer(i)
}

fn var(name: &str) -> Expression {
    Expression::Variable(Variable { name: name.to_string(), indices: Vec::new() })
}

fn elem(name: &str, idx: Vec<Expression>) -> Variable {
    Variable { name: name.to_string(), indices: idx }
}

fn bin(op: OpType, l: Expression, r: Expression) -> Expression {
    Expression::BinOp(Box::new(BinOp { op, left: l, right: r }))
}

fn edges_of(g: &DepGraph) -> Vec<(i32, i32, Vec<(i32, DependencyType)>)> {
    g.edges
        .iter()
        .map(|e| (g.nodes[e.source], g.nodes[e.target], e.weight.iter().map(|l| (l.0, l.1)).collect()))
        .collect()
}

fn text(e: &Expression) -> String {
    let mut s = String::new();
    generate_expression(&Vec::new(), false, &mut s, e);
    s
}

const LOOP_IR: &str = "P a INT 1 1 10 b INT 1 1 10 STMTLIST \
    FOR @ 1 ENTRY i EXPR INT 1 EXPR VAR ENTRY N STMTLIST \
    ASSIGN @ 2 VAR ENTRY a EXPRLIST EXPR VAR ENTRY i /EXPRLIST \
    EXPR BINOP + EXPR VAR ENTRY b EXPRLIST EXPR VAR ENTRY i /EXPRLIST EXPR INT 1 \
    /STMTLIST /STMTLIST";

#[test]
fn scalar_flow_dependence() {
    let g = find_dependencies(&lines(&["001 a DEF", "002 a USE", "002 a DEF"])).unwrap();
    assert_eq!(g.nodes, vec![1, 2]);
    assert_eq!(edges_of(&g), vec![(1, 2, vec![(0, DependencyType::True), (0, DependencyType::Output)])]);
    let dot = print_graph(&g);
    assert!(dot.contains("s1 -> s2 [label=\" T0 O0\"];"));
    assert!(!dot.contains("s2 -> s2"));
}

#[test]
fn output_dependence() {
    let g = find_dependencies(&lines(&["001 a DEF", "002 a DEF"])).unwrap();
    assert_eq!(edges_of(&g), vec![(1, 2, vec![(0, DependencyType::Output)])]);
    assert!(print_graph(&g).contains("s1 -> s2 [label=\" O0\"];"));
}

#[test]
fn single_loop_without_carry() {
    let trace = lines(&[
        "1 i loop begin", "1 i 1", "002 a DEF 1", "002 b USE 1", "1 i 2", "002 a DEF 2", "002 b USE 2",
        "1 i 3", "002 a DEF 3", "002 b USE 3", "1 i loop end",
    ]);
    let g = find_dependencies(&trace).unwrap();
    assert_eq!(g.nodes, vec![2]);
    assert!(g.edges.is_empty());
    let ast = parse_ast(LOOP_IR).unwrap();
    let out = vectorize(&g, &ast, true).unwrap();
    assert!(out.contains("002 a(1:N) = b(1:N)+1\n"));
    assert!(!out.contains("do "));
}

fn carried_ast() -> Ast {
    // do i = 1, N: a(i) = a(i-1) + 1
    let body = Statement::Assignment(Assign {
        label: 1,
        lhs: elem("a", vec![var("i")]),
        rhs: bin(OpType::Plus, Expression::Variable(elem("a", vec![bin(OpType::Minus, var("i"), lit(1))])), lit(1)),
    });
    Ast {
        name: "P".to_string(),
        vardef: vec![Definition { name: "a".to_string(), dimensions: vec![(0, 10)], dtype: DefinitionType::Integer }],
        statements: StatementList(vec![Statement::Loop(Loop {
            label: 10,
            var: "i".to_string(),
            lower: lit(1),
            upper: var("N"),
            statements: StatementList(vec![body]),
        })]),
    }
}

#[test]
fn loop_carried_true_dependence() {
    let trace = lines(&[
        "10 i loop begin", "10 i 1", "001 a DEF 1", "001 a USE 0", "10 i 2", "001 a DEF 2", "001 a USE 1",
        "10 i 3", "001 a DEF 3", "001 a USE 2", "10 i loop end",
    ]);
    let g = find_dependencies(&trace).unwrap();
    assert_eq!(edges_of(&g), vec![(1, 1, vec![(1, DependencyType::True)])]);
    let out = vectorize(&g, &carried_ast(), false).unwrap();
    assert!(out.contains("    do i = 1, N\n001     a(i) = a(i-1)+1\n    end do\n"));
}

#[test]
fn nested_loops_carry_at_level_two() {
    let trace = lines(&[
        "10 i loop begin", "10 i 1", "11 j loop begin", "11 j 1", "001 a DEF 1 1", "001 a USE 1 0", "11 j 2",
        "001 a DEF 1 2", "001 a USE 1 1", "11 j loop end", "10 i 2", "11 j loop begin", "11 j 1",
        "001 a DEF 2 1", "001 a USE 2 0", "11 j 2", "001 a DEF 2 2", "001 a USE 2 1", "11 j loop end",
        "10 i loop end",
    ]);
    let g = find_dependencies(&trace).unwrap();
    assert_eq!(edges_of(&g), vec![(1, 1, vec![(2, DependencyType::True)])]);
    let inner = Statement::Loop(Loop {
        label: 11,
        var: "j".to_string(),
        lower: lit(1),
        upper: var("N"),
        statements: StatementList(vec![Statement::Assignment(Assign {
            label: 1,
            lhs: elem("a", vec![var("i"), var("j")]),
            rhs: Expression::Variable(elem("a", vec![var("i"), bin(OpType::Minus, var("j"), lit(1))])),
        })]),
    });
    let ast = Ast {
        name: "P".to_string(),
        vardef: Vec::new(),
        statements: StatementList(vec![Statement::Loop(Loop {
            label: 10,
            var: "i".to_string(),
            lower: lit(1),
            upper: var("N"),
            statements: StatementList(vec![inner]),
        })]),
    };
    let out = vectorize(&g, &ast, false).unwrap();
    assert!(out.contains("    do i = 1, N\n        do j = 1, N\n001         a(i,j) = a(i,j-1)\n        end do\n    end do\n"));
}

fn shifted_ast(lower: Expression, upper: Expression) -> Ast {
    Ast {
        name: "P".to_string(),
        vardef: Vec::new(),
        statements: StatementList(vec![Statement::Loop(Loop {
            label: 1,
            var: "i".to_string(),
            lower,
            upper,
            statements: StatementList(vec![Statement::Assignment(Assign {
                label: 2,
                lhs: elem("a", vec![bin(OpType::Plus, var("i"), lit(2))]),
                rhs: lit(0),
            })]),
        })]),
    }
}

fn one_node_graph() -> DepGraph {
    DepGraph { nodes: vec![2], edges: Vec::new() }
}

#[test]
fn index_folding() {
    let ast = shifted_ast(var("lb"), var("ub"));
    let folded = vectorize(&one_node_graph(), &ast, true).unwrap();
    assert!(folded.contains("002 a((lb+2):(ub+2)) = 0\n"));
    let plain = vectorize(&one_node_graph(), &ast, false).unwrap();
    assert!(plain.contains("002 a((lb+2):(ub+2)) = 0\n"));
    assert!(!plain.contains("do "));
    let ast = shifted_ast(lit(1), lit(8));
    let folded = vectorize(&one_node_graph(), &ast, true).unwrap();
    assert!(folded.contains("002 a(3:10) = 0\n"));
    let plain = vectorize(&one_node_graph(), &ast, false).unwrap();
    assert!(plain.contains("002 a((1+2):(8+2)) = 0\n"));
}

#[test]
fn substituted_operation_is_parenthesized() {
    let ast = shifted_ast(bin(OpType::Plus, var("m"), lit(1)), var("n"));
    let plain = vectorize(&one_node_graph(), &ast, false).unwrap();
    assert!(plain.contains("002 a(((m+1)+2):(n+2)) = 0\n"));
}

#[test]
fn folding_integer_examples() {
    assert!(matches!(fold_expr(&bin(OpType::Plus, lit(2), lit(3))), Expression::Integer(5)));
    let neg = Expression::UnOp(Box::new(UnOp { op: OpType::Minus, right: lit(7) }));
    assert!(matches!(fold_expr(&neg), Expression::Integer(-7)));
    assert!(matches!(fold_expr(&bin(OpType::Equal, lit(1), lit(1))), Expression::Integer(1)));
    assert!(matches!(fold_expr(&bin(OpType::Lower, lit(3), lit(1))), Expression::Integer(0)));
    assert!(matches!(fold_expr(&bin(OpType::Div, lit(7), lit(2))), Expression::Integer(3)));
    assert!(matches!(fold_expr(&bin(OpType::Div, lit(-7), lit(2))), Expression::Integer(-3)));
    assert!(matches!(fold_expr(&bin(OpType::And, lit(2), lit(0))), Expression::Integer(0)));
    assert!(matches!(fold_expr(&bin(OpType::Or, lit(2), lit(0))), Expression::Integer(1)));
    let not = Expression::UnOp(Box::new(UnOp { op: OpType::Not, right: lit(0) }));
    assert!(matches!(fold_expr(&not), Expression::Integer(1)));
}

#[test]
fn folding_keeps_division_by_zero() {
    let e = bin(OpType::Div, lit(1), lit(0));
    assert_eq!(text(&fold_expr(&e)), "1/0");
}

#[test]
fn folding_wraps_on_overflow() {
    assert!(matches!(fold_expr(&bin(OpType::Plus, lit(i32::MAX), lit(1))), Expression::Integer(i32::MIN)));
}

#[test]
fn folding_drops_parentheses_around_literals_only() {
    let e = Expression::Expression(Box::new(bin(OpType::Mul, lit(2), lit(3))));
    assert!(matches!(fold_expr(&e), Expression::Integer(6)));
    let e = Expression::Expression(Box::new(bin(OpType::Mul, var("x"), bin(OpType::Plus, lit(1), lit(1)))));
    assert_eq!(text(&fold_expr(&e)), "(x*2)");
}

#[test]
fn folding_is_idempotent_on_example() {
    let e = Expression::Variable(elem(
        "a",
        vec![bin(OpType::Plus, Expression::Expression(Box::new(bin(OpType::Minus, var("n"), lit(1)))), bin(OpType::Mul, lit(2), lit(4)))],
    ));
    let once = fold_expr(&e);
    let twice = fold_expr(&once);
    assert_eq!(text(&once), "a((n-1)+8)");
    assert_eq!(text(&once), text(&twice));
}

#[test]
fn expression_text() {
    let e = bin(OpType::GreaterEqual, Expression::Real("1.5".to_string()), bin(OpType::And, var("x"), lit(-3)));
    assert_eq!(text(&e), "1.5 >= x .and. -3");
    let bounds = vec![LoopBounds { var: "i".to_string(), lower: lit(1), upper: var("n") }];
    let mut s = String::new();
    generate_expression(&bounds, false, &mut s, &Expression::Variable(elem("a", vec![var("i"), var("k")])));
    assert_eq!(s, "a(1:n,k)");
    let mut s = String::new();
    let nested = Expression::Variable(elem("b", vec![var("i")]));
    generate_expression(&bounds, false, &mut s, &Expression::Variable(elem("a", vec![nested])));
    assert_eq!(s, "a(b(1):b(n))");
}

#[test]
fn instance_alignment() {
    let trace = lines(&["7 i loop begin", "7 i 4", "003 x USE", "8 j loop begin", "8 j 9", "003 x DEF", "8 j loop end", "003 x USE"]);
    let (instances, accesses) = read_trace(&trace).unwrap();
    assert_eq!(instances.len(), 2);
    for inst in instances.iter() {
        assert_eq!(inst.loops.len(), inst.iteration.len());
    }
    assert_eq!(instances[0].loops, vec![7]);
    assert_eq!(instances[0].iteration, vec![4]);
    assert_eq!(instances[1].loops, vec![7, 8]);
    assert_eq!(instances[1].iteration, vec![4, 9]);
    assert_eq!(accesses.iter().map(|a| a.instance).collect::<Vec<_>>(), vec![0, 1, 1]);
}

#[test]
fn same_statement_without_loop_update_shares_instance() {
    let (instances, accesses) = read_trace(&lines(&["005 a USE 1", "005 b DEF 2 3"])).unwrap();
    assert_eq!(instances.len(), 1);
    assert_eq!(accesses[1].indices, vec![2, 3]);
}

#[test]
fn bad_trace_line_is_reported() {
    let r = read_trace(&lines(&["001 a DEF", "this is no trace line"]));
    assert!(matches!(r, Err(TraceError::ParseAccessError(1))));
    assert!(matches!(find_dependencies(&lines(&["001 a DEF 1 x"])), Err(TraceError::ParseAccessError(0))));
}

#[test]
fn anti_dependence_and_levels_sorted() {
    let trace = lines(&[
        "10 i loop begin", "10 i 1", "001 a USE 1", "002 a DEF 1", "10 i 2", "001 a USE 1", "002 a DEF 1", "10 i loop end",
    ]);
    let g = find_dependencies(&trace).unwrap();
    let e = edges_of(&g);
    assert!(e.contains(&(1, 2, vec![(0, DependencyType::Anti)])));
    assert!(e.contains(&(2, 1, vec![(1, DependencyType::True)])));
    assert!(e.contains(&(2, 2, vec![(1, DependencyType::Output)])));
    for (_, _, w) in e.iter() {
        for k in 1..w.len() {
            assert!(w[k - 1].0 <= w[k].0);
        }
    }
}

#[test]
fn parse_program() {
    let ast = parse_ast(LOOP_IR).unwrap();
    assert_eq!(ast.name, "P");
    assert_eq!(ast.vardef.len(), 2);
    assert_eq!(ast.vardef[0].dimensions, vec![(1, 10)]);
    assert!(matches!(ast.vardef[0].dtype, DefinitionType::Integer));
    assert_eq!(ast.statements.0.len(), 1);
    match &ast.statements.0[0] {
        Statement::Loop(l) => {
            assert_eq!(l.label, 1);
            assert_eq!(l.var, "i");
            assert_eq!(l.statements.0.len(), 1);
        },
        _ => panic!("expected a loop"),
    }
}

#[test]
fn parse_if_and_scalar_definitions() {
    let ir = "Q x FLOAT y INT STMTLIST FOR @ 3 EXPR BINOP >= EXPR VAR ENTRY y EXPR INT 0 \
        STMTLIST ASSIGN @ 4 VAR ENTRY x EXPR FLOAT 2.5 /STMTLIST STMTLIST /STMTLIST /STMTLIST $";
    let ast = parse_ast(ir).unwrap();
    assert!(ast.vardef.iter().all(|d| d.dimensions.is_empty()));
    assert!(matches!(ast.vardef[0].dtype, DefinitionType::Real));
    match &ast.statements.0[0] {
        Statement::If(i) => {
            assert_eq!(i.label, 3);
            assert_eq!(text(&i.expr), "y >= 0");
            assert_eq!(i.then_branch.0.len(), 1);
            assert!(i.else_branch.0.is_empty());
        },
        _ => panic!("expected a conditional"),
    }
}

#[test]
fn parse_errors() {
    assert_eq!(parse_ast("").err().map(|e| e.token), Some(0));
    assert_eq!(parse_ast("P STMTLIST ASSIGN @ 1 VAR ENTRY a /STMTLIST").err().map(|e| e.token), Some(2));
    assert_eq!(parse_ast("P STMTLIST").err().map(|e| e.token), Some(2));
    assert_eq!(parse_ast("P x INT garbage").err().map(|e| e.token), Some(3));
    assert_eq!(parse_ast("P\u{e9} STMTLIST /STMTLIST").err().map(|e| e.token), Some(0));
}

#[test]
fn tracing_program() {
    let ast = carried_ast();
    let f90 = generate_trace(&ast);
    assert!(f90.starts_with("! Compilers for Parallel Systems\n"));
    assert!(f90.contains("program P\n\ninteger, dimension(0:10) :: a\n\n"));
    assert!(f90.contains("    write (*,'(a)')         ' 10 i loop begin'\n010 do i = 1, N\n"));
    assert!(f90.contains("        write (*,'(a,i0)')      ' 10 i ', i\n"));
    assert!(f90.contains("        write (*,'(a,1(x,i0))') ' 001 a DEF', i\n"));
    assert!(f90.contains("        write (*,'(a,1(x,i0))') ' 001 a USE', i-1\n"));
    assert!(!f90.contains("' 001 i USE'"));
    assert!(f90.contains("001     a(i) = a(i-1)+1\n    end do\n    write (*,'(a)')         ' 10 i loop end'\n"));
    assert!(f90.ends_with("\nend program P\n"));
}

#[test]
fn vectorize_reports_missing_statement() {
    let g = DepGraph { nodes: vec![9], edges: Vec::new() };
    assert!(matches!(vectorize(&g, &carried_ast(), false), Err(VectorizeError::MissingStatement(9))));
}

#[test]
fn vectorize_reports_missing_loop_level() {
    let g = DepGraph {
        nodes: vec![1],
        edges: vec![DepEdge { source: 0, target: 0, weight: vec![LevelDependency(0, DependencyType::True)] }],
    };
    let ast = Ast {
        name: "P".to_string(),
        vardef: Vec::new(),
        statements: StatementList(vec![Statement::Assignment(Assign { label: 1, lhs: elem("s", Vec::new()), rhs: var("s") })]),
    };
    assert!(matches!(vectorize(&g, &ast, false), Err(VectorizeError::NotEnoughLoops(1))));
}

#[test]
fn indentation_width() {
    assert_eq!(indentation(0), "");
    assert_eq!(indentation(2), "        ");
}

#[test]
fn vectorize_reports_statement_without_loop_list() {
    let g = DepGraph {
        nodes: vec![5],
        edges: vec![DepEdge { source: 0, target: 0, weight: vec![LevelDependency(1, DependencyType::True)] }],
    };
    let guarded = Statement::If(vectorizer::ir::If {
        label: 4,
        expr: var("c"),
        then_branch: StatementList(vec![Statement::Assignment(Assign { label: 5, lhs: elem("s", Vec::new()), rhs: lit(1) })]),
        else_branch: StatementList(Vec::new()),
    });
    let ast = Ast { name: "P".to_string(), vardef: Vec::new(), statements: StatementList(vec![guarded]) };
    assert!(matches!(vectorize(&g, &ast, false), Err(VectorizeError::MissingLoops(5))));
}

#[test]
fn empty_trace_gives_empty_graph() {
    let g = find_dependencies(&Vec::new()).unwrap();
    assert!(g.nodes.is_empty());
    assert!(g.edges.is_empty());
    assert_eq!(print_graph(&g), "digraph dependencies {\n}\n");
}

#[test]
fn dot_clusters_follow_components() {
    let g = find_dependencies(&lines(&["001 a DEF", "002 a USE", "002 b DEF", "001 b USE"])).unwrap();
    let dot = print_graph(&g);
    assert!(dot.starts_with("digraph dependencies {\n  subgraph cluster_0 {\n"));
    assert!(dot.contains("    s1 [label=\"S1\"];\n"));
    assert!(dot.contains("    s2 [label=\"S2\"];\n"));
    assert!(!dot.contains("cluster_1"));
    assert!(dot.contains("    graph[style=dotted];\n  }\n\n"));
    assert!(dot.ends_with("}\n"));
}

#[test]
fn acyclic_statements_in_source_order() {
    let g = find_dependencies(&lines(&["001 a DEF", "002 a USE", "002 b DEF"])).unwrap();
    let ast = Ast {
        name: "P".to_string(),
        vardef: Vec::new(),
        statements: StatementList(vec![
            Statement::Assignment(Assign { label: 1, lhs: elem("a", Vec::new()), rhs: lit(1) }),
            Statement::Assignment(Assign { label: 2, lhs: elem("b", Vec::new()), rhs: var("a") }),
        ]),
    };
    let out = vectorize(&g, &ast, true).unwrap();
    assert!(out.contains("\n001 a = 1\n002 b = a\n"));
    assert!(out.ends_with("\nend program P\n"));
}

#[test]
fn conditionals_are_counted_for_warnings() {
    let cond = |label: i32| {
        Statement::If(vectorizer::ir::If {
            label,
            expr: var("c"),
            then_branch: StatementList(Vec::new()),
            else_branch: StatementList(Vec::new()),
        })
    };
    let body = StatementList(vec![cond(3), Statement::Assignment(Assign { label: 4, lhs: elem("s", Vec::new()), rhs: lit(0) })]);
    let stmts = vec![
        cond(1),
        Statement::Loop(Loop { label: 2, var: "i".to_string(), lower: lit(1), upper: lit(2), statements: body }),
    ];
    assert_eq!(skipped_conditionals(&stmts), 2);
    assert_eq!(skipped_conditionals(&carried_ast().statements.0), 0);
}

#[test]
fn every_edge_carries_a_dependence() {
    let trace = lines(&[
        "10 i loop begin", "10 i 1", "001 a USE 1", "002 a DEF 1", "10 i 2", "001 a USE 1", "002 a DEF 1", "10 i loop end",
    ]);
    let g = find_dependencies(&trace).unwrap();
    assert_eq!(g.edges.len(), 3);
    assert!(g.edges.iter().all(|e| !e.weight.is_empty()));
}
