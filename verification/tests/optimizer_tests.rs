use scriptc::ast::{BinOp, Expr, Float, LogicalOp, Program, Stmt, StmtKind, UnaryOp};
use scriptc::lexer::Lexer;
use scriptc::optimizer::{fold_expr, optimize_program, optimize_stmt, optimize_stmts};
use scriptc::parser::Parser;

fn parse(source: &str) -> Program {
    let tokens = Lexer::new(source).tokenize().unwrap();
    Parser::new(tokens).parse_program().unwrap()
}

fn expr(source: &str) -> Expr {
    let mut program = parse(&format!("{};", source));
    match program.top_level.remove(0).kind {
        StmtKind::Expr(e) => e,
        other => panic!("{} is {:?}", source, other),
    }
}

fn folded(source: &str) -> Expr {
    fold_expr(&expr(source))
}

fn optimized(source: &str) -> Vec<Stmt> {
    optimize_stmts(&parse(source).top_level)
}

fn num(n: i32) -> Expr {
    Expr::Number(n)
}

fn flt(x: f32) -> Expr {
    Expr::Float(Float { bits: x.to_bits() })
}

fn id(name: &str) -> Expr {
    Expr::Identifier(name.to_string())
}

fn bin(l: Expr, op: BinOp, r: Expr) -> Expr {
    Expr::Binary(Box::new(l), op, Box::new(r))
}

#[test]
fn integer_arithmetic_is_folded() {
    assert_eq!(folded("2 + 3 * 4"), num(14));
    assert_eq!(folded("10 - 3 - 2"), num(5));
    assert_eq!(folded("7 / 2"), num(3));
    assert_eq!(folded("-7 / 2"), num(-3));
    assert_eq!(folded("7 / -2"), num(-3));
    assert_eq!(folded("7 % 3"), num(1));
    assert_eq!(folded("-7 % 3"), num(-1));
    assert_eq!(folded("7 % -3"), num(1));
    assert_eq!(folded("(1 + 2) * (3 + 4)"), num(21));
}

#[test]
fn integer_arithmetic_wraps() {
    assert_eq!(folded("2147483647 + 1"), num(i32::MIN));
    assert_eq!(folded("-2147483647 - 2"), num(i32::MAX));
    assert_eq!(folded("65536 * 65536"), num(0));
    assert_eq!(folded("-(-2147483647 - 1)"), num(i32::MIN));
    assert_eq!(folded("(-2147483647 - 1) % -1"), num(0));
    assert_eq!(folded("5 % -1"), num(0));
}

#[test]
fn division_that_would_trap_is_kept() {
    assert_eq!(folded("1 / 0"), bin(num(1), BinOp::Div, num(0)));
    assert_eq!(folded("1 % 0"), bin(num(1), BinOp::Mod, num(0)));
    assert_eq!(
        folded("(-2147483647 - 1) / -1"),
        bin(num(i32::MIN), BinOp::Div, num(-1))
    );
    assert_eq!(folded("(1 + 1) / (1 - 1)"), bin(num(2), BinOp::Div, num(0)));
}

#[test]
fn integer_comparisons_fold_to_zero_or_one() {
    assert_eq!(folded("1 == 1"), num(1));
    assert_eq!(folded("1 == 2"), num(0));
    assert_eq!(folded("1 != 2"), num(1));
    assert_eq!(folded("1 < 2"), num(1));
    assert_eq!(folded("2 < 1"), num(0));
    assert_eq!(folded("2 > 1"), num(1));
    assert_eq!(folded("2 <= 2"), num(1));
    assert_eq!(folded("3 <= 2"), num(0));
    assert_eq!(folded("2 >= 3"), num(0));
    assert_eq!(folded("-1 < 1"), num(1));
}

#[test]
fn float_arithmetic_is_folded() {
    assert_eq!(folded("1.5 + 2.25"), flt(3.75));
    assert_eq!(folded("1.5 - 2.25"), flt(-0.75));
    assert_eq!(folded("1.5 * 2.0"), flt(3.0));
    assert_eq!(folded("1.0 / 3.0"), flt(1.0 / 3.0));
    assert_eq!(folded("0.1 + 0.2"), flt(0.1f32 + 0.2f32));
    assert_eq!(folded("-(1.5)"), flt(-1.5));
    assert_eq!(folded("-(0.0)"), flt(-0.0));
}

#[test]
fn float_comparisons_fold_to_integers() {
    assert_eq!(folded("1.5 < 2.5"), num(1));
    assert_eq!(folded("1.5 > 2.5"), num(0));
    assert_eq!(folded("1.5 == 1.5"), num(1));
    assert_eq!(folded("1.5 != 1.5"), num(0));
    assert_eq!(folded("0.0 == -(0.0)"), num(1));
    assert_eq!(folded("16777216.0 == 16777217.0"), num(1));
    assert_eq!(folded("1.5 <= 1.5"), num(1));
    assert_eq!(folded("1.5 >= 2.5"), num(0));
}

#[test]
fn float_results_that_are_not_finite_are_folded() {
    assert_eq!(folded("1.0 / 0.0"), flt(f32::INFINITY));
    assert_eq!(folded("-(1.0) / 0.0"), flt(f32::NEG_INFINITY));
    assert_eq!(folded("3e38 + 3e38"), flt(f32::INFINITY));
    assert_eq!(folded("3e38 * -(10.0)"), flt(f32::NEG_INFINITY));
    assert_eq!(folded("0.0 / 0.0"), Expr::Float(Float { bits: 0x7FC0_0000 }));
    assert_eq!(folded("1.0 / 0.0 - 1.0 / 0.0"), Expr::Float(Float { bits: 0x7FC0_0000 }));
    assert_eq!(folded("1.0 / 0.0 * 0.0"), Expr::Float(Float { bits: 0x7FC0_0000 }));
    assert_eq!(folded("1.0 / (1.0 / 0.0)"), flt(0.0));
    assert_eq!(folded("1.0 / 0.0 + 1.0"), flt(f32::INFINITY));
    assert_eq!(folded("0.0 / 0.0 == 0.0 / 0.0"), num(0));
    assert_eq!(folded("0.0 / 0.0 != 0.0 / 0.0"), num(1));
    assert_eq!(folded("1.0 / 0.0 > 3e38"), num(1));
    assert_eq!(folded("!(0.0 / 0.0)"), num(0));
}

#[test]
fn float_remainder_is_kept() {
    assert_eq!(folded("5.5 % 2.0"), bin(flt(5.5), BinOp::Mod, flt(2.0)));
}

#[test]
fn operands_of_different_types_are_kept() {
    assert_eq!(folded("1 + 2.0"), bin(num(1), BinOp::Add, flt(2.0)));
    assert_eq!(folded("2.0 < 3"), bin(flt(2.0), BinOp::Lt, num(3)));
    assert_eq!(folded("1 + 1 + 2.0"), bin(num(2), BinOp::Add, flt(2.0)));
}

#[test]
fn logical_not() {
    assert_eq!(folded("!0"), num(1));
    assert_eq!(folded("!5"), num(0));
    assert_eq!(folded("!0.0"), num(1));
    assert_eq!(folded("!-(0.0)"), num(1));
    assert_eq!(folded("!2.5"), num(0));
    assert_eq!(folded("!!7"), num(1));
    assert_eq!(folded("!x"), Expr::Unary(UnaryOp::Not, Box::new(id("x"))));
    assert_eq!(folded("-x"), Expr::Unary(UnaryOp::Neg, Box::new(id("x"))));
}

#[test]
fn operands_are_folded_where_the_operator_is_not() {
    assert_eq!(folded("x + 2 * 3"), bin(id("x"), BinOp::Add, num(6)));
    assert_eq!(folded("f(1 + 1, 2.0 * 2.0)"), Expr::Call("f".to_string(), vec![num(2), flt(4.0)]));
    assert_eq!(
        folded("1 + 1 && 0 * 5"),
        Expr::Logical(Box::new(num(2)), LogicalOp::And, Box::new(num(0)))
    );
    assert_eq!(
        folded("1 || 2"),
        Expr::Logical(Box::new(num(1)), LogicalOp::Or, Box::new(num(2)))
    );
}

#[test]
fn if_with_literal_condition_becomes_a_branch() {
    assert_eq!(optimized("if (1) a; else b;"), parse("a;").top_level);
    assert_eq!(optimized("if (0) a; else b;"), parse("b;").top_level);
    assert_eq!(optimized("if (2 - 2) a; else b;"), parse("b;").top_level);
    assert_eq!(optimized("if (0.0) a; else b;"), parse("b;").top_level);
    assert_eq!(optimized("if (0.5) a; else b;"), parse("a;").top_level);
    assert_eq!(optimized("if (0) a;"), parse("{ }").top_level);
    assert_eq!(optimized("if (1) if (0) a; else b;"), parse("b;").top_level);
    assert_eq!(optimized("if (x) a; else b;"), parse("if (x) a; else b;").top_level);
    assert_eq!(optimized("if (x) { 1 + 1; }"), parse("if (x) { 2; }").top_level);
}

#[test]
fn replaced_statement_keeps_the_line_of_the_branch() {
    assert_eq!(
        optimized("if (1)\n\n  a;"),
        vec![Stmt { kind: StmtKind::Expr(id("a")), line: 3 }]
    );
    assert_eq!(
        optimized("\nif (0)\n a;"),
        vec![Stmt { kind: StmtKind::Block(vec![]), line: 2 }]
    );
}

#[test]
fn loops_that_never_run_are_removed() {
    assert_eq!(optimized("while (0) a;"), parse("{ }").top_level);
    assert_eq!(optimized("while (1 < 0) a;"), parse("{ }").top_level);
    assert_eq!(optimized("while (0.0) a;"), parse("{ }").top_level);
    assert_eq!(optimized("while (1) a;"), parse("while (1) a;").top_level);
    assert_eq!(optimized("while (x) { 1 + 2; }"), parse("while (x) { 3; }").top_level);
    assert_eq!(optimized("for (let i = 1 + 1; 0; i = i + 1) a;"), parse("let i = 2;").top_level);
    assert_eq!(optimized("for (; 0; ) a;"), parse("{ }").top_level);
    assert_eq!(
        optimized("for (let i = 0; i < 1 + 2; i = i + (1 + 0)) { 2 * 2; }"),
        parse("for (let i = 0; i < 3; i = i + 1) { 4; }").top_level
    );
    assert_eq!(optimized("for (;;) a;"), parse("for (;;) a;").top_level);
}

#[test]
fn nothing_follows_a_return() {
    assert_eq!(optimized("a; return 1; b; return 2;"), parse("a; return 1;").top_level);
    assert_eq!(optimized("if (1) return 1; b;"), parse("return 1;").top_level);
    assert_eq!(optimized("{ return 1; b; } c;"), parse("{ return 1; } c;").top_level);
    assert_eq!(
        optimized("if (x) { return 1; b; } c;"),
        parse("if (x) { return 1; } c;").top_level
    );
    assert_eq!(optimized("while (x) { return 1; b; }"), parse("while (x) { return 1; }").top_level);
}

#[test]
fn declarations_and_assignments_are_folded() {
    assert_eq!(
        optimized("let a = 1 + 1; const b = 2 * 2; a = 3 - 1; return 4 / 2;"),
        parse("let a = 2; const b = 4; a = 2; return 2;").top_level
    );
}

#[test]
fn optimizing_twice_changes_nothing() {
    for source in [
        "function f(x) { if (1) { return 2 + 3 * 4; } else { return x; } x = 1; }\nlet y = f(1 + 1);\nwhile (0) y = 1;\nfor (let i = 0; 0; i = i + 1) y = 2;\nif (y) { return 1.5 + 2.5; y; }",
        "if (1) if (0) a; else if (1 - 1) b; else { return 1; c; }",
        "let a = 1 / 0 + 2 * 3; let b = 1.0 / 0.0; let c = !(1 < 2) && 3; let d = 0.0 / 0.0 + b;",
    ] {
        let mut once = parse(source);
        optimize_program(&mut once);
        let mut twice = once.clone();
        optimize_program(&mut twice);
        assert_eq!(once, twice, "{}", source);
    }
}

#[test]
fn program_functions_are_optimized_and_kept() {
    let mut program = parse("function f(a, b) { return 1 + 1; a; }\nfunction g() { }\n1 + 2;");
    optimize_program(&mut program);
    assert_eq!(program, parse("function f(a, b) { return 2; }\nfunction g() { }\n3;"));
}

#[test]
fn single_statement() {
    let program = parse("if (0) a; else return 2 + 2;");
    assert_eq!(
        optimize_stmt(&program.top_level[0]),
        Stmt { kind: StmtKind::Return(num(4)), line: 1 }
    );
}
