use scriptc::ast::{BinOp, Expr, Float, Function, LogicalOp, Program, Stmt, StmtKind, UnaryOp};
use scriptc::error::ErrorType;
use scriptc::lexer::Lexer;
use scriptc::parser::Parser;
use scriptc::token::Token;

fn parse(source: &str) -> Program {
    let tokens = Lexer::new(source).tokenize().unwrap();
    match Parser::new(tokens).parse_program() {
        Ok(p) => p,
        Err(e) => panic!("{} did not parse: {}", source, e.to_string()),
    }
}

fn parse_error(source: &str) -> (usize, String) {
    let tokens = Lexer::new(source).tokenize().unwrap();
    let e = Parser::new(tokens).parse_program().unwrap_err();
    assert_eq!(e.error_type, ErrorType::ParserError);
    (e.line, e.message)
}

fn expr(source: &str) -> Expr {
    let mut program = parse(&format!("{};", source));
    assert_eq!(program.top_level.len(), 1);
    match program.top_level.remove(0).kind {
        StmtKind::Expr(e) => e,
        other => panic!("{} is {:?}", source, other),
    }
}

fn num(n: i32) -> Expr {
    Expr::Number(n)
}

fn id(name: &str) -> Expr {
    Expr::Identifier(name.to_string())
}

fn bin(l: Expr, op: BinOp, r: Expr) -> Expr {
    Expr::Binary(Box::new(l), op, Box::new(r))
}

fn log(l: Expr, op: LogicalOp, r: Expr) -> Expr {
    Expr::Logical(Box::new(l), op, Box::new(r))
}

fn un(op: UnaryOp, x: Expr) -> Expr {
    Expr::Unary(op, Box::new(x))
}

fn stmt(kind: StmtKind, line: usize) -> Stmt {
    Stmt { kind, line }
}

#[test]
fn empty_program() {
    assert_eq!(parse(""), Program { functions: vec![], top_level: vec![] });
}

#[test]
fn multiplication_binds_tighter_than_addition() {
    assert_eq!(expr("1 + 2 * 3"), bin(num(1), BinOp::Add, bin(num(2), BinOp::Mul, num(3))));
    assert_eq!(expr("1 * 2 + 3"), bin(bin(num(1), BinOp::Mul, num(2)), BinOp::Add, num(3)));
    assert_eq!(expr("(1 + 2) * 3"), bin(bin(num(1), BinOp::Add, num(2)), BinOp::Mul, num(3)));
}

#[test]
fn binary_operators_group_to_the_left() {
    assert_eq!(expr("1 - 2 - 3"), bin(bin(num(1), BinOp::Sub, num(2)), BinOp::Sub, num(3)));
    assert_eq!(expr("8 / 4 / 2"), bin(bin(num(8), BinOp::Div, num(4)), BinOp::Div, num(2)));
    assert_eq!(expr("8 % 5 * 2"), bin(bin(num(8), BinOp::Mod, num(5)), BinOp::Mul, num(2)));
    assert_eq!(
        expr("a || b || c"),
        log(log(id("a"), LogicalOp::Or, id("b")), LogicalOp::Or, id("c"))
    );
}

#[test]
fn precedence_from_or_down_to_unary() {
    assert_eq!(
        expr("a || b && c == d < e + f * -g"),
        log(
            id("a"),
            LogicalOp::Or,
            log(
                id("b"),
                LogicalOp::And,
                bin(
                    id("c"),
                    BinOp::Eq,
                    bin(
                        id("d"),
                        BinOp::Lt,
                        bin(
                            id("e"),
                            BinOp::Add,
                            bin(id("f"), BinOp::Mul, un(UnaryOp::Neg, id("g")))
                        )
                    )
                )
            )
        )
    );
    assert_eq!(expr("a != b"), bin(id("a"), BinOp::Ne, id("b")));
    assert_eq!(expr("a > b"), bin(id("a"), BinOp::Gt, id("b")));
    assert_eq!(expr("a <= b"), bin(id("a"), BinOp::Le, id("b")));
    assert_eq!(expr("a >= b"), bin(id("a"), BinOp::Ge, id("b")));
    assert_eq!(
        expr("a < b == c < d"),
        bin(bin(id("a"), BinOp::Lt, id("b")), BinOp::Eq, bin(id("c"), BinOp::Lt, id("d")))
    );
}

#[test]
fn prefix_operators_nest_to_the_right() {
    assert_eq!(expr("-!-x"), un(UnaryOp::Neg, un(UnaryOp::Not, un(UnaryOp::Neg, id("x")))));
    assert_eq!(expr("-1 - -2"), bin(un(UnaryOp::Neg, num(1)), BinOp::Sub, un(UnaryOp::Neg, num(2))));
}

#[test]
fn calls_and_literals() {
    assert_eq!(expr("f()"), Expr::Call("f".to_string(), vec![]));
    assert_eq!(
        expr("f(1, g(x), 2.5)"),
        Expr::Call(
            "f".to_string(),
            vec![
                num(1),
                Expr::Call("g".to_string(), vec![id("x")]),
                Expr::Float(Float { bits: 2.5f32.to_bits() })
            ]
        )
    );
}

#[test]
fn statements() {
    let program = parse(
        "let a = 1;\nconst b = 2;\na = 3;\nif (a) b; else { a; }\nwhile (a) a = a - 1;\nreturn a;\n{ }\nf(a);",
    );
    assert!(program.functions.is_empty());
    assert_eq!(
        program.top_level,
        vec![
            stmt(StmtKind::Let("a".to_string(), num(1)), 1),
            stmt(StmtKind::Const("b".to_string(), num(2)), 2),
            stmt(StmtKind::Assign("a".to_string(), num(3)), 3),
            stmt(
                StmtKind::If(
                    id("a"),
                    Box::new(stmt(StmtKind::Expr(id("b")), 4)),
                    Some(Box::new(stmt(
                        StmtKind::Block(vec![stmt(StmtKind::Expr(id("a")), 4)]),
                        4
                    )))
                ),
                4
            ),
            stmt(
                StmtKind::While(
                    id("a"),
                    Box::new(stmt(
                        StmtKind::Assign("a".to_string(), bin(id("a"), BinOp::Sub, num(1))),
                        5
                    ))
                ),
                5
            ),
            stmt(StmtKind::Return(id("a")), 6),
            stmt(StmtKind::Block(vec![]), 7),
            stmt(StmtKind::Expr(Expr::Call("f".to_string(), vec![id("a")])), 8),
        ]
    );
}

#[test]
fn else_belongs_to_the_nearest_if() {
    let program = parse("if (a) if (b) c; else d;");
    assert_eq!(
        program.top_level,
        vec![stmt(
            StmtKind::If(
                id("a"),
                Box::new(stmt(
                    StmtKind::If(
                        id("b"),
                        Box::new(stmt(StmtKind::Expr(id("c")), 1)),
                        Some(Box::new(stmt(StmtKind::Expr(id("d")), 1)))
                    ),
                    1
                )),
                None
            ),
            1
        )]
    );
}

#[test]
fn for_with_every_clause() {
    let program = parse("for (let i = 0; i < 3; i = i + 1) { break; continue; }");
    assert_eq!(
        program.top_level,
        vec![stmt(
            StmtKind::For(
                Some(Box::new(stmt(StmtKind::Let("i".to_string(), num(0)), 1))),
                Some(bin(id("i"), BinOp::Lt, num(3))),
                Some(Box::new(stmt(
                    StmtKind::Assign("i".to_string(), bin(id("i"), BinOp::Add, num(1))),
                    1
                ))),
                Box::new(stmt(
                    StmtKind::Block(vec![stmt(StmtKind::Break, 1), stmt(StmtKind::Continue, 1)]),
                    1
                ))
            ),
            1
        )]
    );
}

#[test]
fn for_clauses_are_optional() {
    assert_eq!(
        parse("for (;;) x;").top_level,
        vec![stmt(StmtKind::For(None, None, None, Box::new(stmt(StmtKind::Expr(id("x")), 1))), 1)]
    );
    assert_eq!(
        parse("for (const k = 1; ; f(k)) x;").top_level,
        vec![stmt(
            StmtKind::For(
                Some(Box::new(stmt(StmtKind::Const("k".to_string(), num(1)), 1))),
                None,
                Some(Box::new(stmt(
                    StmtKind::Expr(Expr::Call("f".to_string(), vec![id("k")])),
                    1
                ))),
                Box::new(stmt(StmtKind::Expr(id("x")), 1))
            ),
            1
        )]
    );
    assert_eq!(
        parse("for (i = 0; i; ) x;").top_level,
        vec![stmt(
            StmtKind::For(
                Some(Box::new(stmt(StmtKind::Assign("i".to_string(), num(0)), 1))),
                Some(id("i")),
                None,
                Box::new(stmt(StmtKind::Expr(id("x")), 1))
            ),
            1
        )]
    );
}

#[test]
fn functions_and_statements_may_alternate() {
    let program = parse("let a = 1;\nfunction f(x, y) {\n  return x;\n}\nf(a, a);\nfunction g() { }");
    assert_eq!(
        program.functions,
        vec![
            Function {
                name: "f".to_string(),
                params: vec!["x".to_string(), "y".to_string()],
                param_types: None,
                return_type: None,
                body: vec![stmt(StmtKind::Return(id("x")), 3)],
                line: 2,
            },
            Function {
                name: "g".to_string(),
                params: vec![],
                param_types: None,
                return_type: None,
                body: vec![],
                line: 6,
            },
        ]
    );
    assert_eq!(program.top_level.len(), 2);
    assert_eq!(program.top_level[1].line, 5);
}

#[test]
fn errors_name_what_was_expected_and_found() {
    assert_eq!(parse_error("let x = 1"), (1, "Expected Semicolon, got Eof".to_string()));
    assert_eq!(parse_error("let = 1;"), (1, "Expected identifier, got Eq".to_string()));
    assert_eq!(parse_error("let x 1;"), (1, "Expected Eq, got Number".to_string()));
    assert_eq!(parse_error("if x) y;"), (1, "Expected LParen, got Identifier".to_string()));
    assert_eq!(parse_error("while (x y;"), (1, "Expected RParen, got Identifier".to_string()));
    assert_eq!(parse_error("f(1, );"), (1, "Unexpected token in expression: RParen".to_string()));
    assert_eq!(parse_error("f(1 2);"), (1, "Expected RParen, got Number".to_string()));
    assert_eq!(parse_error("1 +;"), (1, "Unexpected token in expression: Semicolon".to_string()));
    assert_eq!(parse_error("return;"), (1, "Unexpected token in expression: Semicolon".to_string()));
    assert_eq!(parse_error("break"), (1, "Expected Semicolon, got Eof".to_string()));
    assert_eq!(parse_error("{ x;"), (1, "Unexpected token in expression: Eof".to_string()));
    assert_eq!(parse_error("3.foo;"), (1, "Expected Semicolon, got Dot".to_string()));
}

#[test]
fn function_errors() {
    assert_eq!(parse_error("function (x) { }"), (1, "Expected function name, got LParen".to_string()));
    assert_eq!(parse_error("function f(1) { }"), (1, "Expected parameter name, got Number".to_string()));
    assert_eq!(parse_error("function f(x,) { }"), (1, "Expected parameter name, got RParen".to_string()));
    assert_eq!(parse_error("function f(x y) { }"), (1, "Expected RParen, got Identifier".to_string()));
    assert_eq!(parse_error("function f() return 1;"), (1, "Expected LBrace, got Return".to_string()));
    assert_eq!(parse_error("function f() {\n x;\n"), (3, "Unexpected token in expression: Eof".to_string()));
}

#[test]
fn for_errors() {
    assert_eq!(parse_error("for (1; ; ) x;"), (1, "Unexpected token in for init: Number".to_string()));
    assert_eq!(parse_error("for (i; ; ) x;"), (1, "Expected Eq, got Semicolon".to_string()));
    assert_eq!(parse_error("for (;;"), (1, "Unexpected token in expression: Eof".to_string()));
    assert_eq!(parse_error("for (; ; i = 1 x;"), (1, "Expected RParen, got Identifier".to_string()));
}

#[test]
fn error_line_is_the_line_of_the_offending_token() {
    assert_eq!(parse_error("let x = 1;\nlet y = (2;\n").0, 2);
    assert_eq!(parse_error("let x = \n\n ;").0, 3);
}

#[test]
fn stream_without_end_marker_ends_at_its_end() {
    let tokens = vec![(Token::Number(1), 1), (Token::Semicolon, 1)];
    let program = Parser::new(tokens).parse_program().unwrap();
    assert_eq!(program.top_level, vec![stmt(StmtKind::Expr(num(1)), 1)]);
    let tokens = vec![(Token::Number(1), 4)];
    let e = Parser::new(tokens).parse_program().unwrap_err();
    assert_eq!((e.line, e.message), (0, "Expected Semicolon, got Eof".to_string()));
}

#[test]
fn clones_are_equal() {
    let program = parse("function f(x) { for (let i = 0; i < x; i = i + 1) { if (i) return f(i - 1); } return 0.5; }");
    let f = &program.functions[0];
    assert_eq!(&f.clone(), f);
    assert_eq!(f.body[0].clone(), f.body[0]);
    assert_eq!(f.body[0].kind.clone(), f.body[0].kind);
    let e = expr("f(a, -b) && !c");
    assert_eq!(e.clone(), e);
}
