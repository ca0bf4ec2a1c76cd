use scriptc::ast::{BinOp, Expr, Float, Program, Stmt, StmtKind, Type};
use scriptc::error::ErrorType;
use scriptc::lexer::Lexer;
use scriptc::parser::Parser;
use scriptc::semantic::SemanticAnalyzer;

fn parse(source: &str) -> Program {
    let tokens = Lexer::new(source).tokenize().unwrap();
    Parser::new(tokens).parse_program().unwrap()
}

fn analyzed(source: &str) -> Program {
    let mut program = parse(source);
    match SemanticAnalyzer::new().analyze(&mut program) {
        Ok(()) => program,
        Err(e) => panic!("{} was rejected: {}", source, e.to_string()),
    }
}

fn rejected(source: &str) -> (usize, String) {
    let mut program = parse(source);
    let before = parse(source);
    let e = SemanticAnalyzer::new().analyze(&mut program).unwrap_err();
    assert_eq!(e.error_type, ErrorType::SemanticError);
    assert_eq!(program, before, "a rejected program must be left as it was");
    (e.line, e.message)
}

fn signature(program: &Program, index: usize) -> (Vec<Type>, Type) {
    let f = &program.functions[index];
    (f.param_types.clone().unwrap(), f.return_type.unwrap())
}

#[test]
fn uncalled_function_has_integer_parameters() {
    let program = analyzed("function f(a, b, c) { return a; }");
    assert_eq!(signature(&program, 0), (vec![Type::I, Type::I, Type::I], Type::I));
}

#[test]
fn function_without_return_yields_an_integer() {
    let program = analyzed("function f() { } function g(x) { x; }");
    assert_eq!(signature(&program, 0), (vec![], Type::I));
    assert_eq!(signature(&program, 1), (vec![Type::I], Type::I));
}

#[test]
fn first_call_decides_the_parameter_types() {
    let program = analyzed("function f(a, b) { return a + b; }\nf(1, 2.5);\nf(3, 4.5);");
    assert_eq!(signature(&program, 0), (vec![Type::I, Type::F], Type::F));
    let program = analyzed("function f(a, b) { return a < b; }\nf(1.5, 2.5);");
    assert_eq!(signature(&program, 0), (vec![Type::F, Type::F], Type::I));
    let program = analyzed("function f(a) { return -a; }\nf(1.5);");
    assert_eq!(signature(&program, 0), (vec![Type::F], Type::F));
    let program = analyzed("function f(a) { return !a; }\nf(1.5);");
    assert_eq!(signature(&program, 0), (vec![Type::F], Type::I));
    let program = analyzed("function f(a) { return a && 1; }\nf(1.5);");
    assert_eq!(signature(&program, 0), (vec![Type::F], Type::F));
}

#[test]
fn return_type_follows_from_literals() {
    let program = analyzed("function f() { return 1.5; } function g() { return 1; }");
    assert_eq!(signature(&program, 0), (vec![], Type::F));
    assert_eq!(signature(&program, 1), (vec![], Type::I));
}

#[test]
fn call_inside_a_function_fixes_nothing() {
    let program = analyzed("function g(x) { g(1.0); }");
    assert_eq!(signature(&program, 0), (vec![Type::I], Type::I));
    let program = analyzed("function f(x) { return x; }\nfunction g() { return f(1.5); }");
    assert_eq!(signature(&program, 0), (vec![Type::I], Type::I));
    assert_eq!(signature(&program, 1), (vec![], Type::I));
    let program = analyzed("function fact(n) { if (n <= 1) return 1; return fact(n - 1) * n; }");
    assert_eq!(signature(&program, 0), (vec![Type::I], Type::I));
}

#[test]
fn call_outside_of_functions_is_the_first_to_fix_types() {
    let program =
        analyzed("function f(x) { return x; }\nfunction g() { return f(1); }\nf(1.5);");
    assert_eq!(signature(&program, 0), (vec![Type::F], Type::F));
    // `g` is not called from outside of functions: it is not analyzed
    // again, and keeps what the first pass found.
    assert_eq!(signature(&program, 1), (vec![], Type::I));
}

#[test]
fn only_functions_with_fixed_types_are_analyzed_again() {
    // With a float `x` the remainder in `f` is an error; `g` has the same
    // body and is never called.
    assert_eq!(
        rejected("function g(x) { return x % 2; }\nfunction f(x) { return x % 2; }\nf(1.5);"),
        (2, "Modulo requires integer operands".to_string())
    );
    let program = analyzed("function g(x) { return x % 2; }\nfunction f(x) { return x; }\nf(1.5);");
    assert_eq!(signature(&program, 0), (vec![Type::I], Type::I));
    assert_eq!(signature(&program, 1), (vec![Type::F], Type::F));
}

#[test]
fn call_in_a_function_must_agree_with_fixed_types() {
    // `g` is called from outside, so it is analyzed again, after the
    // types of `f` are fixed.
    assert_eq!(
        rejected("function f(x) { return x; }\nfunction g() {\n return f(1);\n}\nf(1.5);\ng();"),
        (3, "Argument types do not match earlier use of 'f'".to_string())
    );
    assert_eq!(
        rejected("function f(x) { return x; }\nfunction g() { return f(1, 2); }"),
        (2, "Wrong number of arguments in call to 'f'".to_string())
    );
}

#[test]
fn later_call_must_agree_with_the_first() {
    assert_eq!(
        rejected("function f(x) { return x; }\nf(1);\n\nf(1.0);"),
        (4, "Argument types do not match earlier use of 'f'".to_string())
    );
    assert_eq!(
        rejected("function f(x, y) { return x; }\nf(1, 2.0);\nf(1.0, 2);").0,
        3
    );
}

#[test]
fn number_of_arguments_must_match() {
    assert_eq!(
        rejected("function f(x) { return x; }\nf(1, 2);"),
        (2, "Wrong number of arguments in call to 'f'".to_string())
    );
    assert_eq!(rejected("function f(x) { return x; }\nf();").0, 2);
}

#[test]
fn names_must_be_defined() {
    assert_eq!(rejected("x + 1;"), (1, "Undefined variable 'x'".to_string()));
    assert_eq!(rejected("\nx = 1;"), (2, "Undefined variable 'x'".to_string()));
    assert_eq!(rejected("f();"), (1, "Undefined function 'f'".to_string()));
    assert_eq!(rejected("let f = 1; f();"), (1, "Undefined function 'f'".to_string()));
    assert_eq!(rejected("let x = x;"), (1, "Undefined variable 'x'".to_string()));
    assert_eq!(
        rejected("function f() { }\nlet y = f;"),
        (2, "Function used as a value: 'f'".to_string())
    );
}

#[test]
fn variables_shadow_functions() {
    analyzed("function f() { return 1; } let f = 2; f + 1;");
}

#[test]
fn parameters_are_in_scope() {
    analyzed("function f(a, b) { let c = a + b; return c; }");
    assert_eq!(rejected("function f(a) { return b; }").0, 1);
}

#[test]
fn top_level_variables_are_not_visible_in_functions() {
    assert_eq!(
        rejected("let g = 1;\nfunction f() {\n return g;\n}"),
        (3, "Undefined variable 'g'".to_string())
    );
}

#[test]
fn blocks_and_for_loops_have_scopes() {
    analyzed("let x = 1; { let y = x; y = 2; } x = 3;");
    analyzed("{ let x = 1; { let x = 1.5; x = 2.5; } x = 2; }");
    assert_eq!(rejected("{ let y = 1; }\ny;").0, 2);
    analyzed("for (let i = 0; i < 3; i = i + 1) { i; }");
    assert_eq!(rejected("for (let i = 0; i < 3; i = i + 1) { }\ni;").0, 2);
    analyzed("if (1) let x = 1; x;");
}

#[test]
fn later_declaration_replaces_the_earlier() {
    analyzed("let x = 1; let x = 1.5; x = 2.5;");
    assert_eq!(rejected("let x = 1; let x = 1.5; x = 2;").0, 1);
    assert_eq!(rejected("let x = 1; const x = 2; x = 3;").0, 1);
}

#[test]
fn constants_cannot_be_assigned() {
    assert_eq!(
        rejected("const x = 1;\nx = 2;"),
        (2, "Cannot reassign const variable 'x'".to_string())
    );
    assert_eq!(rejected("for (const i = 0; i < 3; i = i + 1) { }").0, 1);
}

#[test]
fn assignment_keeps_the_type() {
    assert_eq!(
        rejected("let x = 1;\nx = 1.0;"),
        (2, "Type mismatch in assignment to 'x'".to_string())
    );
    assert_eq!(rejected("let x = 1.5; x = 1;").0, 1);
    analyzed("let x = 1.5; x = 1 + 0.5;");
}

#[test]
fn remainder_needs_integers() {
    assert_eq!(rejected("1.5 % 2;"), (1, "Modulo requires integer operands".to_string()));
    assert_eq!(rejected("1 % 2.5;").0, 1);
    assert_eq!(rejected("function f(x) { return x % 2; }\nf(1.5);").0, 1);
    analyzed("function f(x) { return x % 2; }\nf(3);");
}

#[test]
fn jumps_need_a_loop() {
    assert_eq!(rejected("break;"), (1, "Break statement outside of loop".to_string()));
    assert_eq!(rejected("continue;"), (1, "Continue statement outside of loop".to_string()));
    assert_eq!(rejected("while (1) { } break;").0, 1);
    assert_eq!(rejected("function f() { while (1) { } continue; }").0, 1);
    analyzed("while (1) { if (1) { break; } else continue; }");
    analyzed("for (;;) { while (1) { break; } continue; }");
    analyzed("for (;;) break;");
}

#[test]
fn loop_context_ends_with_the_function() {
    assert_eq!(rejected("function f() { break; }\nwhile (1) { f(); }").0, 1);
}

#[test]
fn returns_of_a_function_agree() {
    assert_eq!(
        rejected("function f(x) {\n if (x) { return 1; }\n while (x) { return 2.5; }\n}"),
        (3, "Inconsistent return types".to_string())
    );
    analyzed("function f(x) { if (x) return 1.5; for (;;) { return 2.5; } }");
    analyzed("return 1; return 2.5;");
}

#[test]
fn call_yields_the_return_type() {
    analyzed("function f() { return 1.5; }\nlet x = f();\nx = 2.5;");
    assert_eq!(rejected("function f() { return 1.5; }\nlet x = f();\nx = 2;").0, 3);
    analyzed("function f() { }\nlet x = f();\nx = 2;");
}

#[test]
fn analyzer_can_be_used_again() {
    let mut analyzer = SemanticAnalyzer::new();
    let mut first = parse("function f(x) { return x; } let a = f(1.5);");
    analyzer.analyze(&mut first).unwrap();
    let mut second = parse("function g(x) { return x; } g(1);");
    analyzer.analyze(&mut second).unwrap();
    assert_eq!(second.functions[0].param_types, Some(vec![Type::I]));
    let mut third = parse("a;");
    assert!(analyzer.analyze(&mut third).is_err());
}

#[test]
fn function_called_only_from_functions_keeps_its_first_return_type() {
    let program = analyzed(
        "function f(x) { return x; }\nfunction g(y) { return f(y) + 0.5; }\nfunction h(z) { return f(z); }\nf(1.5);",
    );
    assert_eq!(signature(&program, 0), (vec![Type::F], Type::F));
    assert_eq!(signature(&program, 1), (vec![Type::I], Type::F));
    assert_eq!(signature(&program, 2), (vec![Type::I], Type::I));
}

#[test]
fn function_without_return_is_an_integer_whatever_it_is_called_with() {
    let program = analyzed("function h(a) { let b = a; }\nfunction k() { }\nlet c = h(1.5) + k();");
    assert_eq!(signature(&program, 0), (vec![Type::F], Type::I));
    assert_eq!(signature(&program, 1), (vec![], Type::I));
}

fn remainder(l: Expr, r: Expr) -> Expr {
    Expr::Binary(Box::new(l), BinOp::Mod, Box::new(r))
}

#[test]
fn remainder_of_an_expression_needs_integers() {
    let half = || Expr::Float(Float { bits: 0x3F00_0000 });
    let mut a = SemanticAnalyzer::new();
    assert_eq!(a.analyze_expr(&remainder(Expr::Number(7), Expr::Number(2)), 5), Ok(Type::I));
    for e in [
        remainder(half(), Expr::Number(2)),
        remainder(Expr::Number(2), half()),
        remainder(half(), half()),
    ] {
        let err = a.analyze_expr(&e, 5).unwrap_err();
        assert_eq!(err.error_type, ErrorType::SemanticError);
        assert_eq!(err.line, 5);
        assert_eq!(err.message, "Modulo requires integer operands");
    }
}

#[test]
fn statements_are_analyzed_in_the_state_left_by_those_before() {
    let mut a = SemanticAnalyzer::new();
    let declare = Stmt {
        kind: StmtKind::Let("x".to_string(), Expr::Float(Float { bits: 0x3F00_0000 })),
        line: 1,
    };
    let x = || Expr::Identifier("x".to_string());
    assert_eq!(a.analyze_expr(&x(), 1).unwrap_err().message, "Undefined variable 'x'");
    assert_eq!(a.analyze_stmt(&declare), Ok(()));
    assert_eq!(a.analyze_expr(&x(), 2), Ok(Type::F));
    let e = a.analyze_stmt(&Stmt { kind: StmtKind::Expr(remainder(x(), Expr::Number(2))), line: 3 });
    assert_eq!(e.unwrap_err().line, 3);
    let assign = Stmt { kind: StmtKind::Assign("x".to_string(), Expr::Number(1)), line: 4 };
    assert_eq!(
        a.analyze_stmt(&assign).unwrap_err().message,
        "Type mismatch in assignment to 'x'"
    );
    let jump = Stmt { kind: StmtKind::Break, line: 6 };
    assert_eq!(a.analyze_stmt(&jump).unwrap_err().line, 6);
    let looping = Stmt {
        kind: StmtKind::While(x(), Box::new(Stmt { kind: StmtKind::Break, line: 7 })),
        line: 7,
    };
    assert_eq!(a.analyze_stmt(&looping), Ok(()));
}
