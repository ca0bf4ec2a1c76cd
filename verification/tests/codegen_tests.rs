use scriptc::ast::{BinOp, Expr, Float, Function, Program, Stmt, StmtKind, Type};
use scriptc::codegen::CodeGen;
use scriptc::error::{CompilerError, ErrorType};
use scriptc::instr::{Instr, Label, LabelKind, Module};
use scriptc::lexer::Lexer;
use scriptc::parser::Parser;
use scriptc::semantic::SemanticAnalyzer;

fn parse(source: &str) -> Program {
    let tokens = Lexer::new(source).tokenize().unwrap();
    Parser::new(tokens).parse_program().unwrap()
}

fn module(source: &str) -> Module {
    let mut program = parse(source);
    SemanticAnalyzer::new().analyze(&mut program).unwrap();
    match CodeGen::new().emit_module(&program) {
        Ok(m) => m,
        Err(e) => panic!("{} was not emitted: {}", source, e.to_string()),
    }
}

fn codegen_error(source: &str) -> (usize, String) {
    let program = parse(source);
    let e = CodeGen::new().generate(&program).unwrap_err();
    assert_eq!(e.error_type, ErrorType::CodegenError);
    (e.line, e.message)
}

fn get(name: &str) -> Instr {
    Instr::LocalGet(name.to_string())
}

fn set(name: &str) -> Instr {
    Instr::LocalSet(name.to_string())
}

fn label(kind: LabelKind, id: usize) -> Label {
    Label { kind, id }
}

#[test]
fn entry_point_of_an_empty_program() {
    let m = module("");
    assert!(m.functions.is_empty());
    assert_eq!(m.start.result, Type::I);
    assert!(m.start.locals.is_empty());
    assert_eq!(m.start.body, vec![get("_result")]);
}

#[test]
fn expression_statement_outside_functions_sets_the_result() {
    let m = module("1 + 2;");
    assert_eq!(
        m.start.body,
        vec![
            Instr::Comment(1),
            Instr::I32Const(1),
            Instr::I32Const(2),
            Instr::Arith(BinOp::Add, Type::I),
            set("_result"),
            get("_result"),
        ]
    );
}

#[test]
fn expression_statement_inside_a_block_is_dropped() {
    let m = module("{ 1; }");
    assert_eq!(
        m.start.body,
        vec![Instr::Comment(1), Instr::Comment(1), Instr::I32Const(1), Instr::Drop, get("_result")]
    );
    let m = module("function f() { 1; }");
    assert_eq!(
        m.functions[0].body,
        vec![Instr::Comment(1), Instr::I32Const(1), Instr::Drop, Instr::I32Const(0)]
    );
}

#[test]
fn result_type_is_that_of_the_last_expression_statement() {
    assert_eq!(module("1; 2.5;").start.result, Type::F);
    assert_eq!(module("2.5; 1;").start.result, Type::I);
    assert_eq!(module("2.5; let x = 1.5;").start.result, Type::I);
    assert_eq!(module("let x = 1.5; x;").start.result, Type::F);
    assert_eq!(module("function f() { return 1.5; } f();").start.result, Type::F);
}

#[test]
fn locals_have_the_type_of_their_initializer() {
    let m = module("let a = 1; const b = 2.5; let c = a + b; { let d = a < b; } for (let e = b; 0; ) { let g = 1; }");
    assert_eq!(
        m.start.locals,
        vec![
            ("a".to_string(), Type::I),
            ("b".to_string(), Type::F),
            ("c".to_string(), Type::F),
            ("d".to_string(), Type::I),
            ("e".to_string(), Type::F),
            ("g".to_string(), Type::I),
        ]
    );
}

#[test]
fn parameters_are_not_locals() {
    let m = module("function f(a, b) { let c = a; let a = 2; return c; }\nf(1, 2.5);");
    let f = &m.functions[0];
    assert_eq!(f.name, "f");
    assert_eq!(f.line, 1);
    assert_eq!(f.params, vec![("a".to_string(), Type::I), ("b".to_string(), Type::F)]);
    assert_eq!(f.result, Type::I);
    assert_eq!(f.locals, vec![("c".to_string(), Type::I)]);
}

#[test]
fn every_local_is_set_in_the_body() {
    let m = module(
        "function f(n) { let a = n; if (n) { let b = 1.5; } else { const c = 2; } while (n) { let d = n; n = n - 1; } for (let e = 0; e < n; e = e + 1) { let g = e; } return a; }\nlet x = f(3); { let y = x; }",
    );
    let f = &m.functions[0];
    assert_eq!(f.locals.len(), 6);
    for (name, _) in &f.locals {
        assert!(f.body.contains(&set(name)), "no local.set of {}", name);
    }
    assert_eq!(m.start.locals.len(), 2);
    for (name, _) in &m.start.locals {
        assert!(m.start.body.contains(&set(name)), "no local.set of {}", name);
    }
}

#[test]
fn function_ends_with_its_default_result() {
    assert_eq!(module("function f() { }").functions[0].body, vec![Instr::I32Const(0)]);
    assert_eq!(
        module("function f() { return 1.5; }").functions[0].body,
        vec![
            Instr::Comment(1),
            Instr::F32Const(Float { bits: 1.5f32.to_bits() }),
            Instr::Return,
            Instr::F32Const(Float { bits: 0 }),
        ]
    );
}

#[test]
fn integer_operators() {
    for (source, op) in [
        ("a + b", BinOp::Add),
        ("a - b", BinOp::Sub),
        ("a * b", BinOp::Mul),
        ("a / b", BinOp::Div),
        ("a % b", BinOp::Mod),
        ("a == b", BinOp::Eq),
        ("a != b", BinOp::Ne),
        ("a < b", BinOp::Lt),
        ("a > b", BinOp::Gt),
        ("a <= b", BinOp::Le),
        ("a >= b", BinOp::Ge),
    ] {
        let m = module(&format!("let a = 1; let b = 2; {};", source));
        let n = m.start.body.len();
        assert_eq!(
            &m.start.body[n - 5..],
            &[get("a"), get("b"), Instr::Arith(op, Type::I), set("_result"), get("_result")]
        );
    }
}

#[test]
fn comparison_of_floats_yields_an_integer() {
    let m = module("let a = 1.5; let b = 2.5; let c = a < b; c = 1;");
    assert_eq!(m.start.locals[2], ("c".to_string(), Type::I));
    assert!(m.start.body.contains(&Instr::Arith(BinOp::Lt, Type::F)));
}

#[test]
fn while_loop_labels() {
    let m = module("let x = 1; while (x) { if (x) break; continue; }");
    let exit = label(LabelKind::Break, 0);
    let next = label(LabelKind::Continue, 0);
    assert_eq!(
        m.start.body,
        vec![
            Instr::Comment(1),
            Instr::I32Const(1),
            set("x"),
            Instr::Comment(1),
            Instr::Block(exit),
            Instr::Loop(next),
            get("x"),
            Instr::I32Eqz,
            Instr::BrIf(exit),
            Instr::Comment(1),
            Instr::Comment(1),
            get("x"),
            Instr::If,
            Instr::Comment(1),
            Instr::Br(exit),
            Instr::End,
            Instr::Comment(1),
            Instr::Br(next),
            Instr::Br(next),
            Instr::End,
            Instr::End,
            get("_result"),
        ]
    );
}

#[test]
fn float_loop_condition_is_compared_with_zero() {
    let m = module("let x = 1.5; while (x) { x = x - 1.0; }");
    let exit = label(LabelKind::Break, 0);
    let at = m.start.body.iter().position(|i| *i == Instr::BrIf(exit)).unwrap();
    assert_eq!(
        &m.start.body[at - 3..at],
        &[get("x"), Instr::F32Const(Float { bits: 0 }), Instr::Arith(BinOp::Eq, Type::F)]
    );
}

#[test]
fn for_loop_layout() {
    let m = module("for (let i = 0; i < 3; i = i + 1) { continue; }");
    let exit = label(LabelKind::Break, 0);
    let next = label(LabelKind::Continue, 0);
    let again = label(LabelKind::Loop, 0);
    assert_eq!(
        m.start.body,
        vec![
            Instr::Comment(1),
            Instr::Comment(1),
            Instr::I32Const(0),
            set("i"),
            Instr::Block(exit),
            Instr::Loop(again),
            get("i"),
            Instr::I32Const(3),
            Instr::Arith(BinOp::Lt, Type::I),
            Instr::I32Eqz,
            Instr::BrIf(exit),
            Instr::Block(next),
            Instr::Comment(1),
            Instr::Comment(1),
            Instr::Br(next),
            Instr::End,
            Instr::Comment(1),
            get("i"),
            Instr::I32Const(1),
            Instr::Arith(BinOp::Add, Type::I),
            set("i"),
            Instr::Br(again),
            Instr::End,
            Instr::End,
            get("_result"),
        ]
    );
}

#[test]
fn for_without_clauses() {
    let m = module("for (;;) break;");
    let exit = label(LabelKind::Break, 0);
    let next = label(LabelKind::Continue, 0);
    let again = label(LabelKind::Loop, 0);
    assert_eq!(
        m.start.body,
        vec![
            Instr::Comment(1),
            Instr::Block(exit),
            Instr::Loop(again),
            Instr::Block(next),
            Instr::Comment(1),
            Instr::Br(exit),
            Instr::End,
            Instr::Br(again),
            Instr::End,
            Instr::End,
            get("_result"),
        ]
    );
}

#[test]
fn loops_are_numbered_across_the_module() {
    let m = module("function f() { while (1) { while (1) { break; } break; } }\nfunction g() { for (;;) { break; } }\nwhile (1) { }");
    assert!(m.functions[0].body.contains(&Instr::Block(label(LabelKind::Break, 0))));
    assert!(m.functions[0].body.contains(&Instr::Block(label(LabelKind::Break, 1))));
    assert!(m.functions[1].body.contains(&Instr::Loop(label(LabelKind::Loop, 2))));
    assert!(m.start.body.contains(&Instr::Loop(label(LabelKind::Continue, 3))));
    let f = &m.functions[0].body;
    let inner_break = f.iter().position(|i| *i == Instr::Br(label(LabelKind::Break, 1))).unwrap();
    let outer_break = f.iter().position(|i| *i == Instr::Br(label(LabelKind::Break, 0))).unwrap();
    assert!(inner_break < outer_break);
}

#[test]
fn tail_call() {
    let m = module("function f(n) { return f(n - 1); }");
    assert_eq!(
        m.functions[0].body,
        vec![
            Instr::Comment(1),
            get("n"),
            Instr::I32Const(1),
            Instr::Arith(BinOp::Sub, Type::I),
            Instr::ReturnCall("f".to_string()),
            Instr::I32Const(0),
        ]
    );
    let m = module("function f(n) { return (f(n)); }");
    assert!(m.functions[0].body.contains(&Instr::ReturnCall("f".to_string())));
    let m = module("function f(n) { return -f(n); }");
    assert!(m.functions[0].body.contains(&Instr::Call("f".to_string())));
    assert!(m.functions[0].body.contains(&Instr::Return));
}

#[test]
fn short_circuit_of_floats() {
    let m = module("let a = 1; let b = 2.5; a && b; b || a;");
    let tee = Instr::LocalTee("_result".to_string());
    let first = m.start.body.iter().position(|i| *i == tee).unwrap();
    assert_eq!(
        &m.start.body[first - 2..first + 8],
        &[
            get("a"),
            Instr::F32ConvertI32S,
            Instr::LocalTee("_result".to_string()),
            Instr::F32Const(Float { bits: 0 }),
            Instr::Arith(BinOp::Eq, Type::F),
            Instr::IfResult(Type::F),
            get("_result"),
            Instr::Else,
            get("b"),
            Instr::End,
        ]
    );
    let second = m.start.body.iter().rposition(|i| *i == tee).unwrap();
    assert_eq!(
        &m.start.body[second - 1..second + 9],
        &[
            get("b"),
            Instr::LocalTee("_result".to_string()),
            Instr::F32Const(Float { bits: 0 }),
            Instr::Arith(BinOp::Ne, Type::F),
            Instr::IfResult(Type::F),
            get("_result"),
            Instr::Else,
            get("a"),
            Instr::F32ConvertI32S,
            Instr::End,
        ]
    );
}

#[test]
fn unknown_names_are_codegen_errors() {
    assert_eq!(codegen_error("x;"), (1, "Unknown local 'x'".to_string()));
    assert_eq!(codegen_error("\nx = 1;"), (2, "Unknown local 'x'".to_string()));
    assert_eq!(codegen_error("f(1);"), (1, "Unknown function 'f'".to_string()));
    assert_eq!(codegen_error("return f(1);"), (1, "Unknown function 'f'".to_string()));
    assert_eq!(codegen_error("function f() { } f(x);"), (1, "Unknown local 'x'".to_string()));
}

#[test]
fn inconsistent_programs_are_codegen_errors() {
    assert_eq!(codegen_error("break;"), (1, "Jump outside of loop".to_string()));
    assert_eq!(codegen_error("while (1) { } continue;"), (1, "Jump outside of loop".to_string()));
    assert_eq!(codegen_error("1.5 % 2;"), (1, "Remainder of floats".to_string()));
    assert_eq!(
        codegen_error("let x = 1;\nx = 1.5;"),
        (2, "Inconsistent type of local 'x'".to_string())
    );
    assert_eq!(
        codegen_error("{ let x = 1; }\n{ let x = 1.5; }"),
        (2, "Inconsistent type of local 'x'".to_string())
    );
}

#[test]
fn unanalyzed_function_has_integer_signature() {
    let program = parse("function f(a) { return a; }");
    let m = CodeGen::new().emit_module(&program).unwrap();
    assert_eq!(m.functions[0].params, vec![("a".to_string(), Type::I)]);
    assert_eq!(m.functions[0].result, Type::I);
}

#[test]
fn module_text() {
    let m = module("function half(x) {\n  return x / 2.0;\n}\nlet y = half(3);\ny;");
    assert_eq!(
        m.render(),
        "(module\n  (func $half (export \"half\") (param $x i32) (result f32) ;; line 1\n    (local $_result f32)\n    ;; line 2\n    local.get $x\n    f32.convert_i32_s\n    f32.const 2.0\n    f32.div\n    return\n    f32.const 0.0\n  )\n  (func $_start (export \"_start\") (result f32)\n    (local $y f32)\n    (local $_result f32)\n    ;; line 4\n    i32.const 3\n    call $half\n    local.set $y\n    ;; line 5\n    local.get $y\n    local.set $_result\n    local.get $_result\n  )\n)"
    );
}

#[test]
fn instruction_text() {
    let m = Module {
        functions: vec![],
        start: scriptc::instr::StartCode {
            result: Type::I,
            locals: vec![],
            body: vec![
                Instr::I32Const(-2147483648),
                Instr::I32Const(2147483647),
                Instr::I32Const(0),
                Instr::F32Const(Float { bits: (-1.5f32).to_bits() }),
                Instr::LocalTee("t".to_string()),
                Instr::Arith(BinOp::Div, Type::I),
                Instr::Arith(BinOp::Mod, Type::I),
                Instr::Arith(BinOp::Ge, Type::I),
                Instr::Arith(BinOp::Ge, Type::F),
                Instr::I32Eqz,
                Instr::F32Neg,
                Instr::IfResult(Type::F),
                Instr::Else,
                Instr::End,
                Instr::Drop,
                Instr::Comment(18446744073709551615),
                Instr::BrIf(Label { kind: LabelKind::Loop, id: 12 }),
            ],
        },
    };
    assert_eq!(
        m.render(),
        "(module\n  (func $_start (export \"_start\") (result i32)\n    (local $_result i32)\n    i32.const -2147483648\n    i32.const 2147483647\n    i32.const 0\n    f32.const -1.5\n    local.tee $t\n    i32.div_s\n    i32.rem_s\n    i32.ge_s\n    f32.ge\n    i32.eqz\n    f32.neg\n    if (result f32)\n    else\n    end\n    drop\n    ;; line 18446744073709551615\n    br_if $loop_12\n  )\n)"
    );
}

#[test]
fn error_kinds_have_their_names() {
    assert_eq!(
        CompilerError::lexer(1, "a".to_string()).to_string(),
        "Lexer Error at line 1: a"
    );
    assert_eq!(
        CompilerError::parser(20, "b".to_string()).to_string(),
        "Parser Error at line 20: b"
    );
    assert_eq!(
        CompilerError::codegen(0, "c".to_string()).to_string(),
        "Codegen Error at line 0: c"
    );
    assert_eq!(
        CompilerError::semantic(305, "".to_string()).to_string(),
        "Semantic Error at line 305: "
    );
    let e = CompilerError::new(7, "m".to_string(), ErrorType::CodegenError);
    assert_eq!((e.line, e.message.as_str(), e.error_type), (7, "m", ErrorType::CodegenError));
}

fn ident(name: &str) -> Expr {
    Expr::Identifier(name.to_string())
}

fn binary(l: Expr, op: BinOp, r: Expr) -> Expr {
    Expr::Binary(Box::new(l), op, Box::new(r))
}

fn emitter_with_locals() -> CodeGen {
    let mut g = CodeGen::new();
    g.begin(vec![
        ("i".to_string(), Type::I),
        ("j".to_string(), Type::I),
        ("x".to_string(), Type::F),
        ("y".to_string(), Type::F),
    ]);
    g
}

fn code_of(e: &Expr) -> Vec<Instr> {
    let mut g = emitter_with_locals();
    g.gen_expr(e, 1).unwrap();
    g.finish().0
}

const ALL_OPERATORS: [BinOp; 11] = [
    BinOp::Add,
    BinOp::Sub,
    BinOp::Mul,
    BinOp::Div,
    BinOp::Mod,
    BinOp::Eq,
    BinOp::Ne,
    BinOp::Lt,
    BinOp::Gt,
    BinOp::Le,
    BinOp::Ge,
];

#[test]
fn operator_on_two_integers_is_the_integer_one() {
    for op in ALL_OPERATORS {
        assert_eq!(
            code_of(&binary(ident("i"), op, ident("j"))),
            vec![get("i"), get("j"), Instr::Arith(op, Type::I)]
        );
    }
}

#[test]
fn operator_on_two_floats_is_the_float_one() {
    for op in ALL_OPERATORS {
        let e = binary(ident("x"), op, ident("y"));
        if op == BinOp::Mod {
            let mut g = emitter_with_locals();
            let err = g.gen_expr(&e, 4).unwrap_err();
            assert_eq!(err.error_type, ErrorType::CodegenError);
            assert_eq!(err.line, 4);
        } else {
            assert_eq!(code_of(&e), vec![get("x"), get("y"), Instr::Arith(op, Type::F)]);
        }
    }
}

#[test]
fn integer_operand_is_converted_next_to_a_float() {
    for op in ALL_OPERATORS {
        if op == BinOp::Mod {
            continue;
        }
        assert_eq!(
            code_of(&binary(ident("i"), op, ident("x"))),
            vec![get("i"), Instr::F32ConvertI32S, get("x"), Instr::Arith(op, Type::F)]
        );
        assert_eq!(
            code_of(&binary(ident("x"), op, ident("i"))),
            vec![get("x"), get("i"), Instr::F32ConvertI32S, Instr::Arith(op, Type::F)]
        );
    }
}

#[test]
fn statement_is_emitted_after_what_was_emitted_before() {
    let mut g = emitter_with_locals();
    g.gen_expr(&Expr::Number(7), 1).unwrap();
    let jump = Stmt { kind: StmtKind::Break, line: 3 };
    let looping = Stmt {
        kind: StmtKind::While(Expr::Number(1), Box::new(jump)),
        line: 2,
    };
    g.gen_stmt(&looping).unwrap();
    g.gen_stmt(&looping).unwrap();
    let (code, locals) = g.finish();
    let one_loop = |n: usize| {
        vec![
            Instr::Comment(2),
            Instr::Block(label(LabelKind::Break, n)),
            Instr::Loop(label(LabelKind::Continue, n)),
            Instr::I32Const(1),
            Instr::I32Eqz,
            Instr::BrIf(label(LabelKind::Break, n)),
            Instr::Comment(3),
            Instr::Br(label(LabelKind::Break, n)),
            Instr::Br(label(LabelKind::Continue, n)),
            Instr::End,
            Instr::End,
        ]
    };
    let mut want = vec![Instr::I32Const(7)];
    want.extend(one_loop(0));
    want.extend(one_loop(1));
    assert_eq!(code, want);
    assert_eq!(locals.len(), 4);
    assert_eq!(g.finish(), (vec![], vec![]));
}

#[test]
fn jump_outside_of_a_loop_is_a_codegen_error() {
    let mut g = CodeGen::new();
    let e = g.gen_stmt(&Stmt { kind: StmtKind::Continue, line: 9 }).unwrap_err();
    assert_eq!(e.error_type, ErrorType::CodegenError);
    assert_eq!(e.line, 9);
}

#[test]
fn function_code_follows_the_signature() {
    let f = Function {
        name: "mix".to_string(),
        params: vec!["a".to_string(), "b".to_string()],
        param_types: Some(vec![Type::F, Type::I]),
        return_type: Some(Type::F),
        body: vec![
            Stmt { kind: StmtKind::Let("c".to_string(), binary(ident("a"), BinOp::Add, ident("b"))), line: 2 },
            Stmt { kind: StmtKind::Return(ident("c")), line: 3 },
        ],
        line: 1,
    };
    let code = CodeGen::new().gen_function(&f).unwrap();
    assert_eq!(code.name, "mix");
    assert_eq!(code.line, 1);
    assert_eq!(code.params, vec![("a".to_string(), Type::F), ("b".to_string(), Type::I)]);
    assert_eq!(code.result, Type::F);
    assert_eq!(code.locals, vec![("c".to_string(), Type::F)]);
    assert_eq!(
        code.body,
        vec![
            Instr::Comment(2),
            get("a"),
            get("b"),
            Instr::F32ConvertI32S,
            Instr::Arith(BinOp::Add, Type::F),
            set("c"),
            Instr::Comment(3),
            get("c"),
            Instr::Return,
            Instr::F32Const(Float { bits: 0 }),
        ]
    );
}

#[test]
fn calls_name_the_functions_that_were_taken_up() {
    let f = Function {
        name: "half".to_string(),
        params: vec![],
        param_types: Some(vec![]),
        return_type: Some(Type::F),
        body: vec![],
        line: 1,
    };
    let call = Expr::Call("half".to_string(), vec![]);
    let mut g = CodeGen::new();
    assert_eq!(g.gen_expr(&call, 1).unwrap_err().error_type, ErrorType::CodegenError);
    g.set_functions(&vec![f]);
    g.begin(vec![]);
    g.gen_expr(&binary(call, BinOp::Mul, Expr::Number(2)), 1).unwrap();
    assert_eq!(
        g.finish().0,
        vec![
            Instr::Call("half".to_string()),
            Instr::I32Const(2),
            Instr::F32ConvertI32S,
            Instr::Arith(BinOp::Mul, Type::F),
        ]
    );
}
