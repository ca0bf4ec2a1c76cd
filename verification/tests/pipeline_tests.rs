use scriptc::compiler::compile;
use scriptc::error::ErrorType;

fn compiled(source: &str) -> String {
    match compile(source) {
        Ok(text) => text,
        Err(e) => panic!("{} did not compile: {}", source, e.to_string()),
    }
}

fn error_of(source: &str) -> (ErrorType, usize) {
    match compile(source) {
        Ok(text) => panic!("{} compiled to {}", source, text),
        Err(e) => (e.error_type, e.line),
    }
}

fn lines(text: &str) -> Vec<&str> {
    text.lines().map(|l| l.trim()).collect()
}

fn position(text: &str, line: &str) -> usize {
    match lines(text).iter().position(|l| *l == line) {
        Some(i) => i,
        None => panic!("no line `{}` in\n{}", line, text),
    }
}

#[test]
fn empty_program_is_an_entry_point_that_yields_zero() {
    assert_eq!(
        compiled(""),
        "(module\n  (func $_start (export \"_start\") (result i32)\n    (local $_result i32)\n    local.get $_result\n  )\n)"
    );
}

#[test]
fn compilation_is_repeatable() {
    let source = "function f(x){ return x*2.0; } let y = f(3.0); y + 1;";
    assert_eq!(compile(source), compile(source));
}

#[test]
fn break_outside_loop_is_a_semantic_error() {
    assert_eq!(error_of("break;"), (ErrorType::SemanticError, 1));
    assert_eq!(error_of("\ncontinue;"), (ErrorType::SemanticError, 2));
    assert_eq!(error_of("function f() { if (1) { break; } }"), (ErrorType::SemanticError, 1));
}

#[test]
fn break_inside_loop_is_accepted() {
    compiled("while (1) { break; }");
    compiled("let i = 0; for (i = 0; i < 3; i = i + 1) { continue; }");
}

#[test]
fn const_cannot_be_reassigned() {
    assert_eq!(error_of("const x = 1; x = 2;"), (ErrorType::SemanticError, 1));
}

#[test]
fn assignment_must_keep_the_type() {
    assert_eq!(error_of("let x = 1; x = 1.0;"), (ErrorType::SemanticError, 1));
    compiled("let x = 1; x = 2;");
    compiled("let x = 1.5; x = 2.0;");
}

#[test]
fn remainder_of_floats_is_a_semantic_error() {
    assert_eq!(error_of("let a = 1.5; let b = 2; a % b;"), (ErrorType::SemanticError, 1));
    assert_eq!(error_of("let a = 1; let b = 2.5;\na % b;"), (ErrorType::SemanticError, 2));
    compiled("let a = 7; let b = 2; a % b;");
}

#[test]
fn first_call_fixes_the_parameter_types() {
    assert_eq!(
        error_of("function f(x) { return x; }\nf(1);\nf(1.0);"),
        (ErrorType::SemanticError, 3)
    );
    compiled("function f(x) { return x; } f(1); f(2);");
}

#[test]
fn unterminated_block_comment_is_a_lexer_error() {
    assert_eq!(error_of("let x = 1;\n/* never closed\n\n"), (ErrorType::LexerError, 2));
}

#[test]
fn member_access_on_a_number_is_a_parser_error() {
    assert_eq!(error_of("3.foo;"), (ErrorType::ParserError, 1));
}

#[test]
fn constant_expression_is_folded() {
    let text = compiled("function main(){ return 2 + 3 * 4; }");
    assert!(text.contains("i32.const 14"), "{}", text);
    assert!(!text.contains("i32.add"), "{}", text);
    assert!(!text.contains("i32.mul"), "{}", text);
}

#[test]
fn integer_function_has_integer_signature() {
    let text = compiled("function add(a,b){ return a+b; } add(1,2);");
    assert!(
        text.contains("  (func $add (export \"add\") (param $a i32) (param $b i32) (result i32) ;; line 1\n"),
        "{}",
        text
    );
    assert!(text.contains("  (func $_start (export \"_start\") (result i32)\n"), "{}", text);
    let call = position(&text, "call $add");
    assert_eq!(lines(&text)[call + 1], "local.set $_result");
    assert_eq!(lines(&text)[call - 2], "i32.const 1");
    assert_eq!(lines(&text)[call - 1], "i32.const 2");
    assert!(text.ends_with("    local.get $_result\n  )\n)"), "{}", text);
}

#[test]
fn float_argument_makes_float_function() {
    let text = compiled("function f(x){ return x*2.0; } f(3.0);");
    assert!(
        text.contains("  (func $f (export \"f\") (param $x f32) (result f32) ;; line 1\n"),
        "{}",
        text
    );
    assert!(text.contains("f32.mul"), "{}", text);
    assert!(!text.contains("i32.mul"), "{}", text);
    assert!(!text.contains("f32.convert_i32_s"), "{}", text);
    let call = position(&text, "call $f");
    assert_eq!(lines(&text)[call - 1], "f32.const 3.0");
    assert!(text.contains("  (func $_start (export \"_start\") (result f32)\n"), "{}", text);
    assert!(text.contains("    (local $_result f32)\n"), "{}", text);
    assert!(text.contains("    f32.const 0.0\n  )\n"), "{}", text);
}

#[test]
fn dead_branch_is_removed() {
    let text = compiled("function f(){ if (0) return 1; else return 2; }");
    let body: Vec<&str> = lines(&text)
        .into_iter()
        .skip_while(|l| !l.starts_with("(func $f"))
        .take_while(|l| !l.starts_with("(func $_start"))
        .collect();
    assert!(!body.contains(&"if"), "{}", text);
    assert!(!body.contains(&"else"), "{}", text);
    assert!(!body.contains(&"end"), "{}", text);
    assert!(body.contains(&"i32.const 2"), "{}", text);
    assert!(!body.contains(&"i32.const 1"), "{}", text);
}

#[test]
fn for_loop_has_three_labels() {
    let text = compiled("for (let i=0; i<3; i=i+1) { if (i==1) continue; }");
    let all = lines(&text);
    let block_break = position(&text, "block $break_0");
    assert_eq!(all[block_break + 1], "loop $loop_0");
    let block_continue = position(&text, "block $continue_0");
    assert!(block_continue > block_break);
    let jump = position(&text, "br $continue_0");
    assert!(jump > block_continue);
    let back = position(&text, "br $loop_0");
    assert!(back > jump);
    // The inner block ends, then the step runs, then the loop repeats.
    let inner_end = all[jump..back].iter().rposition(|l| *l == "end").unwrap() + jump;
    let step = &all[inner_end + 1..back];
    assert_eq!(
        step,
        &[";; line 1", "local.get $i", "i32.const 1", "i32.add", "local.set $i"]
    );
    assert_eq!(all[back + 1], "end");
    assert_eq!(all[back + 2], "end");
    assert!(text.contains("br_if $break_0"), "{}", text);
    assert!(text.contains("    (local $i i32)\n"), "{}", text);
}

#[test]
fn return_of_a_call_is_a_tail_call() {
    let text = compiled("function fact(n){ if (n<=1) return 1; return fact(n-1)*n; }");
    assert!(
        text.contains("  (func $fact (export \"fact\") (param $n i32) (result i32) ;; line 1\n"),
        "{}",
        text
    );
    // The call is an operand of the product, so it is an ordinary call.
    assert!(text.contains("call $fact"), "{}", text);
    let text = compiled("function loop_to(n){ if (n<=1) return 1; return loop_to(n-1); }");
    assert!(text.contains("    return_call $loop_to\n"), "{}", text);
    assert!(!text.contains("    call $loop_to\n"), "{}", text);
    let call = position(&text, "return_call $loop_to");
    assert_ne!(lines(&text)[call + 1], "return");
}

#[test]
fn while_loop_text() {
    assert_eq!(
        compiled("let x = 3;\nwhile (x) x = x - 1;"),
        "(module\n  (func $_start (export \"_start\") (result i32)\n    (local $x i32)\n    (local $_result i32)\n    ;; line 1\n    i32.const 3\n    local.set $x\n    ;; line 2\n    block $break_0\n    loop $continue_0\n    local.get $x\n    i32.eqz\n    br_if $break_0\n    ;; line 2\n    local.get $x\n    i32.const 1\n    i32.sub\n    local.set $x\n    br $continue_0\n    end\n    end\n    local.get $_result\n  )\n)"
    );
}

#[test]
fn mixed_operands_are_widened() {
    let text = compiled("let a = 1; let b = 2.5; a + b; b < a; a * a;");
    let all = lines(&text);
    let add = position(&text, "f32.add");
    assert_eq!(&all[add - 3..add], &["local.get $a", "f32.convert_i32_s", "local.get $b"]);
    let lt = position(&text, "f32.lt");
    assert_eq!(&all[lt - 3..lt], &["local.get $b", "local.get $a", "f32.convert_i32_s"]);
    let mul = position(&text, "i32.mul");
    assert_eq!(&all[mul - 2..mul], &["local.get $a", "local.get $a"]);
    assert_eq!(all.iter().filter(|l| **l == "f32.convert_i32_s").count(), 2);
}

#[test]
fn short_circuit_keeps_the_operand() {
    let text = compiled("let a = 1; let b = 2; a && b; a || b;");
    let all = lines(&text);
    let first = position(&text, "local.tee $_result");
    assert_eq!(
        &all[first - 1..first + 7],
        &[
            "local.get $a",
            "local.tee $_result",
            "i32.eqz",
            "if (result i32)",
            "local.get $_result",
            "else",
            "local.get $b",
            "end"
        ]
    );
    let second = all.iter().rposition(|l| *l == "local.tee $_result").unwrap();
    assert_eq!(
        &all[second - 1..second + 8],
        &[
            "local.get $a",
            "local.tee $_result",
            "i32.const 0",
            "i32.ne",
            "if (result i32)",
            "local.get $_result",
            "else",
            "local.get $b",
            "end"
        ]
    );
}

#[test]
fn negation_and_not() {
    let text = compiled("let a = 1; let b = 2.5; -a; -b; !a; !b;");
    let all = lines(&text);
    let sub = position(&text, "i32.sub");
    assert_eq!(&all[sub - 2..sub], &["i32.const 0", "local.get $a"]);
    let neg = position(&text, "f32.neg");
    assert_eq!(all[neg - 1], "local.get $b");
    let eqz = position(&text, "i32.eqz");
    assert_eq!(all[eqz - 1], "local.get $a");
    let eq = position(&text, "f32.eq");
    assert_eq!(&all[eq - 2..eq], &["local.get $b", "f32.const 0.0"]);
}

#[test]
fn float_condition_is_compared_with_zero() {
    let text = compiled("let b = 2.5; if (b) { b = 1.0; }");
    let all = lines(&text);
    let test = position(&text, "if");
    assert_eq!(&all[test - 3..test], &["local.get $b", "f32.const 0.0", "f32.ne"]);
}

#[test]
fn code_after_return_is_dropped() {
    let text = compiled("function f() { return 1; let x = 2; return x; }");
    assert!(!text.contains("local.set $x"), "{}", text);
    assert!(!text.contains("(local $x"), "{}", text);
    assert_eq!(lines(&text).iter().filter(|l| **l == "return").count(), 1);
}

#[test]
fn undefined_names_are_semantic_errors() {
    assert_eq!(error_of("x;"), (ErrorType::SemanticError, 1));
    assert_eq!(error_of("x = 1;"), (ErrorType::SemanticError, 1));
    assert_eq!(error_of("f(1);"), (ErrorType::SemanticError, 1));
    assert_eq!(error_of("function f() { return 1; } f + 1;"), (ErrorType::SemanticError, 1));
    assert_eq!(error_of("{ let x = 1; } x;"), (ErrorType::SemanticError, 1));
    assert_eq!(error_of("for (let i = 0; i < 1; i = i + 1) { } i;"), (ErrorType::SemanticError, 1));
}

#[test]
fn return_types_must_agree() {
    assert_eq!(
        error_of("function f(x) {\n if (x) return 1;\n return 1.5;\n}"),
        (ErrorType::SemanticError, 3)
    );
    // The analysis runs before dead branches are removed.
    assert_eq!(
        error_of("function f() { if (1) return 1; else return 1.0; }"),
        (ErrorType::SemanticError, 1)
    );
}

#[test]
fn diagnostic_has_kind_and_line() {
    let e = compile("let x = 1;\nlet y = @;").unwrap_err();
    assert_eq!(e.to_string(), "Lexer Error at line 2: Unexpected character: @");
    let e = compile("let x = ;").unwrap_err();
    assert_eq!(e.to_string(), "Parser Error at line 1: Unexpected token in expression: Semicolon");
    let e = compile("let x = 1\nlet y = 2;").unwrap_err();
    assert_eq!(e.to_string(), "Parser Error at line 2: Expected Semicolon, got Let");
    let e = compile("\n\nbreak;").unwrap_err();
    assert_eq!(e.to_string(), "Semantic Error at line 3: Break statement outside of loop");
}

#[test]
fn removed_declaration_is_a_codegen_error() {
    // The analysis accepts the assignment, because the declaration is in
    // the same scope; the optimizer then removes the declaration with the
    // branch that never runs.
    assert_eq!(error_of("if (0) let x = 1;\nx = 2;"), (ErrorType::CodegenError, 2));
    assert_eq!(error_of("{ let x = 1; }\n{ let x = 1.5; }"), (ErrorType::CodegenError, 2));
}

#[test]
fn function_with_loops_and_floats() {
    let text = compiled(
        "function area(w, h) {\n  if (w <= 0.0) return 0.0;\n  return w * h * 1.0;\n}\nconst a = area(2.5, 4);\n-a + 2 * 0.5;",
    );
    assert_eq!(
        text,
        "(module\n  (func $area (export \"area\") (param $w f32) (param $h i32) (result f32) ;; line 1\n    (local $_result f32)\n    ;; line 2\n    local.get $w\n    f32.const 0.0\n    f32.le\n    if\n    ;; line 2\n    f32.const 0.0\n    return\n    end\n    ;; line 3\n    local.get $w\n    local.get $h\n    f32.convert_i32_s\n    f32.mul\n    f32.const 1.0\n    f32.mul\n    return\n    f32.const 0.0\n  )\n  (func $_start (export \"_start\") (result f32)\n    (local $a f32)\n    (local $_result f32)\n    ;; line 5\n    f32.const 2.5\n    i32.const 4\n    call $area\n    local.set $a\n    ;; line 6\n    local.get $a\n    f32.neg\n    i32.const 2\n    f32.convert_i32_s\n    f32.const 0.5\n    f32.mul\n    f32.add\n    local.set $_result\n    local.get $_result\n  )\n)"
    );
}

#[test]
fn first_pass_assumes_integer_parameters() {
    // With integer parameters the two returns are an integer and a float.
    assert_eq!(
        error_of("function area(w, h) {\n  if (w <= 0.0) return 0.0;\n  return w * h;\n}\narea(2.5, 4.5);"),
        (ErrorType::SemanticError, 3)
    );
}

#[test]
fn folded_infinity_is_written_as_inf() {
    let text = compiled("1.0 / 0.0;");
    assert!(text.contains("    f32.const inf\n"), "{}", text);
    assert!(!text.contains("f32.div"), "{}", text);
    let text = compiled("0.0 / 0.0;");
    assert!(text.contains("    f32.const nan\n"), "{}", text);
}

#[test]
fn function_called_only_from_functions_keeps_integer_parameters() {
    let text = compiled("function g(x) { g(1.0); }");
    assert!(
        text.contains("  (func $g (export \"g\") (param $x i32) (result i32) ;; line 1\n"),
        "{}",
        text
    );
}

#[test]
fn call_outside_of_functions_is_the_first_even_behind_calls_in_functions() {
    let text = compiled("function f(x){return x;} function g(){return f(1);} f(1.5);");
    assert!(text.contains("  (func $f (export \"f\") (param $x f32) (result f32) ;; line 1\n"), "{}", text);
    assert!(text.contains("  (func $g (export \"g\") (result i32) ;; line 1\n"), "{}", text);
    assert!(text.contains("  (func $_start (export \"_start\") (result f32)\n"), "{}", text);
}

#[test]
fn white_space_of_any_script_separates_tokens() {
    assert_eq!(compiled("let\u{A0}x\u{2028}=\u{3000}1;\u{85}x;"), compiled("let x = 1; x;"));
}
