//! The whole pipeline: from source text to the text of a module.

use crate::ast::ProgramView;
use crate::codegen::CodeGen;
use crate::emission::{emit_program, lemma_module_matches_program, matches_program};
use crate::error::{CompilerError, CompilerErrorView};
use crate::grammar::parse_program_spec;
use crate::lexer::{tokenize_spec, Lexer};
use crate::optimizer::{
    lemma_optimized_program_return_last, no_code_after_return, optimize_program,
    optimize_program_spec,
};
use crate::parser::Parser;
use crate::render::module_text;
use crate::semantic::SemanticAnalyzer;
use crate::typing::analyze_spec;
use vstd::prelude::*;

verus! {

/// The program that is emitted for a source text: its syntax tree with
/// the types of its functions filled in, optimized.
pub open spec fn front_spec(source: Seq<char>) -> Result<ProgramView, CompilerErrorView> {
    match tokenize_spec(source) {
        Err(e) => Err(e),
        Ok(tokens) => match parse_program_spec(tokens) {
            Err(e) => Err(e),
            Ok(parsed) => match analyze_spec(parsed) {
                Err(e) => Err(e),
                Ok(typed) => Ok(optimize_program_spec(typed)),
            },
        },
    }
}

/// What a source text compiles to: the text of a module, or the first
/// error of the first phase that finds one. The phases run in this order:
/// tokens, syntax tree, names and types, optimization, emission.
pub open spec fn compile_spec(source: Seq<char>) -> Result<Seq<char>, CompilerErrorView> {
    match front_spec(source) {
        Err(e) => Err(e),
        Ok(program) => match emit_program(program, 0) {
            Err(e) => Err(e),
            Ok(module) => Ok(module_text(module)),
        },
    }
}

/// What compiles is the text of a module that is a faithful rendition of
/// the optimized program: every function has the parameters and the
/// result type that the analysis found, every local that is declared is
/// set, and in no function does anything but the default result follow a
/// `return`.
pub proof fn lemma_compiled_module_is_faithful(source: Seq<char>)
    requires
        compile_spec(source) is Ok,
    ensures
        front_spec(source) is Ok,
        emit_program(front_spec(source)->Ok_0, 0) is Ok,
        compile_spec(source)->Ok_0 == module_text(emit_program(front_spec(source)->Ok_0, 0)->Ok_0),
        no_code_after_return(front_spec(source)->Ok_0),
        matches_program(emit_program(front_spec(source)->Ok_0, 0)->Ok_0, front_spec(source)->Ok_0),
{
    let typed = analyze_spec(parse_program_spec(tokenize_spec(source)->Ok_0)->Ok_0)->Ok_0;
    lemma_optimized_program_return_last(typed);
    lemma_module_matches_program(front_spec(source)->Ok_0, 0);
}

/// Whether `res` is what `spec` gives.
pub open spec fn compiled_ok(
    spec: Result<Seq<char>, CompilerErrorView>,
    res: Result<String, CompilerError>,
) -> bool {
    match spec {
        Ok(text) => res is Ok && res->Ok_0@ == text,
        Err(e) => res is Err && res->Err_0@ == e,
    }
}

/// Compiles a source text. The result depends on the text alone: the
/// same text always gives the same module, character for character, or
/// the same error.
pub fn compile(source: &str) -> (res: Result<String, CompilerError>)
    ensures
        compiled_ok(compile_spec(source@), res),
{
    let mut lexer = Lexer::new(source);
    let tokens = lexer.tokenize()?;
    let mut parser = Parser::new(tokens);
    let mut program = parser.parse_program()?;
    let mut analyzer = SemanticAnalyzer::new();
    analyzer.analyze(&mut program)?;
    optimize_program(&mut program);
    let mut codegen = CodeGen::new();
    codegen.generate(&program)
}

} // verus!
