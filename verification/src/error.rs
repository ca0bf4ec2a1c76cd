//! The errors that the phases of the compiler report.

use crate::text::{decimal, push_decimal, push_text};
use vstd::prelude::*;

verus! {

/// The phase that found an error.
#[derive(Debug, Clone, Copy, PartialEq, Eq, Structural)]
pub enum ErrorType {
    LexerError,
    ParserError,
    CodegenError,
    SemanticError,
}

/// An error of one phase, with the source line it was found on.
#[derive(Debug, Clone, PartialEq, Eq)]
pub struct CompilerError {
    pub line: usize,
    pub message: String,
    pub error_type: ErrorType,
}

/// An error as contracts see it.
pub struct CompilerErrorView {
    pub line: usize,
    pub message: Seq<char>,
    pub error_type: ErrorType,
}

impl View for CompilerError {
    type V = CompilerErrorView;

    open spec fn view(&self) -> CompilerErrorView {
        CompilerErrorView { line: self.line, message: self.message@, error_type: self.error_type }
    }
}

/// The name of a phase in a diagnostic.
pub open spec fn kind_text(t: ErrorType) -> Seq<char> {
    match t {
        ErrorType::LexerError => "Lexer Error"@,
        ErrorType::ParserError => "Parser Error"@,
        ErrorType::CodegenError => "Codegen Error"@,
        ErrorType::SemanticError => "Semantic Error"@,
    }
}

/// The one-line diagnostic: `<Kind> Error at line L: <message>`.
pub open spec fn diagnostic(e: CompilerErrorView) -> Seq<char> {
    kind_text(e.error_type) + " at line "@ + decimal(e.line as nat) + ": "@ + e.message
}

/// An error of the lexer.
pub open spec fn lexer_error(line: usize, message: Seq<char>) -> CompilerErrorView {
    CompilerErrorView { line, message, error_type: ErrorType::LexerError }
}

/// An error of the parser.
pub open spec fn parser_error(line: usize, message: Seq<char>) -> CompilerErrorView {
    CompilerErrorView { line, message, error_type: ErrorType::ParserError }
}

/// An error of the emitter.
pub open spec fn codegen_error(line: usize, message: Seq<char>) -> CompilerErrorView {
    CompilerErrorView { line, message, error_type: ErrorType::CodegenError }
}

/// An error of the semantic analysis.
pub open spec fn semantic_error(line: usize, message: Seq<char>) -> CompilerErrorView {
    CompilerErrorView { line, message, error_type: ErrorType::SemanticError }
}

impl CompilerError {
    /// An error of the given phase.
    pub fn new(line: usize, message: String, error_type: ErrorType) -> (e: Self)
        ensures
            e.line == line,
            e.message == message,
            e.error_type == error_type,
    {
        CompilerError { line, message, error_type }
    }

    /// An error of the lexer.
    pub fn lexer(line: usize, message: String) -> (e: Self)
        ensures
            e@ == lexer_error(line, message@),
            e.message == message,
    {
        Self::new(line, message, ErrorType::LexerError)
    }

    /// An error of the parser.
    pub fn parser(line: usize, message: String) -> (e: Self)
        ensures
            e@ == parser_error(line, message@),
            e.message == message,
    {
        Self::new(line, message, ErrorType::ParserError)
    }

    /// An error of the emitter.
    pub fn codegen(line: usize, message: String) -> (e: Self)
        ensures
            e@ == codegen_error(line, message@),
            e.message == message,
    {
        Self::new(line, message, ErrorType::CodegenError)
    }

    /// An error of the semantic analysis.
    pub fn semantic(line: usize, message: String) -> (e: Self)
        ensures
            e@ == semantic_error(line, message@),
            e.message == message,
    {
        Self::new(line, message, ErrorType::SemanticError)
    }

    /// The one-line diagnostic for this error.
    pub fn to_string(&self) -> (s: String)
        ensures
            s@ == diagnostic(self@),
    {
        let mut s = String::new();
        match self.error_type {
            ErrorType::LexerError => push_text(&mut s, "Lexer Error"),
            ErrorType::ParserError => push_text(&mut s, "Parser Error"),
            ErrorType::CodegenError => push_text(&mut s, "Codegen Error"),
            ErrorType::SemanticError => push_text(&mut s, "Semantic Error"),
        }
        push_text(&mut s, " at line ");
        push_decimal(&mut s, self.line as u64);
        push_text(&mut s, ": ");
        push_text(&mut s, self.message.as_str());
        assert(s@ =~= diagnostic(self@));
        s
    }
}

} // verus!
