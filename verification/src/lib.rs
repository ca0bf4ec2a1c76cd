//! A small compiler from a C-family scripting language to the text format of
//! a stack-based virtual machine, with every phase verified against a
//! mathematical description of what it computes.
//!
//! The phases, in the order they run: [`lexer`] turns characters into
//! tokens, [`parser`] builds the syntax tree that [`grammar`] describes,
//! [`semantic`] checks names and infers types by the rules of [`typing`],
//! [`optimizer`] folds constants and removes dead code, and [`codegen`]
//! emits the instructions that [`emission`] describes, which [`render`]
//! writes out. [`compiler::compile`] runs them all.

pub mod ast;
pub mod codegen;
pub mod compiler;
pub mod emission;
pub mod error;
pub mod float;
pub mod grammar;
pub mod instr;
pub mod lexer;
pub mod natural;
pub mod optimizer;
pub mod parser;
pub mod render;
pub mod rounding;
pub mod semantic;
pub mod text;
pub mod token;
pub mod typing;
