//! The instructions of the target machine, and a module of them.

use crate::ast::{BinOp, Float, Name, Type};
use vstd::prelude::*;

verus! {

/// What a label is for.
#[derive(Debug, Clone, Copy, PartialEq, Eq, Structural)]
pub enum LabelKind {
    /// The block that `break` leaves.
    Break,
    /// The block, or in a `while` the loop, that `continue` goes to.
    Continue,
    /// The loop of a `for`.
    Loop,
}

/// The label of a block or loop. Loops are numbered as they are met.
#[derive(Debug, Clone, Copy, PartialEq, Eq, Structural)]
pub struct Label {
    pub kind: LabelKind,
    pub id: usize,
}

/// One line of a function body.
#[derive(Debug, PartialEq, Eq)]
pub enum Instr {
    /// `;; line N`
    Comment(usize),
    I32Const(i32),
    F32Const(Float),
    LocalGet(String),
    LocalSet(String),
    LocalTee(String),
    Call(String),
    ReturnCall(String),
    Return,
    Drop,
    /// A binary operator on two operands of one type.
    Arith(BinOp, Type),
    I32Eqz,
    F32Neg,
    F32ConvertI32S,
    If,
    /// An `if` that leaves a value of the type.
    IfResult(Type),
    Else,
    End,
    Block(Label),
    Loop(Label),
    Br(Label),
    BrIf(Label),
}

/// An instruction as contracts see it.
pub enum InstrView {
    Comment(usize),
    I32Const(i32),
    F32Const(Float),
    LocalGet(Name),
    LocalSet(Name),
    LocalTee(Name),
    Call(Name),
    ReturnCall(Name),
    Return,
    Drop,
    Arith(BinOp, Type),
    I32Eqz,
    F32Neg,
    F32ConvertI32S,
    If,
    IfResult(Type),
    Else,
    End,
    Block(Label),
    Loop(Label),
    Br(Label),
    BrIf(Label),
}

impl View for Instr {
    type V = InstrView;

    open spec fn view(&self) -> InstrView {
        match self {
            Instr::Comment(n) => InstrView::Comment(*n),
            Instr::I32Const(n) => InstrView::I32Const(*n),
            Instr::F32Const(f) => InstrView::F32Const(*f),
            Instr::LocalGet(s) => InstrView::LocalGet(s@),
            Instr::LocalSet(s) => InstrView::LocalSet(s@),
            Instr::LocalTee(s) => InstrView::LocalTee(s@),
            Instr::Call(s) => InstrView::Call(s@),
            Instr::ReturnCall(s) => InstrView::ReturnCall(s@),
            Instr::Return => InstrView::Return,
            Instr::Drop => InstrView::Drop,
            Instr::Arith(op, t) => InstrView::Arith(*op, *t),
            Instr::I32Eqz => InstrView::I32Eqz,
            Instr::F32Neg => InstrView::F32Neg,
            Instr::F32ConvertI32S => InstrView::F32ConvertI32S,
            Instr::If => InstrView::If,
            Instr::IfResult(t) => InstrView::IfResult(*t),
            Instr::Else => InstrView::Else,
            Instr::End => InstrView::End,
            Instr::Block(l) => InstrView::Block(*l),
            Instr::Loop(l) => InstrView::Loop(*l),
            Instr::Br(l) => InstrView::Br(*l),
            Instr::BrIf(l) => InstrView::BrIf(*l),
        }
    }
}

/// The views of a sequence of instructions.
pub open spec fn instrs_view(code: Seq<Instr>) -> Seq<InstrView> {
    Seq::new(code.len(), |i: int| code[i]@)
}

/// Pushing an instruction extends the view by its view.
pub proof fn lemma_instrs_view_push(code: Seq<Instr>, i: Instr)
    ensures
        instrs_view(code.push(i)) == instrs_view(code).push(i@),
{
    assert(instrs_view(code.push(i)) =~= instrs_view(code).push(i@));
}

/// Names with their types, in the order they were declared.
pub type Typing = Seq<(Name, Type)>;

/// The view of a list of names with their types.
pub open spec fn typing_view(list: Seq<(String, Type)>) -> Typing {
    Seq::new(list.len(), |i: int| (list[i].0@, list[i].1))
}

/// Pushing an entry extends the view by its view.
pub proof fn lemma_typing_view_push(list: Seq<(String, Type)>, entry: (String, Type))
    ensures
        typing_view(list.push(entry)) == typing_view(list).push((entry.0@, entry.1)),
{
    assert(typing_view(list.push(entry)) =~= typing_view(list).push((entry.0@, entry.1)));
}

/// The code of one function of the source program.
#[derive(Debug, PartialEq, Eq)]
pub struct FunctionCode {
    pub name: String,
    pub params: Vec<(String, Type)>,
    pub result: Type,
    /// The source line of the function.
    pub line: usize,
    pub locals: Vec<(String, Type)>,
    /// The instructions of the body, the default result last.
    pub body: Vec<Instr>,
}

/// The code of the statements outside of any function.
#[derive(Debug, PartialEq, Eq)]
pub struct StartCode {
    pub result: Type,
    pub locals: Vec<(String, Type)>,
    pub body: Vec<Instr>,
}

/// A module: the functions of the program, and the entry point.
#[derive(Debug, PartialEq, Eq)]
pub struct Module {
    pub functions: Vec<FunctionCode>,
    pub start: StartCode,
}

/// The code of a function as contracts see it.
pub struct FunctionCodeView {
    pub name: Name,
    pub params: Typing,
    pub result: Type,
    pub line: usize,
    pub locals: Typing,
    pub body: Seq<InstrView>,
}

/// The code of the entry point as contracts see it.
pub struct StartCodeView {
    pub result: Type,
    pub locals: Typing,
    pub body: Seq<InstrView>,
}

/// A module as contracts see it.
pub struct ModuleView {
    pub functions: Seq<FunctionCodeView>,
    pub start: StartCodeView,
}

impl View for FunctionCode {
    type V = FunctionCodeView;

    open spec fn view(&self) -> FunctionCodeView {
        FunctionCodeView {
            name: self.name@,
            params: typing_view(self.params@),
            result: self.result,
            line: self.line,
            locals: typing_view(self.locals@),
            body: instrs_view(self.body@),
        }
    }
}

impl View for StartCode {
    type V = StartCodeView;

    open spec fn view(&self) -> StartCodeView {
        StartCodeView {
            result: self.result,
            locals: typing_view(self.locals@),
            body: instrs_view(self.body@),
        }
    }
}

/// The views of a sequence of function codes.
pub open spec fn function_codes_view(fs: Seq<FunctionCode>) -> Seq<FunctionCodeView> {
    Seq::new(fs.len(), |i: int| fs[i]@)
}

impl View for Module {
    type V = ModuleView;

    open spec fn view(&self) -> ModuleView {
        ModuleView { functions: function_codes_view(self.functions@), start: self.start@ }
    }
}

} // verus!
