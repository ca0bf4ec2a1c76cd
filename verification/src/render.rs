//! The text of a module.
//!
//! A module is written with one function after the other and the entry
//! point last; in a function its locals come first, then one instruction
//! on each line.

use crate::ast::{BinOp, Name, Type};
use crate::emission::result_local;
use crate::float::float_text;
use crate::instr::{
    function_codes_view, instrs_view, typing_view, FunctionCode, FunctionCodeView, Instr, InstrView,
    Label, LabelKind, Module, ModuleView, StartCode, StartCodeView, Typing,
};
use crate::text::{decimal, push_decimal, push_signed_decimal, push_text, signed_decimal};
use vstd::prelude::*;

verus! {

/// The name of a type in the text of a module.
pub open spec fn type_text(t: Type) -> Seq<char> {
    match t {
        Type::I => "i32"@,
        Type::F => "f32"@,
    }
}

/// The mnemonic of a binary operator on operands of type `t`.
pub open spec fn arith_text(op: BinOp, t: Type) -> Seq<char> {
    match t {
        Type::I => match op {
            BinOp::Add => "i32.add"@,
            BinOp::Sub => "i32.sub"@,
            BinOp::Mul => "i32.mul"@,
            BinOp::Div => "i32.div_s"@,
            BinOp::Mod => "i32.rem_s"@,
            BinOp::Eq => "i32.eq"@,
            BinOp::Ne => "i32.ne"@,
            BinOp::Lt => "i32.lt_s"@,
            BinOp::Gt => "i32.gt_s"@,
            BinOp::Le => "i32.le_s"@,
            BinOp::Ge => "i32.ge_s"@,
        },
        Type::F => match op {
            BinOp::Add => "f32.add"@,
            BinOp::Sub => "f32.sub"@,
            BinOp::Mul => "f32.mul"@,
            BinOp::Div => "f32.div"@,
            BinOp::Mod => "f32.rem"@,
            BinOp::Eq => "f32.eq"@,
            BinOp::Ne => "f32.ne"@,
            BinOp::Lt => "f32.lt"@,
            BinOp::Gt => "f32.gt"@,
            BinOp::Le => "f32.le"@,
            BinOp::Ge => "f32.ge"@,
        },
    }
}

/// The name of a label: its kind and the number of its loop.
pub open spec fn label_text(l: Label) -> Seq<char> {
    match l.kind {
        LabelKind::Break => "$break_"@ + decimal(l.id as nat),
        LabelKind::Continue => "$continue_"@ + decimal(l.id as nat),
        LabelKind::Loop => "$loop_"@ + decimal(l.id as nat),
    }
}

/// The part of an instruction's text that does not depend on its operand.
pub open spec fn mnemonic(i: InstrView) -> Seq<char> {
    match i {
        InstrView::Comment(_) => ";; line "@,
        InstrView::I32Const(_) => "i32.const "@,
        InstrView::F32Const(_) => "f32.const "@,
        InstrView::LocalGet(_) => "local.get $"@,
        InstrView::LocalSet(_) => "local.set $"@,
        InstrView::LocalTee(_) => "local.tee $"@,
        InstrView::Call(_) => "call $"@,
        InstrView::ReturnCall(_) => "return_call $"@,
        InstrView::Return => "return"@,
        InstrView::Drop => "drop"@,
        InstrView::Arith(op, t) => arith_text(op, t),
        InstrView::I32Eqz => "i32.eqz"@,
        InstrView::F32Neg => "f32.neg"@,
        InstrView::F32ConvertI32S => "f32.convert_i32_s"@,
        InstrView::If => "if"@,
        InstrView::IfResult(_) => "if (result "@,
        InstrView::Else => "else"@,
        InstrView::End => "end"@,
        InstrView::Block(_) => "block "@,
        InstrView::Loop(_) => "loop "@,
        InstrView::Br(_) => "br "@,
        InstrView::BrIf(_) => "br_if "@,
    }
}

/// The text of an instruction's operand.
pub open spec fn operand_text(i: InstrView) -> Seq<char> {
    match i {
        InstrView::Comment(n) => decimal(n as nat),
        InstrView::I32Const(n) => signed_decimal(n as int),
        InstrView::F32Const(f) => float_text(f.bits),
        InstrView::LocalGet(name) => name,
        InstrView::LocalSet(name) => name,
        InstrView::LocalTee(name) => name,
        InstrView::Call(name) => name,
        InstrView::ReturnCall(name) => name,
        InstrView::IfResult(t) => type_text(t) + ")"@,
        InstrView::Block(l) => label_text(l),
        InstrView::Loop(l) => label_text(l),
        InstrView::Br(l) => label_text(l),
        InstrView::BrIf(l) => label_text(l),
        _ => Seq::empty(),
    }
}

/// The line of an instruction.
pub open spec fn instr_line(i: InstrView) -> Seq<char> {
    "    "@ + mnemonic(i) + operand_text(i) + "\n"@
}

/// The lines of the instructions, one after the other.
pub open spec fn body_text(code: Seq<InstrView>) -> Seq<char>
    decreases code.len(),
{
    if code.len() == 0 {
        Seq::empty()
    } else {
        body_text(code.drop_last()) + instr_line(code.last())
    }
}

/// The declaration of a local.
pub open spec fn local_line(name: Name, t: Type) -> Seq<char> {
    "    (local $"@ + name + " "@ + type_text(t) + ")\n"@
}

/// The declarations of the locals, one on each line.
pub open spec fn locals_text(locals: Typing) -> Seq<char>
    decreases locals.len(),
{
    if locals.len() == 0 {
        Seq::empty()
    } else {
        locals_text(locals.drop_last()) + local_line(locals.last().0, locals.last().1)
    }
}

/// The declaration of a parameter.
pub open spec fn param_text(name: Name, t: Type) -> Seq<char> {
    " (param $"@ + name + " "@ + type_text(t) + ")"@
}

/// The declarations of the parameters, one after the other.
pub open spec fn params_text(params: Typing) -> Seq<char>
    decreases params.len(),
{
    if params.len() == 0 {
        Seq::empty()
    } else {
        params_text(params.drop_last()) + param_text(params.last().0, params.last().1)
    }
}

/// The first line of a function: its name, its export under the same
/// name, its parameters and result, and its source line.
pub open spec fn header_text(f: FunctionCodeView) -> Seq<char> {
    "  (func $"@ + f.name + " (export \""@ + f.name + "\")"@ + params_text(f.params)
        + " (result "@ + type_text(f.result) + ") ;; line "@ + decimal(f.line as nat) + "\n"@
}

/// The text of a function: the header, the locals with the local that
/// holds results, the body, and the closing line.
pub open spec fn function_text(f: FunctionCodeView) -> Seq<char> {
    header_text(f) + locals_text(f.locals) + local_line(result_local(), f.result) + body_text(
        f.body,
    ) + "  )\n"@
}

/// The text of the functions, one after the other.
pub open spec fn functions_text(fs: Seq<FunctionCodeView>) -> Seq<char>
    decreases fs.len(),
{
    if fs.len() == 0 {
        Seq::empty()
    } else {
        functions_text(fs.drop_last()) + function_text(fs.last())
    }
}

/// The text of the entry point, which is exported as `_start`.
pub open spec fn start_text(s: StartCodeView) -> Seq<char> {
    "  (func $_start (export \"_start\") (result "@ + type_text(s.result) + ")\n"@ + locals_text(
        s.locals,
    ) + local_line(result_local(), s.result) + body_text(s.body) + "  )\n"@
}

/// The text of a module.
pub open spec fn module_text(m: ModuleView) -> Seq<char> {
    "(module\n"@ + functions_text(m.functions) + start_text(m.start) + ")"@
}

/// The mnemonic of an operator on integers starts with `i32.`, that of
/// an operator on floats with `f32.`.
pub proof fn lemma_arith_text_names_type(op: BinOp, t: Type)
    ensures
        arith_text(op, t).len() > 4,
        arith_text(op, t).subrange(0, 4) == type_text(t) + "."@,
{
    reveal_strlit("i32");
    reveal_strlit("f32");
    reveal_strlit(".");
    reveal_strlit("i32.add");
    reveal_strlit("i32.sub");
    reveal_strlit("i32.mul");
    reveal_strlit("i32.div_s");
    reveal_strlit("i32.rem_s");
    reveal_strlit("i32.eq");
    reveal_strlit("i32.ne");
    reveal_strlit("i32.lt_s");
    reveal_strlit("i32.gt_s");
    reveal_strlit("i32.le_s");
    reveal_strlit("i32.ge_s");
    reveal_strlit("f32.add");
    reveal_strlit("f32.sub");
    reveal_strlit("f32.mul");
    reveal_strlit("f32.div");
    reveal_strlit("f32.rem");
    reveal_strlit("f32.eq");
    reveal_strlit("f32.ne");
    reveal_strlit("f32.lt");
    reveal_strlit("f32.gt");
    reveal_strlit("f32.le");
    reveal_strlit("f32.ge");
    assert(arith_text(op, t).subrange(0, 4) =~= type_text(t) + "."@);
}

fn type_word(t: Type) -> (s: &'static str)
    ensures
        s@ == type_text(t),
{
    match t {
        Type::I => "i32",
        Type::F => "f32",
    }
}

fn arith_name(op: BinOp, t: Type) -> (s: &'static str)
    ensures
        s@ == arith_text(op, t),
{
    match t {
        Type::I => match op {
            BinOp::Add => "i32.add",
            BinOp::Sub => "i32.sub",
            BinOp::Mul => "i32.mul",
            BinOp::Div => "i32.div_s",
            BinOp::Mod => "i32.rem_s",
            BinOp::Eq => "i32.eq",
            BinOp::Ne => "i32.ne",
            BinOp::Lt => "i32.lt_s",
            BinOp::Gt => "i32.gt_s",
            BinOp::Le => "i32.le_s",
            BinOp::Ge => "i32.ge_s",
        },
        Type::F => match op {
            BinOp::Add => "f32.add",
            BinOp::Sub => "f32.sub",
            BinOp::Mul => "f32.mul",
            BinOp::Div => "f32.div",
            BinOp::Mod => "f32.rem",
            BinOp::Eq => "f32.eq",
            BinOp::Ne => "f32.ne",
            BinOp::Lt => "f32.lt",
            BinOp::Gt => "f32.gt",
            BinOp::Le => "f32.le",
            BinOp::Ge => "f32.ge",
        },
    }
}

fn mnemonic_of(i: &Instr) -> (s: &'static str)
    ensures
        s@ == mnemonic(i@),
{
    match i {
        Instr::Comment(_) => ";; line ",
        Instr::I32Const(_) => "i32.const ",
        Instr::F32Const(_) => "f32.const ",
        Instr::LocalGet(_) => "local.get $",
        Instr::LocalSet(_) => "local.set $",
        Instr::LocalTee(_) => "local.tee $",
        Instr::Call(_) => "call $",
        Instr::ReturnCall(_) => "return_call $",
        Instr::Return => "return",
        Instr::Drop => "drop",
        Instr::Arith(op, t) => arith_name(*op, *t),
        Instr::I32Eqz => "i32.eqz",
        Instr::F32Neg => "f32.neg",
        Instr::F32ConvertI32S => "f32.convert_i32_s",
        Instr::If => "if",
        Instr::IfResult(_) => "if (result ",
        Instr::Else => "else",
        Instr::End => "end",
        Instr::Block(_) => "block ",
        Instr::Loop(_) => "loop ",
        Instr::Br(_) => "br ",
        Instr::BrIf(_) => "br_if ",
    }
}

fn push_label(out: &mut String, l: Label)
    ensures
        final(out)@ == old(out)@ + label_text(l),
{
    match l.kind {
        LabelKind::Break => push_text(out, "$break_"),
        LabelKind::Continue => push_text(out, "$continue_"),
        LabelKind::Loop => push_text(out, "$loop_"),
    }
    push_decimal(out, l.id as u64);
    assert(out@ =~= old(out)@ + label_text(l));
}

fn push_operand(out: &mut String, i: &Instr)
    ensures
        final(out)@ == old(out)@ + operand_text(i@),
{
    match i {
        Instr::Comment(n) => push_decimal(out, *n as u64),
        Instr::I32Const(n) => push_signed_decimal(out, *n as i64),
        Instr::F32Const(f) => f.push_text(out),
        Instr::LocalGet(name) => push_text(out, name.as_str()),
        Instr::LocalSet(name) => push_text(out, name.as_str()),
        Instr::LocalTee(name) => push_text(out, name.as_str()),
        Instr::Call(name) => push_text(out, name.as_str()),
        Instr::ReturnCall(name) => push_text(out, name.as_str()),
        Instr::IfResult(t) => {
            push_text(out, type_word(*t));
            push_text(out, ")");
            assert(out@ =~= old(out)@ + (type_text(*t) + ")"@));
        },
        Instr::Block(l) => push_label(out, *l),
        Instr::Loop(l) => push_label(out, *l),
        Instr::Br(l) => push_label(out, *l),
        Instr::BrIf(l) => push_label(out, *l),
        _ => {
            assert(out@ + Seq::<char>::empty() =~= out@);
        },
    }
}

fn push_instr(out: &mut String, i: &Instr)
    ensures
        final(out)@ == old(out)@ + instr_line(i@),
{
    push_text(out, "    ");
    push_text(out, mnemonic_of(i));
    push_operand(out, i);
    push_text(out, "\n");
    assert(out@ =~= old(out)@ + instr_line(i@));
}

fn push_body(out: &mut String, code: &Vec<Instr>)
    ensures
        final(out)@ == old(out)@ + body_text(instrs_view(code@)),
{
    let ghost all = instrs_view(code@);
    let mut i: usize = 0;
    assert(all.take(0) =~= Seq::<InstrView>::empty());
    assert(old(out)@ + body_text(all.take(0)) =~= old(out)@);
    while i < code.len()
        invariant
            i <= code.len(),
            all == instrs_view(code@),
            out@ == old(out)@ + body_text(all.take(i as int)),
        decreases code.len() - i,
    {
        assert(all.take(i + 1).drop_last() =~= all.take(i as int));
        assert(all.take(i + 1).last() == code@[i as int]@);
        push_instr(out, &code[i]);
        assert(out@ =~= old(out)@ + body_text(all.take(i + 1)));
        i = i + 1;
    }
    assert(all.take(i as int) =~= all);
}

fn push_local(out: &mut String, name: &str, t: Type)
    ensures
        final(out)@ == old(out)@ + local_line(name@, t),
{
    push_text(out, "    (local $");
    push_text(out, name);
    push_text(out, " ");
    push_text(out, type_word(t));
    push_text(out, ")\n");
    assert(out@ =~= old(out)@ + local_line(name@, t));
}

fn push_locals(out: &mut String, locals: &Vec<(String, Type)>)
    ensures
        final(out)@ == old(out)@ + locals_text(typing_view(locals@)),
{
    let ghost all = typing_view(locals@);
    let mut i: usize = 0;
    assert(all.take(0) =~= Seq::<(Name, Type)>::empty());
    assert(old(out)@ + locals_text(all.take(0)) =~= old(out)@);
    while i < locals.len()
        invariant
            i <= locals.len(),
            all == typing_view(locals@),
            out@ == old(out)@ + locals_text(all.take(i as int)),
        decreases locals.len() - i,
    {
        assert(all.take(i + 1).drop_last() =~= all.take(i as int));
        assert(all.take(i + 1).last() == (locals@[i as int].0@, locals@[i as int].1));
        push_local(out, locals[i].0.as_str(), locals[i].1);
        assert(out@ =~= old(out)@ + locals_text(all.take(i + 1)));
        i = i + 1;
    }
    assert(all.take(i as int) =~= all);
}

fn push_params(out: &mut String, params: &Vec<(String, Type)>)
    ensures
        final(out)@ == old(out)@ + params_text(typing_view(params@)),
{
    let ghost all = typing_view(params@);
    let mut i: usize = 0;
    assert(all.take(0) =~= Seq::<(Name, Type)>::empty());
    assert(old(out)@ + params_text(all.take(0)) =~= old(out)@);
    while i < params.len()
        invariant
            i <= params.len(),
            all == typing_view(params@),
            out@ == old(out)@ + params_text(all.take(i as int)),
        decreases params.len() - i,
    {
        assert(all.take(i + 1).drop_last() =~= all.take(i as int));
        assert(all.take(i + 1).last() == (params@[i as int].0@, params@[i as int].1));
        let ghost before = out@;
        push_text(out, " (param $");
        push_text(out, params[i].0.as_str());
        push_text(out, " ");
        push_text(out, type_word(params[i].1));
        push_text(out, ")");
        assert(out@ =~= before + param_text(params@[i as int].0@, params@[i as int].1));
        assert(out@ =~= old(out)@ + params_text(all.take(i + 1)));
        i = i + 1;
    }
    assert(all.take(i as int) =~= all);
}

fn push_header(out: &mut String, f: &FunctionCode)
    ensures
        final(out)@ == old(out)@ + header_text(f@),
{
    push_text(out, "  (func $");
    push_text(out, f.name.as_str());
    push_text(out, " (export \"");
    push_text(out, f.name.as_str());
    push_text(out, "\")");
    push_params(out, &f.params);
    push_text(out, " (result ");
    push_text(out, type_word(f.result));
    push_text(out, ") ;; line ");
    push_decimal(out, f.line as u64);
    push_text(out, "\n");
    assert(out@ =~= old(out)@ + header_text(f@));
}

fn push_function(out: &mut String, f: &FunctionCode)
    ensures
        final(out)@ == old(out)@ + function_text(f@),
{
    push_header(out, f);
    push_locals(out, &f.locals);
    push_local(out, "_result", f.result);
    push_body(out, &f.body);
    push_text(out, "  )\n");
    assert(out@ =~= old(out)@ + function_text(f@));
}

fn push_start(out: &mut String, s: &StartCode)
    ensures
        final(out)@ == old(out)@ + start_text(s@),
{
    push_text(out, "  (func $_start (export \"_start\") (result ");
    push_text(out, type_word(s.result));
    push_text(out, ")\n");
    push_locals(out, &s.locals);
    push_local(out, "_result", s.result);
    push_body(out, &s.body);
    push_text(out, "  )\n");
    assert(out@ =~= old(out)@ + start_text(s@));
}

impl Module {
    /// The text of this module.
    pub fn render(&self) -> (text: String)
        ensures
            text@ == module_text(self@),
    {
        let mut out = String::new();
        push_text(&mut out, "(module\n");
        let ghost all = function_codes_view(self.functions@);
        let ghost head = out@;
        let mut i: usize = 0;
        assert(all.take(0) =~= Seq::<FunctionCodeView>::empty());
        assert(head + functions_text(all.take(0)) =~= head);
        while i < self.functions.len()
            invariant
                i <= self.functions.len(),
                all == function_codes_view(self.functions@),
                out@ == head + functions_text(all.take(i as int)),
            decreases self.functions.len() - i,
        {
            assert(all.take(i + 1).drop_last() =~= all.take(i as int));
            assert(all.take(i + 1).last() == self.functions@[i as int]@);
            push_function(&mut out, &self.functions[i]);
            assert(out@ =~= head + functions_text(all.take(i + 1)));
            i = i + 1;
        }
        assert(all.take(i as int) =~= all);
        push_start(&mut out, &self.start);
        push_text(&mut out, ")");
        assert(out@ =~= module_text(self@));
        out
    }
}

} // verus!
