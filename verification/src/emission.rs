//! What the emitter produces, as functions from syntax trees to
//! instructions.
//!
//! Emission is driven by types: the type of every operand is computed by
//! the rules of [`crate::typing`], an integer operand of an operation on
//! floats is widened, and a float used as a condition is compared with
//! zero.

use crate::ast::{
    BinOp, ExprView, Float, FunctionView, LogicalOp, Name, ProgramView, StmtKindView, StmtView,
    Type, UnaryOp,
};
use crate::error::{codegen_error, CompilerErrorView};
use crate::optimizer::{no_code_after_return, return_is_last};
use crate::instr::{
    FunctionCodeView, InstrView, Label, LabelKind, ModuleView, StartCodeView, Typing,
};
use crate::typing::{binary_type, join, quoted, unary_type};
use vstd::prelude::*;

verus! {

/// The latest entry for `name`.
pub open spec fn assoc(list: Typing, name: Name) -> Option<Type>
    decreases list.len(),
{
    if list.len() == 0 {
        None
    } else if list.last().0 == name {
        Some(list.last().1)
    } else {
        assoc(list.drop_last(), name)
    }
}

/// The name of the local that holds the value of the left operand of a
/// short-circuit operator, and in the entry point the value of the last
/// expression statement.
pub open spec fn result_local() -> Name {
    "_result"@
}

/// What a function body is emitted in.
pub struct Scope {
    /// The parameters and locals of the function, with their types.
    pub locals: Typing,
    /// The functions of the program, with their return types.
    pub functions: Typing,
}

/// What a rule of emission gives: a value, or the error that ends the
/// emission.
pub type Emitted<T> = Result<T, CompilerErrorView>;

/// The type of an expression.
pub open spec fn expr_type(e: ExprView, scope: Scope, line: usize) -> Emitted<Type>
    decreases e,
{
    match e {
        ExprView::Number(_) => Ok(Type::I),
        ExprView::Float(_) => Ok(Type::F),
        ExprView::Identifier(name) => match assoc(scope.locals, name) {
            Some(t) => Ok(t),
            None => Err(codegen_error(line, quoted("Unknown local '"@, name))),
        },
        ExprView::Binary(l, op, r) => match expr_type(*l, scope, line) {
            Err(e) => Err(e),
            Ok(tl) => match expr_type(*r, scope, line) {
                Err(e) => Err(e),
                Ok(tr) => match binary_type(op, tl, tr) {
                    Some(t) => Ok(t),
                    None => Err(codegen_error(line, "Remainder of floats"@)),
                },
            },
        },
        ExprView::Unary(op, x) => match expr_type(*x, scope, line) {
            Err(e) => Err(e),
            Ok(t) => Ok(unary_type(op, t)),
        },
        ExprView::Call(name, _) => match assoc(scope.functions, name) {
            Some(t) => Ok(t),
            None => Err(codegen_error(line, quoted("Unknown function '"@, name))),
        },
        ExprView::Logical(l, _, r) => match expr_type(*l, scope, line) {
            Err(e) => Err(e),
            Ok(tl) => match expr_type(*r, scope, line) {
                Err(e) => Err(e),
                Ok(tr) => Ok(join(tl, tr)),
            },
        },
    }
}

/// The conversion of a value of type `from` that is used as one of type `to`.
pub open spec fn widen(from: Type, to: Type) -> Seq<InstrView> {
    if from == Type::I && to == Type::F {
        seq![InstrView::F32ConvertI32S]
    } else {
        Seq::empty()
    }
}

/// The float `0.0`.
pub open spec fn zero_float() -> Float {
    Float { bits: 0 }
}

/// Turns a value of type `t` into 1 if it is zero and into 0 otherwise.
pub open spec fn test_zero(t: Type) -> Seq<InstrView> {
    match t {
        Type::I => seq![InstrView::I32Eqz],
        Type::F => seq![InstrView::F32Const(zero_float()), InstrView::Arith(BinOp::Eq, Type::F)],
    }
}

/// Turns a value of type `t` into 0 if it is zero and into 1 otherwise.
pub open spec fn test_nonzero(t: Type) -> Seq<InstrView> {
    match t {
        Type::I => seq![InstrView::I32Const(0), InstrView::Arith(BinOp::Ne, Type::I)],
        Type::F => seq![InstrView::F32Const(zero_float()), InstrView::Arith(BinOp::Ne, Type::F)],
    }
}

/// Turns a condition of type `t` into an integer: a float is compared with
/// zero, an integer is left as it is.
pub open spec fn condition(t: Type) -> Seq<InstrView> {
    match t {
        Type::I => Seq::empty(),
        Type::F => test_nonzero(Type::F),
    }
}

/// The test of a short-circuit operator on its left operand: whether the
/// operand decides the result.
pub open spec fn short_circuit_test(op: LogicalOp, t: Type) -> Seq<InstrView> {
    match op {
        LogicalOp::And => test_zero(t),
        LogicalOp::Or => test_nonzero(t),
    }
}

/// The code of a binary operator from the code and types of its
/// operands: each operand, widened where needed, then the operator.
pub open spec fn emit_binary(
    op: BinOp,
    l: Seq<InstrView>,
    tl: Type,
    r: Seq<InstrView>,
    tr: Type,
) -> Seq<InstrView> {
    let t = join(tl, tr);
    l + widen(tl, t) + r + widen(tr, t) + seq![InstrView::Arith(op, t)]
}

/// The code of a prefix operator from the code and type of its operand.
pub open spec fn emit_unary(op: UnaryOp, x: Seq<InstrView>, t: Type) -> Seq<InstrView> {
    match (op, t) {
        (UnaryOp::Neg, Type::F) => x + seq![InstrView::F32Neg],
        (UnaryOp::Neg, Type::I) => seq![InstrView::I32Const(0)] + x + seq![
            InstrView::Arith(BinOp::Sub, Type::I),
        ],
        (UnaryOp::Not, _) => x + test_zero(t),
    }
}

/// What stands between the operands of a short-circuit operator: the
/// value of the left operand is kept in a local, tested, and yielded
/// again where it decides the result.
pub open spec fn short_circuit(op: LogicalOp, t: Type) -> Seq<InstrView> {
    seq![InstrView::LocalTee(result_local())] + short_circuit_test(op, t) + seq![
        InstrView::IfResult(t),
        InstrView::LocalGet(result_local()),
        InstrView::Else,
    ]
}

/// The code of a short-circuit operator from the code and types of its
/// operands.
pub open spec fn emit_logical(
    op: LogicalOp,
    l: Seq<InstrView>,
    tl: Type,
    r: Seq<InstrView>,
    tr: Type,
) -> Seq<InstrView> {
    let t = join(tl, tr);
    l + widen(tl, t) + short_circuit(op, t) + r + widen(tr, t) + seq![InstrView::End]
}

/// The code that leaves the value of an expression on the stack.
pub open spec fn emit_expr(e: ExprView, scope: Scope, line: usize) -> Emitted<Seq<InstrView>>
    decreases e,
{
    match e {
        ExprView::Number(n) => Ok(seq![InstrView::I32Const(n)]),
        ExprView::Float(f) => Ok(seq![InstrView::F32Const(f)]),
        ExprView::Identifier(name) => match assoc(scope.locals, name) {
            Some(_) => Ok(seq![InstrView::LocalGet(name)]),
            None => Err(codegen_error(line, quoted("Unknown local '"@, name))),
        },
        ExprView::Binary(l, op, r) => match expr_type(e, scope, line) {
            Err(e) => Err(e),
            Ok(_) => match (expr_type(*l, scope, line), expr_type(*r, scope, line)) {
                (Ok(tl), Ok(tr)) => match emit_expr(*l, scope, line) {
                    Err(e) => Err(e),
                    Ok(cl) => match emit_expr(*r, scope, line) {
                        Err(e) => Err(e),
                        Ok(cr) => Ok(emit_binary(op, cl, tl, cr, tr)),
                    },
                },
                (Err(e), _) => Err(e),
                (_, Err(e)) => Err(e),
            },
        },
        ExprView::Unary(op, x) => match expr_type(*x, scope, line) {
            Err(e) => Err(e),
            Ok(t) => match emit_expr(*x, scope, line) {
                Err(e) => Err(e),
                Ok(cx) => Ok(emit_unary(op, cx, t)),
            },
        },
        ExprView::Call(name, args) => match assoc(scope.functions, name) {
            None => Err(codegen_error(line, quoted("Unknown function '"@, name))),
            Some(_) => match emit_args(args, scope, line) {
                Err(e) => Err(e),
                Ok(code) => Ok(code.push(InstrView::Call(name))),
            },
        },
        ExprView::Logical(l, op, r) => match expr_type(e, scope, line) {
            Err(e) => Err(e),
            Ok(_) => match (expr_type(*l, scope, line), expr_type(*r, scope, line)) {
                (Ok(tl), Ok(tr)) => match emit_expr(*l, scope, line) {
                    Err(e) => Err(e),
                    Ok(cl) => match emit_expr(*r, scope, line) {
                        Err(e) => Err(e),
                        Ok(cr) => Ok(emit_logical(op, cl, tl, cr, tr)),
                    },
                },
                (Err(e), _) => Err(e),
                (_, Err(e)) => Err(e),
            },
        },
    }
}

/// The code of the arguments of a call, from left to right.
pub open spec fn emit_args(args: Seq<ExprView>, scope: Scope, line: usize) -> Emitted<
    Seq<InstrView>,
>
    decreases args,
{
    if args.len() == 0 {
        Ok(Seq::empty())
    } else {
        match emit_expr(args[0], scope, line) {
            Err(e) => Err(e),
            Ok(first) => prefixed(first, emit_args(args.drop_first(), scope, line)),
        }
    }
}

/// The labels that `break` and `continue` go to in a loop.
pub struct LoopLabels {
    pub exit: Label,
    pub next: Label,
}

/// What a statement is emitted in.
pub struct Context {
    pub scope: Scope,
    /// The loops around the statement, the innermost last.
    pub loops: Seq<LoopLabels>,
}

/// The context inside a loop with the given labels.
pub open spec fn inside(ctx: Context, labels: LoopLabels) -> Context {
    Context { scope: ctx.scope, loops: ctx.loops.push(labels) }
}

/// The number of the loop after loop `n`. The count stops at the largest `usize`.
pub open spec fn next_id(n: usize) -> usize {
    if n < usize::MAX {
        (n + 1) as usize
    } else {
        n
    }
}

/// The label of the given kind of loop `id`.
pub open spec fn label(kind: LabelKind, id: usize) -> Label {
    Label { kind, id }
}

/// Instructions, and the number of the next loop.
pub type Code = Emitted<(Seq<InstrView>, usize)>;

/// The code of `first`, then what `rest` gives from the loop number that
/// `first` left.
pub open spec fn then_code(first: Seq<InstrView>, rest: Code) -> Code {
    match rest {
        Err(e) => Err(e),
        Ok((code, n)) => Ok((first + code, n)),
    }
}

/// The value of an expression stored in a local of the same type.
pub open spec fn emit_store(name: Name, e: ExprView, scope: Scope, line: usize) -> Emitted<
    Seq<InstrView>,
> {
    match assoc(scope.locals, name) {
        None => Err(codegen_error(line, quoted("Unknown local '"@, name))),
        Some(t) => match expr_type(e, scope, line) {
            Err(e) => Err(e),
            Ok(te) => if te != t {
                Err(codegen_error(line, quoted("Inconsistent type of local '"@, name)))
            } else {
                match emit_expr(e, scope, line) {
                    Err(e) => Err(e),
                    Ok(code) => Ok(code.push(InstrView::LocalSet(name))),
                }
            },
        },
    }
}

/// The code of an expression used as a condition, then `test` applied to
/// its type.
pub open spec fn emit_tested(
    e: ExprView,
    scope: Scope,
    line: usize,
    falsy: bool,
) -> Emitted<Seq<InstrView>> {
    match expr_type(e, scope, line) {
        Err(e) => Err(e),
        Ok(t) => match emit_expr(e, scope, line) {
            Err(e) => Err(e),
            Ok(code) => Ok(
                code + if falsy {
                    test_zero(t)
                } else {
                    condition(t)
                },
            ),
        },
    }
}

/// A `return` of a call is a tail call.
pub open spec fn emit_return(e: ExprView, scope: Scope, line: usize) -> Emitted<Seq<InstrView>> {
    match e {
        ExprView::Call(name, args) => match assoc(scope.functions, name) {
            None => Err(codegen_error(line, quoted("Unknown function '"@, name))),
            Some(_) => match emit_args(args, scope, line) {
                Err(e) => Err(e),
                Ok(code) => Ok(code.push(InstrView::ReturnCall(name))),
            },
        },
        _ => match emit_expr(e, scope, line) {
            Err(e) => Err(e),
            Ok(code) => Ok(code.push(InstrView::Return)),
        },
    }
}

/// `break` and `continue` branch to the labels of the innermost loop.
pub open spec fn emit_jump(loops: Seq<LoopLabels>, exit: bool, line: usize) -> Emitted<
    Seq<InstrView>,
> {
    if loops.len() == 0 {
        Err(codegen_error(line, "Jump outside of loop"@))
    } else if exit {
        Ok(seq![InstrView::Br(loops.last().exit)])
    } else {
        Ok(seq![InstrView::Br(loops.last().next)])
    }
}

/// `prefix` in front of the code that `rest` gives.
pub open spec fn prefixed(prefix: Seq<InstrView>, rest: Emitted<Seq<InstrView>>) -> Emitted<
    Seq<InstrView>,
> {
    match rest {
        Err(e) => Err(e),
        Ok(code) => Ok(prefix + code),
    }
}

/// Code in front of code in front of a result is both in front of it.
pub proof fn lemma_prefixed_assoc(
    prefix: Seq<InstrView>,
    first: Seq<InstrView>,
    rest: Emitted<Seq<InstrView>>,
)
    ensures
        prefixed(prefix + first, rest) == prefixed(prefix, prefixed(first, rest)),
{
    match rest {
        Ok(code) => {
            assert((prefix + first) + code =~= prefix + (first + code));
        },
        Err(_) => {},
    }
}

/// Code in front of code in front of a result is both in front of it.
pub proof fn lemma_then_code_assoc(prefix: Seq<InstrView>, first: Seq<InstrView>, rest: Code)
    ensures
        then_code(prefix + first, rest) == then_code(prefix, then_code(first, rest)),
{
    match rest {
        Ok((code, n)) => {
            assert((prefix + first) + code =~= prefix + (first + code));
        },
        Err(_) => {},
    }
}

/// Code that uses no loop number, with the number unchanged.
pub open spec fn lift(code: Emitted<Seq<InstrView>>, n: usize) -> Code {
    match code {
        Err(e) => Err(e),
        Ok(c) => Ok((c, n)),
    }
}

/// The code of a statement that may be absent.
pub open spec fn emit_opt_stmt(s: Option<Box<StmtView>>, ctx: Context, n: usize) -> Code
    decreases s, 13nat,
{
    match s {
        Some(b) => emit_stmt(*b, ctx, n),
        None => Ok((Seq::empty(), n)),
    }
}

/// The condition as an integer, `if`, the branches with `else` between
/// them where there are two, and `end`.
pub open spec fn emit_if(s: StmtView, ctx: Context, n: usize) -> Code
    decreases s, 10nat,
{
    match s.kind {
        StmtKindView::If(c, t, e) => match emit_tested(c, ctx.scope, s.line, false) {
            Err(e) => Err(e),
            Ok(cond) => match emit_stmt(*t, ctx, n) {
                Err(e) => Err(e),
                Ok((then_branch, n1)) => match e {
                    None => Ok(
                        (cond + seq![InstrView::If] + then_branch + seq![InstrView::End], n1),
                    ),
                    Some(b) => match emit_stmt(*b, ctx, n1) {
                        Err(e) => Err(e),
                        Ok((else_branch, n2)) => Ok(
                            (
                                cond + seq![InstrView::If] + then_branch + seq![InstrView::Else]
                                    + else_branch + seq![InstrView::End],
                                n2,
                            ),
                        ),
                    },
                },
            },
        },
        _ => Ok((Seq::empty(), n)),
    }
}

/// `block $break_N`, `loop $continue_N`, the test, the body, and the
/// branch back.
pub open spec fn emit_while(s: StmtView, ctx: Context, n: usize) -> Code
    decreases s, 10nat,
{
    match s.kind {
        StmtKindView::While(c, b) => {
            let exit = label(LabelKind::Break, n);
            let next = label(LabelKind::Continue, n);
            match emit_tested(c, ctx.scope, s.line, true) {
                Err(e) => Err(e),
                Ok(cond) => match emit_stmt(
                    *b,
                    inside(ctx, LoopLabels { exit, next }),
                    next_id(n),
                ) {
                    Err(e) => Err(e),
                    Ok((body, n1)) => Ok(
                        (
                            seq![InstrView::Block(exit), InstrView::Loop(next)] + cond + seq![
                                InstrView::BrIf(exit),
                            ] + body + seq![InstrView::Br(next), InstrView::End, InstrView::End],
                            n1,
                        ),
                    ),
                },
            }
        },
        _ => Ok((Seq::empty(), n)),
    }
}

/// The test of a `for`, if it has one, with the branch out of the loop.
pub open spec fn emit_for_test(
    c: Option<ExprView>,
    exit: Label,
    scope: Scope,
    line: usize,
) -> Emitted<Seq<InstrView>> {
    match c {
        None => Ok(Seq::empty()),
        Some(e) => match emit_tested(e, scope, line, true) {
            Err(e) => Err(e),
            Ok(code) => Ok(code.push(InstrView::BrIf(exit))),
        },
    }
}

/// The body of a `for` in a `block $continue_N`, then the third clause.
pub open spec fn emit_for_body(s: StmtView, within: Context, n: usize, next: Label) -> Code
    decreases s, 8nat,
{
    match s.kind {
        StmtKindView::For(_, _, step, body) => match emit_stmt(*body, within, n) {
            Err(e) => Err(e),
            Ok((inner, n1)) => match emit_opt_stmt(step, within, n1) {
                Err(e) => Err(e),
                Ok((last, n2)) => Ok(
                    (seq![InstrView::Block(next)] + inner + seq![InstrView::End] + last, n2),
                ),
            },
        },
        _ => Ok((Seq::empty(), n)),
    }
}

/// `block $break_N`, `loop $loop_N`, the test, the body with the third
/// clause, and the branch back.
pub open spec fn emit_for_loop(s: StmtView, ctx: Context, n: usize) -> Code
    decreases s, 9nat,
{
    match s.kind {
        StmtKindView::For(_, cond, _, _) => {
            let exit = label(LabelKind::Break, n);
            let next = label(LabelKind::Continue, n);
            let again = label(LabelKind::Loop, n);
            let within = inside(ctx, LoopLabels { exit, next });
            match emit_for_test(cond, exit, ctx.scope, s.line) {
                Err(e) => Err(e),
                Ok(test) => match emit_for_body(s, within, next_id(n), next) {
                    Err(e) => Err(e),
                    Ok((inner, n1)) => Ok(
                        (
                            seq![InstrView::Block(exit), InstrView::Loop(again)] + test + inner
                                + seq![InstrView::Br(again), InstrView::End, InstrView::End],
                            n1,
                        ),
                    ),
                },
            }
        },
        _ => Ok((Seq::empty(), n)),
    }
}

/// The first clause, then the loop.
pub open spec fn emit_for(s: StmtView, ctx: Context, n: usize) -> Code
    decreases s, 10nat,
{
    match s.kind {
        StmtKindView::For(init, _, _, _) => match emit_opt_stmt(init, ctx, n) {
            Err(e) => Err(e),
            Ok((first, n0)) => then_code(first, emit_for_loop(s, ctx, n0)),
        },
        _ => Ok((Seq::empty(), n)),
    }
}

/// What a statement does, without the comment in front of it.
pub open spec fn emit_kind(s: StmtView, ctx: Context, n: usize) -> Code
    decreases s, 11nat,
{
    match s.kind {
        StmtKindView::Let(name, e) => lift(emit_store(name, e, ctx.scope, s.line), n),
        StmtKindView::Const(name, e) => lift(emit_store(name, e, ctx.scope, s.line), n),
        StmtKindView::Assign(name, e) => lift(emit_store(name, e, ctx.scope, s.line), n),
        StmtKindView::If(_, _, _) => emit_if(s, ctx, n),
        StmtKindView::While(_, _) => emit_while(s, ctx, n),
        StmtKindView::For(_, _, _, _) => emit_for(s, ctx, n),
        StmtKindView::Block(stmts) => emit_stmts(stmts, ctx, n),
        StmtKindView::Return(e) => lift(emit_return(e, ctx.scope, s.line), n),
        StmtKindView::Break => lift(emit_jump(ctx.loops, true, s.line), n),
        StmtKindView::Continue => lift(emit_jump(ctx.loops, false, s.line), n),
        StmtKindView::Expr(e) => match emit_expr(e, ctx.scope, s.line) {
            Err(e) => Err(e),
            Ok(code) => Ok((code.push(InstrView::Drop), n)),
        },
    }
}

/// A comment with the line of the statement, then what the statement does.
pub open spec fn emit_stmt(s: StmtView, ctx: Context, n: usize) -> Code
    decreases s, 12nat,
{
    then_code(seq![InstrView::Comment(s.line)], emit_kind(s, ctx, n))
}

/// The code of the statements, one after the other.
pub open spec fn emit_stmts(ss: Seq<StmtView>, ctx: Context, n: usize) -> Code
    decreases ss, 13nat,
{
    if ss.len() == 0 {
        Ok((Seq::empty(), n))
    } else {
        match emit_stmt(ss[0], ctx, n) {
            Err(e) => Err(e),
            Ok((first, n1)) => then_code(first, emit_stmts(ss.drop_first(), ctx, n1)),
        }
    }
}

/// A statement outside of any function: the value of an expression
/// statement is kept as the result of the entry point.
pub open spec fn emit_top_stmt(s: StmtView, ctx: Context, n: usize) -> Code {
    match s.kind {
        StmtKindView::Expr(e) => match emit_expr(e, ctx.scope, s.line) {
            Err(e) => Err(e),
            Ok(code) => Ok(
                (
                    seq![InstrView::Comment(s.line)] + code + seq![
                        InstrView::LocalSet(result_local()),
                    ],
                    n,
                ),
            ),
        },
        _ => emit_stmt(s, ctx, n),
    }
}

/// The code of the statements outside of any function.
pub open spec fn emit_top_stmts(ss: Seq<StmtView>, ctx: Context, n: usize) -> Code
    decreases ss.len(),
{
    if ss.len() == 0 {
        Ok((Seq::empty(), n))
    } else {
        match emit_top_stmt(ss[0], ctx, n) {
            Err(e) => Err(e),
            Ok((first, n1)) => then_code(first, emit_top_stmts(ss.drop_first(), ctx, n1)),
        }
    }
}

/// The locals with the one that a `let` or `const` declares, unless the
/// name is taken; its type is that of the initializer.
pub open spec fn collect_binding(
    name: Name,
    e: ExprView,
    locals: Typing,
    functions: Typing,
    line: usize,
) -> Emitted<Typing> {
    if assoc(locals, name) is Some {
        Ok(locals)
    } else {
        match expr_type(e, Scope { locals, functions }, line) {
            Err(e) => Err(e),
            Ok(t) => Ok(locals.push((name, t))),
        }
    }
}

/// The locals with those of a statement that may be absent.
pub open spec fn collect_opt(
    s: Option<Box<StmtView>>,
    locals: Typing,
    functions: Typing,
) -> Emitted<Typing>
    decreases s, 1nat,
{
    match s {
        Some(b) => collect_stmt(*b, locals, functions),
        None => Ok(locals),
    }
}

/// The locals with those that the statement declares, here and inside.
pub open spec fn collect_stmt(s: StmtView, locals: Typing, functions: Typing) -> Emitted<Typing>
    decreases s, 0nat,
{
    match s.kind {
        StmtKindView::Let(name, e) => collect_binding(name, e, locals, functions, s.line),
        StmtKindView::Const(name, e) => collect_binding(name, e, locals, functions, s.line),
        StmtKindView::If(_, t, e) => match collect_stmt(*t, locals, functions) {
            Err(e) => Err(e),
            Ok(l1) => collect_opt(e, l1, functions),
        },
        StmtKindView::While(_, b) => collect_stmt(*b, locals, functions),
        StmtKindView::For(init, _, step, body) => match collect_opt(init, locals, functions) {
            Err(e) => Err(e),
            Ok(l1) => match collect_stmt(*body, l1, functions) {
                Err(e) => Err(e),
                Ok(l2) => collect_opt(step, l2, functions),
            },
        },
        StmtKindView::Block(stmts) => collect_stmts(stmts, locals, functions),
        _ => Ok(locals),
    }
}

/// The locals with those that the statements declare.
pub open spec fn collect_stmts(ss: Seq<StmtView>, locals: Typing, functions: Typing) -> Emitted<
    Typing,
>
    decreases ss, 1nat,
{
    if ss.len() == 0 {
        Ok(locals)
    } else {
        match collect_stmt(ss[0], locals, functions) {
            Err(e) => Err(e),
            Ok(l1) => collect_stmts(ss.drop_first(), l1, functions),
        }
    }
}

/// The type of parameter `i`: what the analysis found, else the integer type.
pub open spec fn param_type(f: FunctionView, i: int) -> Type {
    match f.param_types {
        Some(ts) => if 0 <= i < ts.len() {
            ts[i]
        } else {
            Type::I
        },
        None => Type::I,
    }
}

/// The parameters of a function with their types.
pub open spec fn param_typing(f: FunctionView) -> Typing {
    Seq::new(f.params.len(), |i: int| (f.params[i], param_type(f, i)))
}

/// The return type: what the analysis found, else the integer type.
pub open spec fn return_type(f: FunctionView) -> Type {
    match f.return_type {
        Some(t) => t,
        None => Type::I,
    }
}

/// The functions of a program with their return types.
pub open spec fn function_typing(fs: Seq<FunctionView>) -> Typing {
    Seq::new(fs.len(), |i: int| (fs[i].name, return_type(fs[i])))
}

/// The entries behind the first `n`.
pub open spec fn drop_prefix(list: Typing, n: nat) -> Typing {
    if n <= list.len() {
        list.skip(n as int)
    } else {
        Seq::empty()
    }
}

/// The value that a function yields where no `return` runs.
pub open spec fn default_result(t: Type) -> InstrView {
    match t {
        Type::I => InstrView::I32Const(0),
        Type::F => InstrView::F32Const(zero_float()),
    }
}

/// The code of a function, and the number of the next loop.
pub open spec fn emit_function(f: FunctionView, functions: Typing, n: usize) -> Emitted<
    (FunctionCodeView, usize),
> {
    let params = param_typing(f);
    let result = return_type(f);
    match collect_stmts(f.body, params.push((result_local(), result)), functions) {
        Err(e) => Err(e),
        Ok(all) => {
            let ctx = Context { scope: Scope { locals: all, functions }, loops: Seq::empty() };
            match emit_stmts(f.body, ctx, n) {
                Err(e) => Err(e),
                Ok((body, n1)) => Ok(
                    (
                        FunctionCodeView {
                            name: f.name,
                            params,
                            result,
                            line: f.line,
                            locals: drop_prefix(all, params.len() + 1),
                            body: body.push(default_result(result)),
                        },
                        n1,
                    ),
                ),
            }
        },
    }
}

/// The code of the functions from index `i` on, added to `acc`.
pub open spec fn emit_functions(
    fs: Seq<FunctionView>,
    i: int,
    functions: Typing,
    acc: Seq<FunctionCodeView>,
    n: usize,
) -> Emitted<(Seq<FunctionCodeView>, usize)>
    decreases fs.len() - i,
{
    if 0 <= i < fs.len() {
        match emit_function(fs[i], functions, n) {
            Err(e) => Err(e),
            Ok((code, n1)) => emit_functions(fs, i + 1, functions, acc.push(code), n1),
        }
    } else {
        Ok((acc, n))
    }
}

/// The type of the entry point's result: that of the last statement
/// outside of any function if it is an expression statement, else the
/// integer type.
pub open spec fn start_type(ss: Seq<StmtView>, functions: Typing) -> Emitted<Type> {
    if ss.len() == 0 {
        Ok(Type::I)
    } else {
        match ss.last().kind {
            StmtKindView::Expr(e) => match collect_stmts(ss, Seq::empty(), functions) {
                Err(e) => Err(e),
                Ok(locals) => expr_type(e, Scope { locals, functions }, ss.last().line),
            },
            _ => Ok(Type::I),
        }
    }
}

/// The entry point: the statements outside of any function, then the
/// value of the last expression statement as the result.
pub open spec fn emit_start(ss: Seq<StmtView>, functions: Typing, n: usize) -> Emitted<
    StartCodeView,
> {
    match start_type(ss, functions) {
        Err(e) => Err(e),
        Ok(result) => match collect_stmts(ss, seq![(result_local(), result)], functions) {
            Err(e) => Err(e),
            Ok(all) => {
                let ctx = Context { scope: Scope { locals: all, functions }, loops: Seq::empty() };
                match emit_top_stmts(ss, ctx, n) {
                    Err(e) => Err(e),
                    Ok((body, _)) => Ok(
                        StartCodeView {
                            result,
                            locals: drop_prefix(all, 1),
                            body: body.push(InstrView::LocalGet(result_local())),
                        },
                    ),
                }
            },
        },
    }
}

/// The module that the program is compiled to, with loops numbered from `n`.
pub open spec fn emit_program(p: ProgramView, n: usize) -> Emitted<ModuleView> {
    let functions = function_typing(p.functions);
    match emit_functions(p.functions, 0, functions, Seq::empty(), n) {
        Err(e) => Err(e),
        Ok((codes, n1)) => match emit_start(p.top_level, functions, n1) {
            Err(e) => Err(e),
            Ok(start) => Ok(ModuleView { functions: codes, start }),
        },
    }
}


/// A binary operator is emitted as its left operand, widened if the
/// operation is on floats and the operand is an integer, then its right
/// operand, widened likewise, then one instruction of the type of the
/// operation. The operation is on integers exactly when both operands
/// are; otherwise it is on floats, and each integer operand is followed
/// by exactly one conversion.
pub proof fn lemma_binary_emission(l: ExprView, op: BinOp, r: ExprView, scope: Scope, line: usize)
    requires
        emit_expr(ExprView::Binary(Box::new(l), op, Box::new(r)), scope, line) is Ok,
    ensures
        ({
            let code = emit_expr(ExprView::Binary(Box::new(l), op, Box::new(r)), scope, line)->Ok_0;
            let cl = emit_expr(l, scope, line)->Ok_0;
            let cr = emit_expr(r, scope, line)->Ok_0;
            let tl = expr_type(l, scope, line)->Ok_0;
            let tr = expr_type(r, scope, line)->Ok_0;
            let t = join(tl, tr);
            &&& emit_expr(l, scope, line) is Ok
            &&& emit_expr(r, scope, line) is Ok
            &&& expr_type(l, scope, line) is Ok
            &&& expr_type(r, scope, line) is Ok
            &&& code == cl + widen(tl, t) + cr + widen(tr, t) + seq![InstrView::Arith(op, t)]
            &&& code.last() == InstrView::Arith(op, t)
            &&& t == Type::I <==> tl == Type::I && tr == Type::I
            &&& widen(tl, t) == if t == Type::F && tl == Type::I {
                seq![InstrView::F32ConvertI32S]
            } else {
                Seq::empty()
            }
            &&& widen(tr, t) == if t == Type::F && tr == Type::I {
                seq![InstrView::F32ConvertI32S]
            } else {
                Seq::empty()
            }
        }),
{
}

/// A negation is emitted on the type of its operand: of a float as the
/// operand and `f32.neg`, of an integer as zero, the operand and
/// `i32.sub`. A `!` is emitted as the operand and a test for zero on the
/// type of the operand.
pub proof fn lemma_unary_emission(op: UnaryOp, x: ExprView, scope: Scope, line: usize)
    requires
        emit_expr(ExprView::Unary(op, Box::new(x)), scope, line) is Ok,
    ensures
        ({
            let code = emit_expr(ExprView::Unary(op, Box::new(x)), scope, line)->Ok_0;
            let cx = emit_expr(x, scope, line)->Ok_0;
            let t = expr_type(x, scope, line)->Ok_0;
            &&& emit_expr(x, scope, line) is Ok
            &&& expr_type(x, scope, line) is Ok
            &&& op == UnaryOp::Neg && t == Type::F ==> code == cx + seq![InstrView::F32Neg]
            &&& op == UnaryOp::Neg && t == Type::I ==> code == seq![InstrView::I32Const(0)] + cx
                + seq![InstrView::Arith(BinOp::Sub, Type::I)]
            &&& op == UnaryOp::Not ==> code == cx + test_zero(t)
        }),
{
}

/// Whether `code` holds a `local.set` of `name`.
pub open spec fn sets_local(code: Seq<InstrView>, name: Name) -> bool {
    exists|j: int| 0 <= j < code.len() && code[j] == InstrView::LocalSet(name)
}

/// Whether `longer` is `shorter` with entries added behind, each of
/// which `code` sets.
pub open spec fn grows_by_set_locals(
    shorter: Typing,
    longer: Typing,
    code: Seq<InstrView>,
) -> bool {
    &&& shorter.len() <= longer.len()
    &&& forall|k: int| 0 <= k < shorter.len() ==> longer[k] == shorter[k]
    &&& forall|k: int|
        shorter.len() <= k < longer.len() ==> sets_local(code, #[trigger] longer[k].0)
}

proof fn lemma_sets_within(
    pre: Seq<InstrView>,
    mid: Seq<InstrView>,
    post: Seq<InstrView>,
    name: Name,
)
    requires
        sets_local(mid, name),
    ensures
        sets_local(pre + mid + post, name),
{
    let j = choose|j: int| 0 <= j < mid.len() && mid[j] == InstrView::LocalSet(name);
    assert((pre + mid + post)[pre.len() + j] == InstrView::LocalSet(name));
}

/// Growth carries over to code that holds the code in its middle.
proof fn lemma_grows_within(
    shorter: Typing,
    longer: Typing,
    pre: Seq<InstrView>,
    mid: Seq<InstrView>,
    post: Seq<InstrView>,
)
    requires
        grows_by_set_locals(shorter, longer, mid),
    ensures
        grows_by_set_locals(shorter, longer, pre + mid + post),
{
    assert forall|k: int| shorter.len() <= k < longer.len() implies sets_local(
        pre + mid + post,
        #[trigger] longer[k].0,
    ) by {
        lemma_sets_within(pre, mid, post, longer[k].0);
    }
}

/// Growth in two steps, set by two stretches of code, is growth set by
/// code that holds both.
proof fn lemma_grows_twice(
    a: Typing,
    b: Typing,
    c: Typing,
    first: Seq<InstrView>,
    second: Seq<InstrView>,
    whole: Seq<InstrView>,
)
    requires
        grows_by_set_locals(a, b, first),
        grows_by_set_locals(b, c, second),
        forall|name: Name| sets_local(first, name) ==> sets_local(whole, name),
        forall|name: Name| sets_local(second, name) ==> sets_local(whole, name),
    ensures
        grows_by_set_locals(a, c, whole),
{
    assert forall|k: int| a.len() <= k < c.len() implies sets_local(whole, #[trigger] c[k].0) by {
        if k < b.len() {
            assert(c[k] == b[k]);
            assert(sets_local(first, b[k].0));
        } else {
            assert(sets_local(second, c[k].0));
        }
    }
}

proof fn lemma_collect_emit_binding(
    name: Name,
    e: ExprView,
    locals: Typing,
    scope: Scope,
    line: usize,
)
    requires
        collect_binding(name, e, locals, scope.functions, line) is Ok,
        emit_store(name, e, scope, line) is Ok,
    ensures
        grows_by_set_locals(
            locals,
            collect_binding(name, e, locals, scope.functions, line)->Ok_0,
            emit_store(name, e, scope, line)->Ok_0,
        ),
{
    let code = emit_store(name, e, scope, line)->Ok_0;
    let c = emit_expr(e, scope, line)->Ok_0;
    assert(code == c.push(InstrView::LocalSet(name)));
    assert(code[c.len() as int] == InstrView::LocalSet(name));
}

proof fn lemma_collect_emit_opt(
    s: Option<Box<StmtView>>,
    locals: Typing,
    ctx: Context,
    n: usize,
)
    requires
        collect_opt(s, locals, ctx.scope.functions) is Ok,
        emit_opt_stmt(s, ctx, n) is Ok,
    ensures
        grows_by_set_locals(
            locals,
            collect_opt(s, locals, ctx.scope.functions)->Ok_0,
            emit_opt_stmt(s, ctx, n)->Ok_0.0,
        ),
    decreases s, 13nat,
{
    match s {
        Some(b) => {
            lemma_collect_emit_stmt(*b, locals, ctx, n);
        },
        None => {},
    }
}

proof fn lemma_collect_emit_if(s: StmtView, locals: Typing, ctx: Context, n: usize)
    requires
        s.kind is If,
        collect_stmt(s, locals, ctx.scope.functions) is Ok,
        emit_if(s, ctx, n) is Ok,
    ensures
        grows_by_set_locals(
            locals,
            collect_stmt(s, locals, ctx.scope.functions)->Ok_0,
            emit_if(s, ctx, n)->Ok_0.0,
        ),
    decreases s, 10nat,
{
    match s.kind {
        StmtKindView::If(c, t, e) => {
            let functions = ctx.scope.functions;
            let cond = emit_tested(c, ctx.scope, s.line, false)->Ok_0;
            let (then_part, n1) = emit_stmt(*t, ctx, n)->Ok_0;
            let l1 = collect_stmt(*t, locals, functions)->Ok_0;
            let l2 = collect_stmt(s, locals, functions)->Ok_0;
            let whole = emit_if(s, ctx, n)->Ok_0.0;
            lemma_collect_emit_stmt(*t, locals, ctx, n);
            match e {
                None => {
                    assert(collect_stmt(s, locals, functions) == collect_opt(e, l1, functions));
                    assert(l2 == l1);
                    assert(whole =~= (cond + seq![InstrView::If]) + then_part + seq![
                        InstrView::End,
                    ]);
                    lemma_grows_within(
                        locals,
                        l1,
                        cond + seq![InstrView::If],
                        then_part,
                        seq![InstrView::End],
                    );
                },
                Some(b) => {
                    let else_code = emit_stmt(*b, ctx, n1)->Ok_0.0;
                    assert(collect_stmt(s, locals, functions) == collect_opt(e, l1, functions));
                    assert(collect_opt(e, l1, functions) == collect_stmt(*b, l1, functions));
                    lemma_collect_emit_stmt(*b, l1, ctx, n1);
                    assert(whole =~= (cond + seq![InstrView::If]) + then_part + (seq![
                        InstrView::Else,
                    ] + else_code + seq![InstrView::End]));
                    assert(whole =~= (cond + seq![InstrView::If] + then_part + seq![
                        InstrView::Else,
                    ]) + else_code + seq![InstrView::End]);
                    assert forall|name: Name| sets_local(then_part, name) implies sets_local(
                        whole,
                        name,
                    ) by {
                        lemma_sets_within(
                            cond + seq![InstrView::If],
                            then_part,
                            seq![InstrView::Else] + else_code + seq![InstrView::End],
                            name,
                        );
                    }
                    assert forall|name: Name| sets_local(else_code, name) implies sets_local(
                        whole,
                        name,
                    ) by {
                        lemma_sets_within(
                            cond + seq![InstrView::If] + then_part + seq![InstrView::Else],
                            else_code,
                            seq![InstrView::End],
                            name,
                        );
                    }
                    lemma_grows_twice(locals, l1, l2, then_part, else_code, whole);
                },
            }
        },
        _ => {},
    }
}

proof fn lemma_collect_emit_while(s: StmtView, locals: Typing, ctx: Context, n: usize)
    requires
        s.kind is While,
        collect_stmt(s, locals, ctx.scope.functions) is Ok,
        emit_while(s, ctx, n) is Ok,
    ensures
        grows_by_set_locals(
            locals,
            collect_stmt(s, locals, ctx.scope.functions)->Ok_0,
            emit_while(s, ctx, n)->Ok_0.0,
        ),
    decreases s, 10nat,
{
    match s.kind {
        StmtKindView::While(c, b) => {
            let exit = label(LabelKind::Break, n);
            let next = label(LabelKind::Continue, n);
            let within = inside(ctx, LoopLabels { exit, next });
            let cond = emit_tested(c, ctx.scope, s.line, true)->Ok_0;
            let body = emit_stmt(*b, within, next_id(n))->Ok_0.0;
            let l1 = collect_stmt(*b, locals, ctx.scope.functions)->Ok_0;
            let whole = emit_while(s, ctx, n)->Ok_0.0;
            lemma_collect_emit_stmt(*b, locals, within, next_id(n));
            let pre = seq![InstrView::Block(exit), InstrView::Loop(next)] + cond + seq![
                InstrView::BrIf(exit),
            ];
            let post = seq![InstrView::Br(next), InstrView::End, InstrView::End];
            assert(whole =~= pre + body + post);
            lemma_grows_within(locals, l1, pre, body, post);
        },
        _ => {},
    }
}

proof fn lemma_collect_emit_for_body(
    s: StmtView,
    locals: Typing,
    within: Context,
    n: usize,
    next: Label,
)
    requires
        s.kind is For,
        collect_stmt(*s.kind->For_3, locals, within.scope.functions) is Ok,
        collect_opt(
            s.kind->For_2,
            collect_stmt(*s.kind->For_3, locals, within.scope.functions)->Ok_0,
            within.scope.functions,
        ) is Ok,
        emit_for_body(s, within, n, next) is Ok,
    ensures
        grows_by_set_locals(
            locals,
            collect_opt(
                s.kind->For_2,
                collect_stmt(*s.kind->For_3, locals, within.scope.functions)->Ok_0,
                within.scope.functions,
            )->Ok_0,
            emit_for_body(s, within, n, next)->Ok_0.0,
        ),
    decreases s, 8nat,
{
    match s.kind {
        StmtKindView::For(_, _, step, body) => {
            let functions = within.scope.functions;
            let (inner, n1) = emit_stmt(*body, within, n)->Ok_0;
            let last = emit_opt_stmt(step, within, n1)->Ok_0.0;
            let l2 = collect_stmt(*body, locals, functions)->Ok_0;
            let l3 = collect_opt(step, l2, functions)->Ok_0;
            let whole = emit_for_body(s, within, n, next)->Ok_0.0;
            lemma_collect_emit_stmt(*body, locals, within, n);
            lemma_collect_emit_opt(step, l2, within, n1);
            assert(whole =~= seq![InstrView::Block(next)] + inner + (seq![InstrView::End] + last));
            assert(whole =~= (seq![InstrView::Block(next)] + inner + seq![InstrView::End]) + last
                + Seq::<InstrView>::empty());
            assert forall|name: Name| sets_local(inner, name) implies sets_local(whole, name) by {
                lemma_sets_within(
                    seq![InstrView::Block(next)],
                    inner,
                    seq![InstrView::End] + last,
                    name,
                );
            }
            assert forall|name: Name| sets_local(last, name) implies sets_local(whole, name) by {
                lemma_sets_within(
                    seq![InstrView::Block(next)] + inner + seq![InstrView::End],
                    last,
                    Seq::empty(),
                    name,
                );
            }
            lemma_grows_twice(locals, l2, l3, inner, last, whole);
        },
        _ => {},
    }
}

proof fn lemma_collect_emit_for_loop(s: StmtView, locals: Typing, ctx: Context, n: usize)
    requires
        s.kind is For,
        collect_stmt(*s.kind->For_3, locals, ctx.scope.functions) is Ok,
        collect_opt(
            s.kind->For_2,
            collect_stmt(*s.kind->For_3, locals, ctx.scope.functions)->Ok_0,
            ctx.scope.functions,
        ) is Ok,
        emit_for_loop(s, ctx, n) is Ok,
    ensures
        grows_by_set_locals(
            locals,
            collect_opt(
                s.kind->For_2,
                collect_stmt(*s.kind->For_3, locals, ctx.scope.functions)->Ok_0,
                ctx.scope.functions,
            )->Ok_0,
            emit_for_loop(s, ctx, n)->Ok_0.0,
        ),
    decreases s, 9nat,
{
    match s.kind {
        StmtKindView::For(_, cond, step, body) => {
            let functions = ctx.scope.functions;
            let exit = label(LabelKind::Break, n);
            let next = label(LabelKind::Continue, n);
            let again = label(LabelKind::Loop, n);
            let within = inside(ctx, LoopLabels { exit, next });
            let test = emit_for_test(cond, exit, ctx.scope, s.line)->Ok_0;
            let inner = emit_for_body(s, within, next_id(n), next)->Ok_0.0;
            let l2 = collect_stmt(*body, locals, functions)->Ok_0;
            let l3 = collect_opt(step, l2, functions)->Ok_0;
            let whole = emit_for_loop(s, ctx, n)->Ok_0.0;
            lemma_collect_emit_for_body(s, locals, within, next_id(n), next);
            let pre = seq![InstrView::Block(exit), InstrView::Loop(again)] + test;
            let post = seq![InstrView::Br(again), InstrView::End, InstrView::End];
            assert(whole =~= pre + inner + post);
            lemma_grows_within(locals, l3, pre, inner, post);
        },
        _ => {},
    }
}

proof fn lemma_collect_emit_for(s: StmtView, locals: Typing, ctx: Context, n: usize)
    requires
        s.kind is For,
        collect_stmt(s, locals, ctx.scope.functions) is Ok,
        emit_for(s, ctx, n) is Ok,
    ensures
        grows_by_set_locals(
            locals,
            collect_stmt(s, locals, ctx.scope.functions)->Ok_0,
            emit_for(s, ctx, n)->Ok_0.0,
        ),
    decreases s, 10nat,
{
    match s.kind {
        StmtKindView::For(init, cond, step, body) => {
            let functions = ctx.scope.functions;
            let (first, n0) = emit_opt_stmt(init, ctx, n)->Ok_0;
            let rest = emit_for_loop(s, ctx, n0)->Ok_0.0;
            let l1 = collect_opt(init, locals, functions)->Ok_0;
            let l3 = collect_stmt(s, locals, functions)->Ok_0;
            let whole = emit_for(s, ctx, n)->Ok_0.0;
            lemma_collect_emit_opt(init, locals, ctx, n);
            lemma_collect_emit_for_loop(s, l1, ctx, n0);
            assert(whole =~= Seq::<InstrView>::empty() + first + rest);
            assert(whole =~= first + rest + Seq::<InstrView>::empty());
            assert forall|name: Name| sets_local(first, name) implies sets_local(whole, name) by {
                lemma_sets_within(Seq::empty(), first, rest, name);
            }
            assert forall|name: Name| sets_local(rest, name) implies sets_local(whole, name) by {
                lemma_sets_within(first, rest, Seq::empty(), name);
            }
            lemma_grows_twice(locals, l1, l3, first, rest, whole);
        },
        _ => {},
    }
}

proof fn lemma_collect_emit_kind(s: StmtView, locals: Typing, ctx: Context, n: usize)
    requires
        collect_stmt(s, locals, ctx.scope.functions) is Ok,
        emit_kind(s, ctx, n) is Ok,
    ensures
        grows_by_set_locals(
            locals,
            collect_stmt(s, locals, ctx.scope.functions)->Ok_0,
            emit_kind(s, ctx, n)->Ok_0.0,
        ),
    decreases s, 11nat,
{
    match s.kind {
        StmtKindView::Let(name, e) => {
            lemma_collect_emit_binding(name, e, locals, ctx.scope, s.line);
        },
        StmtKindView::Const(name, e) => {
            lemma_collect_emit_binding(name, e, locals, ctx.scope, s.line);
        },
        StmtKindView::If(_, _, _) => {
            lemma_collect_emit_if(s, locals, ctx, n);
        },
        StmtKindView::While(_, _) => {
            lemma_collect_emit_while(s, locals, ctx, n);
        },
        StmtKindView::For(_, _, _, _) => {
            lemma_collect_emit_for(s, locals, ctx, n);
        },
        StmtKindView::Block(stmts) => {
            lemma_collect_emit_stmts(stmts, locals, ctx, n);
        },
        _ => {},
    }
}

/// Every local that a statement adds is set by the code of the statement.
pub proof fn lemma_collect_emit_stmt(s: StmtView, locals: Typing, ctx: Context, n: usize)
    requires
        collect_stmt(s, locals, ctx.scope.functions) is Ok,
        emit_stmt(s, ctx, n) is Ok,
    ensures
        grows_by_set_locals(
            locals,
            collect_stmt(s, locals, ctx.scope.functions)->Ok_0,
            emit_stmt(s, ctx, n)->Ok_0.0,
        ),
    decreases s, 12nat,
{
    lemma_collect_emit_kind(s, locals, ctx, n);
    let code = emit_kind(s, ctx, n)->Ok_0.0;
    let whole = emit_stmt(s, ctx, n)->Ok_0.0;
    assert(whole =~= seq![InstrView::Comment(s.line)] + code + Seq::<InstrView>::empty());
    lemma_grows_within(
        locals,
        collect_stmt(s, locals, ctx.scope.functions)->Ok_0,
        seq![InstrView::Comment(s.line)],
        code,
        Seq::empty(),
    );
}

/// Every local that a statement sequence adds is set by its code.
pub proof fn lemma_collect_emit_stmts(ss: Seq<StmtView>, locals: Typing, ctx: Context, n: usize)
    requires
        collect_stmts(ss, locals, ctx.scope.functions) is Ok,
        emit_stmts(ss, ctx, n) is Ok,
    ensures
        grows_by_set_locals(
            locals,
            collect_stmts(ss, locals, ctx.scope.functions)->Ok_0,
            emit_stmts(ss, ctx, n)->Ok_0.0,
        ),
    decreases ss, 13nat,
{
    if ss.len() > 0 {
        let functions = ctx.scope.functions;
        let l1 = collect_stmt(ss[0], locals, functions)->Ok_0;
        let l2 = collect_stmts(ss, locals, functions)->Ok_0;
        let (first, n1) = emit_stmt(ss[0], ctx, n)->Ok_0;
        let rest = emit_stmts(ss.drop_first(), ctx, n1)->Ok_0.0;
        let whole = emit_stmts(ss, ctx, n)->Ok_0.0;
        lemma_collect_emit_stmt(ss[0], locals, ctx, n);
        lemma_collect_emit_stmts(ss.drop_first(), l1, ctx, n1);
        assert(whole =~= Seq::<InstrView>::empty() + first + rest);
        assert(whole =~= first + rest + Seq::<InstrView>::empty());
        assert forall|name: Name| sets_local(first, name) implies sets_local(whole, name) by {
            lemma_sets_within(Seq::empty(), first, rest, name);
        }
        assert forall|name: Name| sets_local(rest, name) implies sets_local(whole, name) by {
            lemma_sets_within(first, rest, Seq::empty(), name);
        }
        lemma_grows_twice(locals, l1, l2, first, rest, whole);
    }
}

/// Whether `code` is a faithful rendition of the signature of `f`: the
/// same name and line, one parameter for each parameter of `f` under the
/// same name, the return type of `f` as its result type, and every local
/// that it declares set in its body.
pub open spec fn matches_function(code: FunctionCodeView, f: FunctionView) -> bool {
    &&& code.name == f.name
    &&& code.line == f.line
    &&& code.params.len() == f.params.len()
    &&& forall|j: int| 0 <= j < f.params.len() ==> code.params[j] == (f.params[j], param_type(f, j))
    &&& code.result == return_type(f)
    &&& forall|j: int|
        0 <= j < code.locals.len() ==> sets_local(code.body, #[trigger] code.locals[j].0)
}

/// The code of a function has the parameters and the result type of the
/// function, and sets every local that it declares.
pub proof fn lemma_function_code(f: FunctionView, functions: Typing, n: usize)
    requires
        emit_function(f, functions, n) is Ok,
    ensures
        matches_function(emit_function(f, functions, n)->Ok_0.0, f),
{
    let params = param_typing(f);
    let result = return_type(f);
    let start = params.push((result_local(), result));
    let all = collect_stmts(f.body, start, functions)->Ok_0;
    let ctx = Context { scope: Scope { locals: all, functions }, loops: Seq::empty() };
    let body = emit_stmts(f.body, ctx, n)->Ok_0.0;
    let code = emit_function(f, functions, n)->Ok_0.0;
    lemma_collect_emit_stmts(f.body, start, ctx, n);
    assert forall|k: int| 0 <= k < code.locals.len() implies sets_local(
        code.body,
        #[trigger] code.locals[k].0,
    ) by {
        assert(code.locals[k] == all[start.len() + k]);
        assert(sets_local(body, all[start.len() + k].0));
        assert(code.body =~= Seq::<InstrView>::empty() + body + seq![default_result(result)]);
        lemma_sets_within(Seq::empty(), body, seq![default_result(result)], code.locals[k].0);
    }
}

/// What `emit_functions` adds to `acc` is the code of the functions from
/// `i` on, one for one.
pub proof fn lemma_emit_functions(
    fs: Seq<FunctionView>,
    i: int,
    functions: Typing,
    acc: Seq<FunctionCodeView>,
    n: usize,
)
    requires
        0 <= i <= fs.len(),
        emit_functions(fs, i, functions, acc, n) is Ok,
    ensures
        ({
            let codes = emit_functions(fs, i, functions, acc, n)->Ok_0.0;
            &&& codes.len() == acc.len() + fs.len() - i
            &&& forall|k: int| 0 <= k < acc.len() ==> codes[k] == acc[k]
            &&& forall|k: int|
                acc.len() <= k < codes.len() ==> matches_function(
                    #[trigger] codes[k],
                    fs[k - acc.len() + i],
                )
        }),
    decreases fs.len() - i,
{
    if i < fs.len() {
        let (code, n1) = emit_function(fs[i], functions, n)->Ok_0;
        lemma_function_code(fs[i], functions, n);
        lemma_emit_functions(fs, i + 1, functions, acc.push(code), n1);
        let codes = emit_functions(fs, i, functions, acc, n)->Ok_0.0;
        assert(codes[acc.len() as int] == acc.push(code)[acc.len() as int]);
        assert forall|k: int| 0 <= k < acc.len() implies codes[k] == acc[k] by {
            assert(codes[k] == acc.push(code)[k]);
        }
    }
}

/// The module has one function for each function of the program, in
/// order, with the same name, one parameter for each parameter of the
/// source function, and the return type that the analysis found as its
/// result type. Each of its locals is set in its body.
pub proof fn lemma_module_functions(p: ProgramView, n: usize)
    requires
        emit_program(p, n) is Ok,
    ensures
        ({
            let m = emit_program(p, n)->Ok_0;
            &&& m.functions.len() == p.functions.len()
            &&& forall|k: int|
                0 <= k < p.functions.len() ==> matches_function(
                    #[trigger] m.functions[k],
                    p.functions[k],
                )
        }),
{
    lemma_emit_functions(p.functions, 0, function_typing(p.functions), Seq::empty(), n);
}

/// Every local that the entry point declares is set in its body.
pub proof fn lemma_start_locals_are_set(ss: Seq<StmtView>, functions: Typing, n: usize)
    requires
        emit_start(ss, functions, n) is Ok,
    ensures
        ({
            let code = emit_start(ss, functions, n)->Ok_0;
            forall|k: int|
                0 <= k < code.locals.len() ==> sets_local(code.body, #[trigger] code.locals[k].0)
        }),
{
    let result = start_type(ss, functions)->Ok_0;
    let start = seq![(result_local(), result)];
    let all = collect_stmts(ss, start, functions)->Ok_0;
    let ctx = Context { scope: Scope { locals: all, functions }, loops: Seq::empty() };
    let body = emit_top_stmts(ss, ctx, n)->Ok_0.0;
    let code = emit_start(ss, functions, n)->Ok_0;
    lemma_collect_emit_top_stmts(ss, start, ctx, n);
    assert forall|k: int| 0 <= k < code.locals.len() implies sets_local(
        code.body,
        #[trigger] code.locals[k].0,
    ) by {
        assert(code.locals[k] == all[start.len() + k]);
        assert(sets_local(body, all[start.len() + k].0));
        assert(code.body =~= Seq::<InstrView>::empty() + body + seq![
            InstrView::LocalGet(result_local()),
        ]);
        lemma_sets_within(
            Seq::empty(),
            body,
            seq![InstrView::LocalGet(result_local())],
            code.locals[k].0,
        );
    }
}

proof fn lemma_collect_emit_top_stmts(ss: Seq<StmtView>, locals: Typing, ctx: Context, n: usize)
    requires
        collect_stmts(ss, locals, ctx.scope.functions) is Ok,
        emit_top_stmts(ss, ctx, n) is Ok,
    ensures
        grows_by_set_locals(
            locals,
            collect_stmts(ss, locals, ctx.scope.functions)->Ok_0,
            emit_top_stmts(ss, ctx, n)->Ok_0.0,
        ),
    decreases ss.len(),
{
    if ss.len() > 0 {
        let functions = ctx.scope.functions;
        let l1 = collect_stmt(ss[0], locals, functions)->Ok_0;
        let l2 = collect_stmts(ss, locals, functions)->Ok_0;
        let (first, n1) = emit_top_stmt(ss[0], ctx, n)->Ok_0;
        let rest = emit_top_stmts(ss.drop_first(), ctx, n1)->Ok_0.0;
        let whole = emit_top_stmts(ss, ctx, n)->Ok_0.0;
        if ss[0].kind is Expr {
            assert(l1 == locals);
        } else {
            lemma_collect_emit_stmt(ss[0], locals, ctx, n);
        }
        lemma_collect_emit_top_stmts(ss.drop_first(), l1, ctx, n1);
        assert(whole =~= Seq::<InstrView>::empty() + first + rest);
        assert(whole =~= first + rest + Seq::<InstrView>::empty());
        assert forall|name: Name| sets_local(first, name) implies sets_local(whole, name) by {
            lemma_sets_within(Seq::empty(), first, rest, name);
        }
        assert forall|name: Name| sets_local(rest, name) implies sets_local(whole, name) by {
            lemma_sets_within(first, rest, Seq::empty(), name);
        }
        lemma_grows_twice(locals, l1, l2, first, rest, whole);
    }
}


/// Whether the instruction leaves the function.
pub open spec fn is_return(i: InstrView) -> bool {
    i is Return || i is ReturnCall
}

/// The code of a `return` statement ends with the instruction that
/// leaves the function, and uses no loop number.
pub proof fn lemma_return_code(s: StmtView, ctx: Context, n: usize)
    requires
        s.kind is Return,
        emit_stmt(s, ctx, n) is Ok,
    ensures
        emit_stmt(s, ctx, n)->Ok_0.0.len() > 0,
        is_return(emit_stmt(s, ctx, n)->Ok_0.0.last()),
        emit_stmt(s, ctx, n)->Ok_0.1 == n,
{
}

/// In a sequence in which nothing follows a `return`, a `return` is the
/// last statement.
pub proof fn lemma_return_index(ss: Seq<StmtView>, i: int)
    requires
        return_is_last(ss),
        0 <= i < ss.len(),
        ss[i].kind is Return,
    ensures
        i == ss.len() - 1,
    decreases ss.len(),
{
    if i > 0 {
        assert(ss.drop_first()[i - 1] == ss[i]);
        lemma_return_index(ss.drop_first(), i - 1);
    }
}

/// The code of a sequence that ends with a `return` ends with the code
/// of that `return`.
pub proof fn lemma_last_statement_code(ss: Seq<StmtView>, ctx: Context, n: usize)
    requires
        ss.len() > 0,
        ss.last().kind is Return,
        emit_stmts(ss, ctx, n) is Ok,
    ensures
        emit_stmts(ss, ctx, n)->Ok_0.0.len() > 0,
        is_return(emit_stmts(ss, ctx, n)->Ok_0.0.last()),
    decreases ss.len(),
{
    let (first, n1) = emit_stmt(ss[0], ctx, n)->Ok_0;
    let rest = emit_stmts(ss.drop_first(), ctx, n1)->Ok_0.0;
    assert(emit_stmts(ss, ctx, n)->Ok_0.0 == first + rest);
    if ss.len() == 1 {
        assert(ss.drop_first().len() == 0);
        assert(first + rest =~= first);
        lemma_return_code(ss[0], ctx, n);
    } else {
        assert(ss.drop_first().last() == ss.last());
        lemma_last_statement_code(ss.drop_first(), ctx, n1);
        assert((first + rest).last() == rest.last());
    }
}

/// Nothing is emitted behind a `return`: where nothing follows a `return`
/// in a statement sequence, a `return` statement is the last of the
/// sequence, and the last instruction of the code of the sequence is the
/// one with which that statement leaves the function. This holds of
/// every sequence of an optimized program, the body of a function and the
/// blocks inside it alike.
pub proof fn lemma_nothing_emitted_after_return(
    ss: Seq<StmtView>,
    ctx: Context,
    n: usize,
    i: int,
)
    requires
        return_is_last(ss),
        0 <= i < ss.len(),
        ss[i].kind is Return,
        emit_stmts(ss, ctx, n) is Ok,
    ensures
        i == ss.len() - 1,
        emit_stmts(ss, ctx, n)->Ok_0.0.len() > 0,
        is_return(emit_stmts(ss, ctx, n)->Ok_0.0.last()),
{
    lemma_return_index(ss, i);
    lemma_last_statement_code(ss, ctx, n);
}

/// Whether, in the code `body` of a function with the statements `stmts`,
/// nothing but the default result follows the `return` of the
/// statements: a `return` among them is the last, and the instruction
/// with which it leaves the function is the last but one of the code.
pub open spec fn returns_last(stmts: Seq<StmtView>, body: Seq<InstrView>) -> bool {
    forall|i: int|
        0 <= i < stmts.len() && (#[trigger] stmts[i]).kind is Return ==> i == stmts.len() - 1
            && body.len() >= 2 && is_return(body[body.len() - 2])
}

/// In the code of a function in whose statements nothing follows a
/// `return`, only the default result follows the `return`.
pub proof fn lemma_function_returns_last(f: FunctionView, functions: Typing, n: usize)
    requires
        return_is_last(f.body),
        emit_function(f, functions, n) is Ok,
    ensures
        returns_last(f.body, emit_function(f, functions, n)->Ok_0.0.body),
{
    let params = param_typing(f);
    let result = return_type(f);
    let all = collect_stmts(f.body, params.push((result_local(), result)), functions)->Ok_0;
    let ctx = Context { scope: Scope { locals: all, functions }, loops: Seq::empty() };
    let code = emit_stmts(f.body, ctx, n)->Ok_0.0;
    let body = emit_function(f, functions, n)->Ok_0.0.body;
    assert(body == code.push(default_result(result)));
    assert forall|i: int| 0 <= i < f.body.len() && (#[trigger] f.body[i]).kind is Return implies i
        == f.body.len() - 1 && body.len() >= 2 && is_return(body[body.len() - 2]) by {
        lemma_nothing_emitted_after_return(f.body, ctx, n, i);
        assert(body[body.len() - 2] == code.last());
    }
}

proof fn lemma_functions_return_last(
    fs: Seq<FunctionView>,
    i: int,
    functions: Typing,
    acc: Seq<FunctionCodeView>,
    n: usize,
)
    requires
        0 <= i <= fs.len(),
        forall|k: int| 0 <= k < fs.len() ==> return_is_last(#[trigger] fs[k].body),
        emit_functions(fs, i, functions, acc, n) is Ok,
    ensures
        ({
            let codes = emit_functions(fs, i, functions, acc, n)->Ok_0.0;
            &&& codes.len() == acc.len() + fs.len() - i
            &&& forall|k: int| 0 <= k < acc.len() ==> codes[k] == acc[k]
            &&& forall|k: int|
                acc.len() <= k < codes.len() ==> returns_last(
                    fs[k - acc.len() + i].body,
                    (#[trigger] codes[k]).body,
                )
        }),
    decreases fs.len() - i,
{
    if i < fs.len() {
        let (code, n1) = emit_function(fs[i], functions, n)->Ok_0;
        lemma_function_returns_last(fs[i], functions, n);
        lemma_functions_return_last(fs, i + 1, functions, acc.push(code), n1);
        let codes = emit_functions(fs, i, functions, acc, n)->Ok_0.0;
        assert(codes[acc.len() as int] == acc.push(code)[acc.len() as int]);
        assert forall|k: int| 0 <= k < acc.len() implies codes[k] == acc[k] by {
            assert(codes[k] == acc.push(code)[k]);
        }
    }
}

/// In the module of a program in which nothing follows a `return` in its
/// sequence, as in every optimized program, only the default result
/// follows the `return` in the code of any function.
pub proof fn lemma_module_returns_last(p: ProgramView, n: usize)
    requires
        no_code_after_return(p),
        emit_program(p, n) is Ok,
    ensures
        ({
            let m = emit_program(p, n)->Ok_0;
            &&& m.functions.len() == p.functions.len()
            &&& forall|k: int|
                0 <= k < p.functions.len() ==> returns_last(
                    p.functions[k].body,
                    (#[trigger] m.functions[k]).body,
                )
        }),
{
    lemma_functions_return_last(p.functions, 0, function_typing(p.functions), Seq::empty(), n);
}

/// Whether `m` is a faithful rendition of `p`: one function for each
/// function of `p`, in order, each matching its source and with its
/// locals set; the locals of the entry point set; and, where nothing
/// follows a `return` in `p`, nothing but the default result following
/// the `return` in the code of a function.
pub open spec fn matches_program(m: ModuleView, p: ProgramView) -> bool {
    &&& m.functions.len() == p.functions.len()
    &&& forall|k: int|
        0 <= k < p.functions.len() ==> matches_function(#[trigger] m.functions[k], p.functions[k])
    &&& forall|k: int|
        0 <= k < m.start.locals.len() ==> sets_local(m.start.body, #[trigger] m.start.locals[k].0)
    &&& no_code_after_return(p) ==> forall|k: int|
        0 <= k < p.functions.len() ==> returns_last(
            p.functions[k].body,
            (#[trigger] m.functions[k]).body,
        )
}

/// The module of a program is a faithful rendition of it.
pub proof fn lemma_module_matches_program(p: ProgramView, n: usize)
    requires
        emit_program(p, n) is Ok,
    ensures
        matches_program(emit_program(p, n)->Ok_0, p),
{
    let functions = function_typing(p.functions);
    lemma_module_functions(p, n);
    let n1 = emit_functions(p.functions, 0, functions, Seq::empty(), n)->Ok_0.1;
    lemma_start_locals_are_set(p.top_level, functions, n1);
    if no_code_after_return(p) {
        lemma_module_returns_last(p, n);
    }
}

/// A `for` is emitted as its first clause; `block $break_N` and
/// `loop $loop_N`; the test with its branch to `$break_N`;
/// `block $continue_N`, the body and `end`; the third clause; the branch
/// to `$loop_N`, and two `end`. `N` is the number of the next loop behind
/// the first clause, and the body is emitted with the number after it.
pub proof fn lemma_for_emission(s: StmtView, ctx: Context, n: usize)
    requires
        s.kind is For,
        emit_stmt(s, ctx, n) is Ok,
    ensures
        ({
            let init = s.kind->For_0;
            let cond = s.kind->For_1;
            let step = s.kind->For_2;
            let body = s.kind->For_3;
            let (first, n0) = emit_opt_stmt(init, ctx, n)->Ok_0;
            let exit = label(LabelKind::Break, n0);
            let next = label(LabelKind::Continue, n0);
            let again = label(LabelKind::Loop, n0);
            let within = inside(ctx, LoopLabels { exit, next });
            let test = emit_for_test(cond, exit, ctx.scope, s.line)->Ok_0;
            let (inner, n1) = emit_stmt(*body, within, next_id(n0))->Ok_0;
            let (last, n2) = emit_opt_stmt(step, within, n1)->Ok_0;
            &&& emit_opt_stmt(init, ctx, n) is Ok
            &&& emit_for_test(cond, exit, ctx.scope, s.line) is Ok
            &&& emit_stmt(*body, within, next_id(n0)) is Ok
            &&& emit_opt_stmt(step, within, n1) is Ok
            &&& emit_stmt(s, ctx, n)->Ok_0.0 == seq![InstrView::Comment(s.line)] + (first + (seq![
                InstrView::Block(exit),
                InstrView::Loop(again),
            ] + test + (seq![InstrView::Block(next)] + inner + seq![InstrView::End] + last)
                + seq![InstrView::Br(again), InstrView::End, InstrView::End]))
            &&& emit_stmt(s, ctx, n)->Ok_0.1 == n2
            &&& cond matches Some(c) ==> emit_expr(c, ctx.scope, s.line) is Ok && expr_type(
                c,
                ctx.scope,
                s.line,
            ) is Ok && test == emit_expr(c, ctx.scope, s.line)->Ok_0 + test_zero(
                expr_type(c, ctx.scope, s.line)->Ok_0,
            ) + seq![InstrView::BrIf(exit)]
            &&& cond is None ==> test == Seq::<InstrView>::empty()
        }),
{
    let init = s.kind->For_0;
    let cond = s.kind->For_1;
    let step = s.kind->For_2;
    let body = s.kind->For_3;
    let (first, n0) = emit_opt_stmt(init, ctx, n)->Ok_0;
    let exit = label(LabelKind::Break, n0);
    let next = label(LabelKind::Continue, n0);
    let again = label(LabelKind::Loop, n0);
    let within = inside(ctx, LoopLabels { exit, next });
    let test = emit_for_test(cond, exit, ctx.scope, s.line)->Ok_0;
    let (inner, n1) = emit_stmt(*body, within, next_id(n0))->Ok_0;
    let (last, n2) = emit_opt_stmt(step, within, n1)->Ok_0;
    assert(emit_kind(s, ctx, n) == emit_for(s, ctx, n));
    assert(emit_for(s, ctx, n) == then_code(first, emit_for_loop(s, ctx, n0)));
    let body_code = emit_for_body(s, within, next_id(n0), next)->Ok_0.0;
    assert(body_code == seq![InstrView::Block(next)] + inner + seq![InstrView::End] + last);
    match cond {
        Some(c) => {
            let code = emit_expr(c, ctx.scope, s.line)->Ok_0;
            let t = expr_type(c, ctx.scope, s.line)->Ok_0;
            assert(test =~= code + test_zero(t) + seq![InstrView::BrIf(exit)]);
        },
        None => {},
    }
}

/// `break` branches to the block that the innermost loop is left by,
/// `continue` to the label at which its next round begins; outside of
/// loops both are errors.
pub proof fn lemma_jump_emission(s: StmtView, ctx: Context, n: usize)
    requires
        s.kind is Break || s.kind is Continue,
    ensures
        ctx.loops.len() == 0 ==> emit_stmt(s, ctx, n) is Err && emit_stmt(s, ctx, n)->Err_0
            == codegen_error(s.line, "Jump outside of loop"@),
        ctx.loops.len() > 0 && s.kind is Break ==> emit_stmt(s, ctx, n) == Ok::<
            (Seq<InstrView>, usize),
            CompilerErrorView,
        >((seq![InstrView::Comment(s.line), InstrView::Br(ctx.loops.last().exit)], n)),
        ctx.loops.len() > 0 && s.kind is Continue ==> emit_stmt(s, ctx, n) == Ok::<
            (Seq<InstrView>, usize),
            CompilerErrorView,
        >((seq![InstrView::Comment(s.line), InstrView::Br(ctx.loops.last().next)], n)),
{
    if ctx.loops.len() > 0 {
        if s.kind is Break {
            assert(seq![InstrView::Comment(s.line)] + seq![InstrView::Br(ctx.loops.last().exit)]
                =~= seq![InstrView::Comment(s.line), InstrView::Br(ctx.loops.last().exit)]);
        } else {
            assert(seq![InstrView::Comment(s.line)] + seq![InstrView::Br(ctx.loops.last().next)]
                =~= seq![InstrView::Comment(s.line), InstrView::Br(ctx.loops.last().next)]);
        }
    }
}

} // verus!
