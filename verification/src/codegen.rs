//! The code emitter.
//!
//! Every method is proved to append to the code what the rule of the same
//! name in [`crate::emission`] gives.

use crate::ast::{
    exprs_view, functions_view, names_view, stmts_view, BinOp, Expr, ExprView, Float, Function,
    LogicalOp, Name, Program, Stmt, StmtKind, StmtView, Type, UnaryOp,
};
use crate::emission::{
    lemma_function_code, lemma_module_matches_program, matches_function, matches_program,
    assoc, collect_binding, collect_opt, collect_stmt, collect_stmts, condition, default_result,
    drop_prefix, emit_args, emit_binary, emit_expr, emit_for, emit_for_body, emit_for_loop,
    emit_for_test, emit_function, emit_functions, emit_if, emit_jump, emit_kind, emit_logical,
    emit_opt_stmt, emit_program, emit_return, emit_start, emit_stmt, emit_stmts, emit_store,
    emit_tested, emit_top_stmt, emit_top_stmts, emit_unary, emit_while, expr_type, function_typing,
    inside, lemma_prefixed_assoc, lemma_then_code_assoc, next_id, param_typing, prefixed,
    result_local, short_circuit, start_type, test_nonzero, test_zero, then_code, widen, Code,
    Context, Emitted, LoopLabels, Scope,
};
use crate::error::{codegen_error, CompilerError};
use crate::instr::{
    function_codes_view, instrs_view, lemma_instrs_view_push, lemma_typing_view_push, typing_view,
    FunctionCode, FunctionCodeView, Instr, InstrView, Label, LabelKind, Module, StartCode, Typing,
};
use crate::render::module_text;
use crate::semantic::type_of_binary;
use crate::text::push_text;
use crate::typing::quoted;
use vstd::prelude::*;
use vstd::string::StringExecFns;

verus! {

/// The labels that `break` and `continue` go to in a loop.
#[derive(Clone, Copy)]
pub struct Labels {
    pub exit: Label,
    pub next: Label,
}

/// The views of a stack of loop labels.
pub open spec fn loops_view(loops: Seq<Labels>) -> Seq<LoopLabels> {
    Seq::new(loops.len(), |i: int| LoopLabels { exit: loops[i].exit, next: loops[i].next })
}

/// Whether `res` is what `spec` gives.
pub open spec fn typed_ok(spec: Emitted<Type>, res: Result<Type, CompilerError>) -> bool {
    match spec {
        Ok(t) => res == Ok::<Type, CompilerError>(t),
        Err(e) => res is Err && res->Err_0@ == e,
    }
}

/// Whether `res`, with `after` the code behind it, is what `spec` gives
/// behind the code `before`.
pub open spec fn emitted_ok(
    spec: Emitted<Seq<InstrView>>,
    res: Result<(), CompilerError>,
    before: Seq<InstrView>,
    after: Seq<InstrView>,
) -> bool {
    match spec {
        Ok(code) => res is Ok && after == before + code,
        Err(e) => res is Err && res->Err_0@ == e,
    }
}

/// Whether `res`, with `after` the code behind it and `counter` the
/// number of the next loop, is what `spec` gives behind the code `before`.
pub open spec fn coded_ok(
    spec: Code,
    res: Result<(), CompilerError>,
    before: Seq<InstrView>,
    after: Seq<InstrView>,
    counter: usize,
) -> bool {
    match spec {
        Ok((code, n)) => res is Ok && after == before + code && counter == n,
        Err(e) => res is Err && res->Err_0@ == e,
    }
}

fn error_about(line: usize, prefix: &str, name: &String) -> (e: CompilerError)
    ensures
        e@ == codegen_error(line, quoted(prefix@, name@)),
{
    let mut s = String::new();
    push_text(&mut s, prefix);
    push_text(&mut s, name.as_str());
    push_text(&mut s, "'");
    assert(s@ =~= quoted(prefix@, name@));
    CompilerError::codegen(line, s)
}

fn error_at(line: usize, message: &str) -> (e: CompilerError)
    ensures
        e@ == codegen_error(line, message@),
{
    let mut s = String::new();
    push_text(&mut s, message);
    assert(s@ =~= message@);
    CompilerError::codegen(line, s)
}

/// The latest entry for `name`.
pub fn assoc_get(list: &Vec<(String, Type)>, name: &String) -> (r: Option<Type>)
    ensures
        r == assoc(typing_view(list@), name@),
{
    let ghost all = typing_view(list@);
    let mut i: usize = list.len();
    assert(all.take(i as int) =~= all);
    while i > 0
        invariant
            i <= list.len(),
            all == typing_view(list@),
            assoc(all.take(i as int), name@) == assoc(all, name@),
        decreases i,
    {
        i = i - 1;
        assert(all.take(i + 1).drop_last() =~= all.take(i as int));
        assert(all.take(i + 1).last() == all[i as int]);
        assert(all[i as int] == (list@[i as int].0@, list@[i as int].1));
        assert(assoc(all.take(i + 1), name@) == if all[i as int].0 == name@ {
            Some(all[i as int].1)
        } else {
            assoc(all.take(i as int), name@)
        });
        if list[i].0 == *name {
            return Some(list[i].1);
        }
    }
    None
}

/// The context with other locals.
pub open spec fn with_locals(ctx: Context, locals: Typing) -> Context {
    Context { scope: Scope { locals, functions: ctx.scope.functions }, loops: ctx.loops }
}

/// Whether `res`, with the context left as `after`, is what `spec` gives.
pub open spec fn collected_ok(
    spec: Emitted<Typing>,
    res: Result<(), CompilerError>,
    before: Context,
    after: Context,
) -> bool {
    match spec {
        Ok(locals) => res is Ok && after == with_locals(before, locals),
        Err(e) => res is Err && res->Err_0@ == e,
    }
}

/// The parameters of a function with their types.
fn params_of(f: &Function) -> (r: Vec<(String, Type)>)
    ensures
        typing_view(r@) == param_typing(f@),
{
    let ghost want = param_typing(f@);
    let mut out: Vec<(String, Type)> = Vec::new();
    let mut i: usize = 0;
    assert(names_view(f.params@).len() == f.params@.len());
    while i < f.params.len()
        invariant
            i <= f.params.len(),
            want == param_typing(f@),
            want.len() == f.params@.len(),
            typing_view(out@) =~= want.take(i as int),
        decreases f.params.len() - i,
    {
        let t = match &f.param_types {
            Some(ts) => if i < ts.len() {
                ts[i]
            } else {
                Type::I
            },
            None => Type::I,
        };
        let entry = (f.params[i].clone(), t);
        proof {
            assert(want[i as int] == (entry.0@, entry.1));
            lemma_typing_view_push(out@, entry);
            assert(want.take(i + 1) =~= want.take(i as int).push(want[i as int]));
        }
        out.push(entry);
        i = i + 1;
    }
    assert(want.take(i as int) =~= want);
    out
}

/// The entries behind the first `n`.
fn tail_of(list: &Vec<(String, Type)>, n: usize) -> (r: Vec<(String, Type)>)
    ensures
        typing_view(r@) == drop_prefix(typing_view(list@), n as nat),
{
    let mut out: Vec<(String, Type)> = Vec::new();
    if n > list.len() {
        assert(typing_view(out@) =~= Seq::<(Name, Type)>::empty());
        return out;
    }
    let ghost want = typing_view(list@).skip(n as int);
    let mut i: usize = n;
    while i < list.len()
        invariant
            n <= i <= list.len(),
            want == typing_view(list@).skip(n as int),
            typing_view(out@) =~= want.take(i - n),
        decreases list.len() - i,
    {
        let entry = (list[i].0.clone(), list[i].1);
        proof {
            assert(want[i - n] == (entry.0@, entry.1));
            lemma_typing_view_push(out@, entry);
            assert(want.take(i - n + 1) =~= want.take(i - n).push(want[i - n]));
        }
        out.push(entry);
        i = i + 1;
    }
    assert(want.take(i - n) =~= want);
    out
}

fn result_name() -> (s: String)
    ensures
        s@ == result_local(),
{
    String::from_str("_result")
}

/// The emitter, with the code of the function it is in.
pub struct CodeGen {
    output: Vec<Instr>,
    locals: Vec<(String, Type)>,
    functions: Vec<(String, Type)>,
    loops: Vec<Labels>,
    label_counter: usize,
}

impl CodeGen {
    /// The instructions emitted so far.
    #[verifier::opaque]
    pub closed spec fn code(&self) -> Seq<InstrView> {
        instrs_view(self.output@)
    }

    /// The locals and functions in scope, and the loops around.
    #[verifier::opaque]
    pub closed spec fn ctx(&self) -> Context {
        Context {
            scope: Scope {
                locals: typing_view(self.locals@),
                functions: typing_view(self.functions@),
            },
            loops: loops_view(self.loops@),
        }
    }

    /// The number of the next loop.
    pub closed spec fn counter(&self) -> usize {
        self.label_counter
    }

    /// An emitter that has emitted nothing and knows no local, function
    /// or loop; it numbers loops from 0.
    pub fn new() -> (g: Self)
        ensures
            g.counter() == 0,
            g.code() == Seq::<InstrView>::empty(),
            g.ctx() == (Context {
                scope: Scope { locals: Seq::empty(), functions: Seq::empty() },
                loops: Seq::empty(),
            }),
    {
        let g = CodeGen {
            output: Vec::new(),
            locals: Vec::new(),
            functions: Vec::new(),
            loops: Vec::new(),
            label_counter: 0,
        };
        proof {
            reveal(CodeGen::code);
            reveal(CodeGen::ctx);
            assert(g.code() =~= Seq::<InstrView>::empty());
            assert(typing_view(g.locals@) =~= Seq::<(Name, Type)>::empty());
            assert(typing_view(g.functions@) =~= Seq::<(Name, Type)>::empty());
            assert(loops_view(g.loops@) =~= Seq::<LoopLabels>::empty());
        }
        g
    }

    /// Appends one instruction.
    fn emit(&mut self, instr: Instr)
        ensures
            final(self).code() == old(self).code().push(instr@),
            final(self).ctx() == old(self).ctx(),
            final(self).counter() == old(self).counter(),
    {
        proof {
            reveal(CodeGen::code);
            reveal(CodeGen::ctx);
            lemma_instrs_view_push(self.output@, instr);
        }
        self.output.push(instr);
    }

    fn local_type(&self, name: &String) -> (r: Option<Type>)
        ensures
            r == assoc(self.ctx().scope.locals, name@),
    {
        proof {
            reveal(CodeGen::ctx);
        }
        assoc_get(&self.locals, name)
    }

    fn function_type(&self, name: &String) -> (r: Option<Type>)
        ensures
            r == assoc(self.ctx().scope.functions, name@),
    {
        proof {
            reveal(CodeGen::ctx);
        }
        assoc_get(&self.functions, name)
    }

    /// The type of an expression.
    fn type_of(&self, expr: &Expr, line: usize) -> (res: Result<Type, CompilerError>)
        ensures
            typed_ok(expr_type(expr@, self.ctx().scope, line), res),
        decreases expr,
    {
        match expr {
            Expr::Number(_) => Ok(Type::I),
            Expr::Float(_) => Ok(Type::F),
            Expr::Identifier(name) => match self.local_type(name) {
                Some(t) => Ok(t),
                None => Err(error_about(line, "Unknown local '", name)),
            },
            Expr::Binary(left, op, right) => {
                let tl = self.type_of(left, line)?;
                let tr = self.type_of(right, line)?;
                match type_of_binary(*op, tl, tr) {
                    Some(t) => Ok(t),
                    None => Err(error_at(line, "Remainder of floats")),
                }
            },
            Expr::Unary(op, operand) => {
                let t = self.type_of(operand, line)?;
                match op {
                    UnaryOp::Neg => Ok(t),
                    UnaryOp::Not => Ok(Type::I),
                }
            },
            Expr::Call(name, _) => match self.function_type(name) {
                Some(t) => Ok(t),
                None => Err(error_about(line, "Unknown function '", name)),
            },
            Expr::Logical(left, _, right) => {
                let tl = self.type_of(left, line)?;
                let tr = self.type_of(right, line)?;
                Ok(if tl == Type::F || tr == Type::F {
                    Type::F
                } else {
                    Type::I
                })
            },
        }
    }

    /// Widens the value on the stack from `from` to `to`.
    fn gen_widen(&mut self, from: Type, to: Type)
        ensures
            final(self).code() == old(self).code() + widen(from, to),
            final(self).ctx() == old(self).ctx(),
            final(self).counter() == old(self).counter(),
    {
        if from == Type::I && to == Type::F {
            self.emit(Instr::F32ConvertI32S);
            assert(self.code() =~= old(self).code() + widen(from, to));
        } else {
            assert(self.code() =~= old(self).code() + widen(from, to));
        }
    }

    fn gen_test_zero(&mut self, t: Type)
        ensures
            final(self).code() == old(self).code() + test_zero(t),
            final(self).ctx() == old(self).ctx(),
            final(self).counter() == old(self).counter(),
    {
        match t {
            Type::I => {
                self.emit(Instr::I32Eqz);
            },
            Type::F => {
                self.emit(Instr::F32Const(Float { bits: 0 }));
                self.emit(Instr::Arith(BinOp::Eq, Type::F));
            },
        }
        assert(self.code() =~= old(self).code() + test_zero(t));
    }

    fn gen_test_nonzero(&mut self, t: Type)
        ensures
            final(self).code() == old(self).code() + test_nonzero(t),
            final(self).ctx() == old(self).ctx(),
            final(self).counter() == old(self).counter(),
    {
        match t {
            Type::I => {
                self.emit(Instr::I32Const(0));
                self.emit(Instr::Arith(BinOp::Ne, Type::I));
            },
            Type::F => {
                self.emit(Instr::F32Const(Float { bits: 0 }));
                self.emit(Instr::Arith(BinOp::Ne, Type::F));
            },
        }
        assert(self.code() =~= old(self).code() + test_nonzero(t));
    }

    fn gen_short_circuit(&mut self, op: LogicalOp, t: Type)
        ensures
            final(self).code() == old(self).code() + short_circuit(op, t),
            final(self).ctx() == old(self).ctx(),
            final(self).counter() == old(self).counter(),
    {
        self.emit(Instr::LocalTee(result_name()));
        match op {
            LogicalOp::And => self.gen_test_zero(t),
            LogicalOp::Or => self.gen_test_nonzero(t),
        }
        self.emit(Instr::IfResult(t));
        self.emit(Instr::LocalGet(result_name()));
        self.emit(Instr::Else);
        assert(self.code() =~= old(self).code() + short_circuit(op, t));
    }

    fn gen_binary(&mut self, expr: &Expr, line: usize) -> (res: Result<(), CompilerError>)
        requires
            expr is Binary,
        ensures
            emitted_ok(
                emit_expr(expr@, old(self).ctx().scope, line),
                res,
                old(self).code(),
                final(self).code(),
            ),
            final(self).ctx() == old(self).ctx(),
            final(self).counter() == old(self).counter(),
        decreases expr, 0nat,
    {
        match expr {
            Expr::Binary(left, op, right) => {
                self.type_of(expr, line)?;
                let tl = self.type_of(left, line)?;
                let tr = self.type_of(right, line)?;
                let t = if tl == Type::F || tr == Type::F {
                    Type::F
                } else {
                    Type::I
                };
                self.gen_expr(left, line)?;
                self.gen_widen(tl, t);
                self.gen_expr(right, line)?;
                self.gen_widen(tr, t);
                self.emit(Instr::Arith(*op, t));
                proof {
                    let scope = old(self).ctx().scope;
                    let cl = emit_expr(left@, scope, line)->Ok_0;
                    let cr = emit_expr(right@, scope, line)->Ok_0;
                    assert(self.code() =~= old(self).code() + emit_binary(*op, cl, tl, cr, tr));
                }
                Ok(())
            },
            _ => Ok(()),
        }
    }

    fn gen_unary(&mut self, expr: &Expr, line: usize) -> (res: Result<(), CompilerError>)
        requires
            expr is Unary,
        ensures
            emitted_ok(
                emit_expr(expr@, old(self).ctx().scope, line),
                res,
                old(self).code(),
                final(self).code(),
            ),
            final(self).ctx() == old(self).ctx(),
            final(self).counter() == old(self).counter(),
        decreases expr, 0nat,
    {
        match expr {
            Expr::Unary(op, operand) => {
                let t = self.type_of(operand, line)?;
                let ghost scope = old(self).ctx().scope;
                match (op, t) {
                    (UnaryOp::Neg, Type::F) => {
                        self.gen_expr(operand, line)?;
                        self.emit(Instr::F32Neg);
                    },
                    (UnaryOp::Neg, Type::I) => {
                        self.emit(Instr::I32Const(0));
                        self.gen_expr(operand, line)?;
                        self.emit(Instr::Arith(BinOp::Sub, Type::I));
                    },
                    (UnaryOp::Not, _) => {
                        self.gen_expr(operand, line)?;
                        self.gen_test_zero(t);
                    },
                }
                proof {
                    let cx = emit_expr(operand@, scope, line)->Ok_0;
                    assert(self.code() =~= old(self).code() + emit_unary(*op, cx, t));
                }
                Ok(())
            },
            _ => Ok(()),
        }
    }

    fn gen_logical(&mut self, expr: &Expr, line: usize) -> (res: Result<(), CompilerError>)
        requires
            expr is Logical,
        ensures
            emitted_ok(
                emit_expr(expr@, old(self).ctx().scope, line),
                res,
                old(self).code(),
                final(self).code(),
            ),
            final(self).ctx() == old(self).ctx(),
            final(self).counter() == old(self).counter(),
        decreases expr, 0nat,
    {
        match expr {
            Expr::Logical(left, op, right) => {
                self.type_of(expr, line)?;
                let tl = self.type_of(left, line)?;
                let tr = self.type_of(right, line)?;
                let t = if tl == Type::F || tr == Type::F {
                    Type::F
                } else {
                    Type::I
                };
                self.gen_expr(left, line)?;
                self.gen_widen(tl, t);
                self.gen_short_circuit(*op, t);
                self.gen_expr(right, line)?;
                self.gen_widen(tr, t);
                self.emit(Instr::End);
                proof {
                    let scope = old(self).ctx().scope;
                    let cl = emit_expr(left@, scope, line)->Ok_0;
                    let cr = emit_expr(right@, scope, line)->Ok_0;
                    assert(self.code() =~= old(self).code() + emit_logical(*op, cl, tl, cr, tr));
                }
                Ok(())
            },
            _ => Ok(()),
        }
    }

    /// Emits the arguments of a call, from left to right.
    fn gen_args(&mut self, args: &Vec<Expr>, line: usize) -> (res: Result<(), CompilerError>)
        ensures
            emitted_ok(
                emit_args(exprs_view(args@), old(self).ctx().scope, line),
                res,
                old(self).code(),
                final(self).code(),
            ),
            final(self).ctx() == old(self).ctx(),
            final(self).counter() == old(self).counter(),
        decreases args, 0nat,
    {
        let ghost all = exprs_view(args@);
        let ghost scope = self.ctx().scope;
        let ghost code0 = self.code();
        let mut i: usize = 0;
        assert(all.skip(0) =~= all);
        while i < args.len()
            invariant
                i <= args.len(),
                all == exprs_view(args@),
                scope == old(self).ctx().scope,
                code0 == old(self).code(),
                self.ctx() == old(self).ctx(),
                self.counter() == old(self).counter(),
                prefixed(self.code(), emit_args(all.skip(i as int), scope, line)) == prefixed(
                    code0,
                    emit_args(all, scope, line),
                ),
            decreases args.len() - i,
        {
            assert(all.skip(i as int)[0] == args@[i as int]@);
            assert(all.skip(i as int).drop_first() =~= all.skip(i + 1));
            assert(emit_args(all.skip(i as int), scope, line) == match emit_expr(
                args@[i as int]@,
                scope,
                line,
            ) {
                Err(e) => Err(e),
                Ok(first) => prefixed(first, emit_args(all.skip(i + 1), scope, line)),
            });
            let ghost before = self.code();
            proof {
                match emit_expr(args@[i as int]@, scope, line) {
                    Ok(first) => {
                        lemma_prefixed_assoc(
                            before,
                            first,
                            emit_args(all.skip(i + 1), scope, line),
                        );
                    },
                    Err(_) => {},
                }
            }
            self.gen_expr(&args[i], line)?;
            i = i + 1;
        }
        assert(all.skip(i as int) =~= Seq::<ExprView>::empty());
        assert(self.code() + Seq::<InstrView>::empty() =~= self.code());
        Ok(())
    }

    /// Emits the code that leaves the value of an expression on the stack.
    pub fn gen_expr(&mut self, expr: &Expr, line: usize) -> (res: Result<(), CompilerError>)
        ensures
            emitted_ok(
                emit_expr(expr@, old(self).ctx().scope, line),
                res,
                old(self).code(),
                final(self).code(),
            ),
            final(self).ctx() == old(self).ctx(),
            final(self).counter() == old(self).counter(),
        decreases expr, 1nat,
    {
        match expr {
            Expr::Number(n) => {
                self.emit(Instr::I32Const(*n));
                assert(self.code() =~= old(self).code() + seq![InstrView::I32Const(*n)]);
                Ok(())
            },
            Expr::Float(f) => {
                self.emit(Instr::F32Const(*f));
                assert(self.code() =~= old(self).code() + seq![InstrView::F32Const(*f)]);
                Ok(())
            },
            Expr::Identifier(name) => match self.local_type(name) {
                Some(_) => {
                    self.emit(Instr::LocalGet(name.clone()));
                    assert(self.code() =~= old(self).code() + seq![InstrView::LocalGet(name@)]);
                    Ok(())
                },
                None => Err(error_about(line, "Unknown local '", name)),
            },
            Expr::Binary(_, _, _) => self.gen_binary(expr, line),
            Expr::Unary(_, _) => self.gen_unary(expr, line),
            Expr::Call(name, args) => match self.function_type(name) {
                None => Err(error_about(line, "Unknown function '", name)),
                Some(_) => {
                    self.gen_args(args, line)?;
                    self.emit(Instr::Call(name.clone()));
                    proof {
                        let c = emit_args(exprs_view(args@), old(self).ctx().scope, line)->Ok_0;
                        assert(self.code() =~= old(self).code() + c.push(InstrView::Call(name@)));
                    }
                    Ok(())
                },
            },
            Expr::Logical(_, _, _) => self.gen_logical(expr, line),
        }
    }

    /// Takes the number of the next loop.
    fn fresh(&mut self) -> (id: usize)
        ensures
            id == old(self).counter(),
            final(self).counter() == next_id(old(self).counter()),
            final(self).code() == old(self).code(),
            final(self).ctx() == old(self).ctx(),
    {
        proof {
            reveal(CodeGen::code);
            reveal(CodeGen::ctx);
        }
        let id = self.label_counter;
        if self.label_counter < usize::MAX {
            self.label_counter = self.label_counter + 1;
        }
        id
    }

    fn push_loop(&mut self, labels: Labels)
        ensures
            final(self).ctx() == inside(
                old(self).ctx(),
                LoopLabels { exit: labels.exit, next: labels.next },
            ),
            final(self).code() == old(self).code(),
            final(self).counter() == old(self).counter(),
    {
        proof {
            reveal(CodeGen::code);
            reveal(CodeGen::ctx);
        }
        self.loops.push(labels);
        assert(loops_view(self.loops@) =~= loops_view(old(self).loops@).push(
            LoopLabels { exit: labels.exit, next: labels.next },
        ));
    }

    /// Leaves the innermost loop.
    fn pop_loop(&mut self)
        ensures
            forall|ctx: Context, labels: LoopLabels|
                old(self).ctx() == inside(ctx, labels) ==> final(self).ctx() == ctx,
            final(self).code() == old(self).code(),
            final(self).counter() == old(self).counter(),
    {
        proof {
            reveal(CodeGen::code);
            reveal(CodeGen::ctx);
        }
        let ghost before = loops_view(self.loops@);
        self.loops.pop();
        proof {
            assert forall|ctx: Context, labels: LoopLabels|
                old(self).ctx() == inside(ctx, labels) implies self.ctx() == ctx by {
                assert(before == ctx.loops.push(labels));
                assert(loops_view(self.loops@) =~= before.drop_last());
                assert(ctx.loops.push(labels).drop_last() =~= ctx.loops);
            }
        }
    }

    /// The labels of the innermost loop.
    fn current_loop(&self) -> (r: Option<Labels>)
        ensures
            match r {
                Some(l) => self.ctx().loops.len() > 0 && self.ctx().loops.last() == (LoopLabels {
                    exit: l.exit,
                    next: l.next,
                }),
                None => self.ctx().loops.len() == 0,
            },
    {
        proof {
            reveal(CodeGen::ctx);
        }
        if self.loops.len() > 0 {
            Some(self.loops[self.loops.len() - 1])
        } else {
            None
        }
    }

    /// Emits the code that stores the value of an expression in a local.
    fn gen_store(&mut self, name: &String, expr: &Expr, line: usize) -> (res: Result<
        (),
        CompilerError,
    >)
        ensures
            emitted_ok(
                emit_store(name@, expr@, old(self).ctx().scope, line),
                res,
                old(self).code(),
                final(self).code(),
            ),
            final(self).ctx() == old(self).ctx(),
            final(self).counter() == old(self).counter(),
    {
        match self.local_type(name) {
            None => Err(error_about(line, "Unknown local '", name)),
            Some(t) => {
                let te = self.type_of(expr, line)?;
                if te != t {
                    return Err(error_about(line, "Inconsistent type of local '", name));
                }
                self.gen_expr(expr, line)?;
                self.emit(Instr::LocalSet(name.clone()));
                proof {
                    let c = emit_expr(expr@, old(self).ctx().scope, line)->Ok_0;
                    assert(self.code() =~= old(self).code() + c.push(InstrView::LocalSet(name@)));
                }
                Ok(())
            },
        }
    }

    /// Emits an expression used as a condition, with a test for zero or
    /// the coercion to an integer.
    fn gen_tested(&mut self, expr: &Expr, line: usize, falsy: bool) -> (res: Result<
        (),
        CompilerError,
    >)
        ensures
            emitted_ok(
                emit_tested(expr@, old(self).ctx().scope, line, falsy),
                res,
                old(self).code(),
                final(self).code(),
            ),
            final(self).ctx() == old(self).ctx(),
            final(self).counter() == old(self).counter(),
    {
        let t = self.type_of(expr, line)?;
        self.gen_expr(expr, line)?;
        let ghost c = emit_expr(expr@, old(self).ctx().scope, line)->Ok_0;
        if falsy {
            self.gen_test_zero(t);
            assert(self.code() =~= old(self).code() + (c + test_zero(t)));
        } else {
            match t {
                Type::I => {},
                Type::F => {
                    self.gen_test_nonzero(Type::F);
                },
            }
            assert(self.code() =~= old(self).code() + (c + condition(t)));
        }
        Ok(())
    }

    fn gen_return(&mut self, expr: &Expr, line: usize) -> (res: Result<(), CompilerError>)
        ensures
            emitted_ok(
                emit_return(expr@, old(self).ctx().scope, line),
                res,
                old(self).code(),
                final(self).code(),
            ),
            final(self).ctx() == old(self).ctx(),
            final(self).counter() == old(self).counter(),
    {
        match expr {
            Expr::Call(name, args) => match self.function_type(name) {
                None => Err(error_about(line, "Unknown function '", name)),
                Some(_) => {
                    self.gen_args(args, line)?;
                    self.emit(Instr::ReturnCall(name.clone()));
                    proof {
                        let c = emit_args(exprs_view(args@), old(self).ctx().scope, line)->Ok_0;
                        assert(self.code() =~= old(self).code() + c.push(
                            InstrView::ReturnCall(name@),
                        ));
                    }
                    Ok(())
                },
            },
            _ => {
                self.gen_expr(expr, line)?;
                self.emit(Instr::Return);
                proof {
                    let c = emit_expr(expr@, old(self).ctx().scope, line)->Ok_0;
                    assert(self.code() =~= old(self).code() + c.push(InstrView::Return));
                }
                Ok(())
            },
        }
    }

    fn gen_jump(&mut self, exit: bool, line: usize) -> (res: Result<(), CompilerError>)
        ensures
            emitted_ok(
                emit_jump(old(self).ctx().loops, exit, line),
                res,
                old(self).code(),
                final(self).code(),
            ),
            final(self).ctx() == old(self).ctx(),
            final(self).counter() == old(self).counter(),
    {
        match self.current_loop() {
            None => Err(error_at(line, "Jump outside of loop")),
            Some(labels) => {
                if exit {
                    self.emit(Instr::Br(labels.exit));
                    assert(self.code() =~= old(self).code() + seq![InstrView::Br(labels.exit)]);
                } else {
                    self.emit(Instr::Br(labels.next));
                    assert(self.code() =~= old(self).code() + seq![InstrView::Br(labels.next)]);
                }
                Ok(())
            },
        }
    }

    fn gen_opt_stmt(&mut self, stmt: &Option<Box<Stmt>>) -> (res: Result<(), CompilerError>)
        ensures
            coded_ok(
                emit_opt_stmt(
                    crate::ast::opt_stmt_view(*stmt),
                    old(self).ctx(),
                    old(self).counter(),
                ),
                res,
                old(self).code(),
                final(self).code(),
                final(self).counter(),
            ),
            res is Ok ==> final(self).ctx() == old(self).ctx(),
        decreases stmt, 13nat,
    {
        match stmt {
            Some(b) => self.gen_stmt(b),
            None => {
                assert(self.code() + Seq::<InstrView>::empty() =~= self.code());
                Ok(())
            },
        }
    }

    fn gen_if(&mut self, stmt: &Stmt) -> (res: Result<(), CompilerError>)
        requires
            stmt.kind is If,
        ensures
            coded_ok(
                emit_if(stmt@, old(self).ctx(), old(self).counter()),
                res,
                old(self).code(),
                final(self).code(),
                final(self).counter(),
            ),
            res is Ok ==> final(self).ctx() == old(self).ctx(),
        decreases stmt, 10nat,
    {
        match &stmt.kind {
            StmtKind::If(cond, then_branch, else_branch) => {
                let ghost ctx = self.ctx();
                let ghost n = self.counter();
                self.gen_tested(cond, stmt.line, false)?;
                self.emit(Instr::If);
                self.gen_stmt(then_branch)?;
                let ghost n1 = self.counter();
                let ghost c = emit_tested(cond@, ctx.scope, stmt.line, false)->Ok_0;
                let ghost t = emit_stmt(then_branch@, ctx, n)->Ok_0.0;
                match else_branch {
                    None => {
                        self.emit(Instr::End);
                        assert(self.code() =~= old(self).code() + (c + seq![InstrView::If] + t
                            + seq![InstrView::End]));
                    },
                    Some(b) => {
                        self.emit(Instr::Else);
                        self.gen_stmt(b)?;
                        self.emit(Instr::End);
                        let ghost e = emit_stmt(b@, ctx, n1)->Ok_0.0;
                        assert(self.code() =~= old(self).code() + (c + seq![InstrView::If] + t
                            + seq![InstrView::Else] + e + seq![InstrView::End]));
                    },
                }
                Ok(())
            },
            _ => Ok(()),
        }
    }

    fn gen_while(&mut self, stmt: &Stmt) -> (res: Result<(), CompilerError>)
        requires
            stmt.kind is While,
        ensures
            coded_ok(
                emit_while(stmt@, old(self).ctx(), old(self).counter()),
                res,
                old(self).code(),
                final(self).code(),
                final(self).counter(),
            ),
            res is Ok ==> final(self).ctx() == old(self).ctx(),
        decreases stmt, 10nat,
    {
        match &stmt.kind {
            StmtKind::While(cond, body) => {
                let ghost ctx = self.ctx();
                let id = self.fresh();
                let exit = Label { kind: LabelKind::Break, id };
                let next = Label { kind: LabelKind::Continue, id };
                self.emit(Instr::Block(exit));
                self.emit(Instr::Loop(next));
                self.gen_tested(cond, stmt.line, true)?;
                self.emit(Instr::BrIf(exit));
                self.push_loop(Labels { exit, next });
                let ghost within = self.ctx();
                let ghost n = self.counter();
                self.gen_stmt(body)?;
                self.pop_loop();
                self.emit(Instr::Br(next));
                self.emit(Instr::End);
                self.emit(Instr::End);
                proof {
                    let c = emit_tested(cond@, ctx.scope, stmt.line, true)->Ok_0;
                    let b = emit_stmt(body@, within, n)->Ok_0.0;
                    assert(self.code() =~= old(self).code() + (seq![
                        InstrView::Block(exit),
                        InstrView::Loop(next),
                    ] + c + seq![InstrView::BrIf(exit)] + b + seq![
                        InstrView::Br(next),
                        InstrView::End,
                        InstrView::End,
                    ]));
                }
                Ok(())
            },
            _ => Ok(()),
        }
    }

    /// Emits the test of a `for`, if it has one.
    fn gen_for_test(&mut self, cond: &Option<Expr>, exit: Label, line: usize) -> (res: Result<
        (),
        CompilerError,
    >)
        ensures
            emitted_ok(
                emit_for_test(
                    crate::ast::opt_expr_view(*cond),
                    exit,
                    old(self).ctx().scope,
                    line,
                ),
                res,
                old(self).code(),
                final(self).code(),
            ),
            final(self).ctx() == old(self).ctx(),
            final(self).counter() == old(self).counter(),
    {
        match cond {
            None => {
                assert(self.code() + Seq::<InstrView>::empty() =~= self.code());
                Ok(())
            },
            Some(c) => {
                self.gen_tested(c, line, true)?;
                self.emit(Instr::BrIf(exit));
                proof {
                    let code = emit_tested(c@, old(self).ctx().scope, line, true)->Ok_0;
                    assert(self.code() =~= old(self).code() + code.push(InstrView::BrIf(exit)));
                }
                Ok(())
            },
        }
    }

    fn gen_for_body(&mut self, stmt: &Stmt, next: Label) -> (res: Result<(), CompilerError>)
        requires
            stmt.kind is For,
        ensures
            coded_ok(
                emit_for_body(stmt@, old(self).ctx(), old(self).counter(), next),
                res,
                old(self).code(),
                final(self).code(),
                final(self).counter(),
            ),
            res is Ok ==> final(self).ctx() == old(self).ctx(),
        decreases stmt, 8nat,
    {
        match &stmt.kind {
            StmtKind::For(_, _, step, body) => {
                let ghost within = self.ctx();
                let ghost n = self.counter();
                self.emit(Instr::Block(next));
                self.gen_stmt(body)?;
                let ghost inner = emit_stmt(body@, within, n)->Ok_0.0;
                let ghost n1 = self.counter();
                self.emit(Instr::End);
                self.gen_opt_stmt(step)?;
                let ghost last = emit_opt_stmt(
                    crate::ast::opt_stmt_view(*step),
                    within,
                    n1,
                )->Ok_0.0;
                assert(self.code() =~= old(self).code() + (seq![InstrView::Block(next)] + inner
                    + seq![InstrView::End] + last));
                Ok(())
            },
            _ => Ok(()),
        }
    }

    fn gen_for_loop(&mut self, stmt: &Stmt) -> (res: Result<(), CompilerError>)
        requires
            stmt.kind is For,
        ensures
            coded_ok(
                emit_for_loop(stmt@, old(self).ctx(), old(self).counter()),
                res,
                old(self).code(),
                final(self).code(),
                final(self).counter(),
            ),
            res is Ok ==> final(self).ctx() == old(self).ctx(),
        decreases stmt, 9nat,
    {
        match &stmt.kind {
            StmtKind::For(_, cond, _, _) => {
                let ghost ctx = self.ctx();
                let id = self.fresh();
                let exit = Label { kind: LabelKind::Break, id };
                let next = Label { kind: LabelKind::Continue, id };
                let again = Label { kind: LabelKind::Loop, id };
                self.emit(Instr::Block(exit));
                self.emit(Instr::Loop(again));
                self.gen_for_test(cond, exit, stmt.line)?;
                let ghost test = emit_for_test(
                    crate::ast::opt_expr_view(*cond),
                    exit,
                    ctx.scope,
                    stmt.line,
                )->Ok_0;
                self.push_loop(Labels { exit, next });
                let ghost within = self.ctx();
                let ghost n1 = self.counter();
                self.gen_for_body(stmt, next)?;
                let ghost inner = emit_for_body(stmt@, within, n1, next)->Ok_0.0;
                self.pop_loop();
                self.emit(Instr::Br(again));
                self.emit(Instr::End);
                self.emit(Instr::End);
                assert(self.code() =~= old(self).code() + (seq![
                    InstrView::Block(exit),
                    InstrView::Loop(again),
                ] + test + inner + seq![InstrView::Br(again), InstrView::End, InstrView::End]));
                Ok(())
            },
            _ => Ok(()),
        }
    }

    fn gen_for(&mut self, stmt: &Stmt) -> (res: Result<(), CompilerError>)
        requires
            stmt.kind is For,
        ensures
            coded_ok(
                emit_for(stmt@, old(self).ctx(), old(self).counter()),
                res,
                old(self).code(),
                final(self).code(),
                final(self).counter(),
            ),
            res is Ok ==> final(self).ctx() == old(self).ctx(),
        decreases stmt, 10nat,
    {
        match &stmt.kind {
            StmtKind::For(init, _, _, _) => {
                let ghost ctx = self.ctx();
                let ghost n = self.counter();
                self.gen_opt_stmt(init)?;
                let ghost first = emit_opt_stmt(crate::ast::opt_stmt_view(*init), ctx, n)->Ok_0.0;
                let ghost n0 = self.counter();
                self.gen_for_loop(stmt)?;
                proof {
                    let rest = emit_for_loop(stmt@, ctx, n0)->Ok_0.0;
                    assert((old(self).code() + first) + rest =~= old(self).code() + (first + rest));
                }
                Ok(())
            },
            _ => Ok(()),
        }
    }

    /// Emits what a statement does, without the comment in front of it.
    fn gen_kind(&mut self, stmt: &Stmt) -> (res: Result<(), CompilerError>)
        ensures
            coded_ok(
                emit_kind(stmt@, old(self).ctx(), old(self).counter()),
                res,
                old(self).code(),
                final(self).code(),
                final(self).counter(),
            ),
            res is Ok ==> final(self).ctx() == old(self).ctx(),
        decreases stmt, 11nat,
    {
        match &stmt.kind {
            StmtKind::Let(name, expr) => self.gen_store(name, expr, stmt.line),
            StmtKind::Const(name, expr) => self.gen_store(name, expr, stmt.line),
            StmtKind::Assign(name, expr) => self.gen_store(name, expr, stmt.line),
            StmtKind::If(_, _, _) => self.gen_if(stmt),
            StmtKind::While(_, _) => self.gen_while(stmt),
            StmtKind::For(_, _, _, _) => self.gen_for(stmt),
            StmtKind::Block(stmts) => self.gen_stmts(stmts),
            StmtKind::Return(expr) => self.gen_return(expr, stmt.line),
            StmtKind::Break => self.gen_jump(true, stmt.line),
            StmtKind::Continue => self.gen_jump(false, stmt.line),
            StmtKind::Expr(expr) => {
                self.gen_expr(expr, stmt.line)?;
                self.emit(Instr::Drop);
                proof {
                    let c = emit_expr(expr@, old(self).ctx().scope, stmt.line)->Ok_0;
                    assert(self.code() =~= old(self).code() + c.push(InstrView::Drop));
                }
                Ok(())
            },
        }
    }

    fn emit_line_comment(&mut self, line: usize)
        ensures
            final(self).code() == old(self).code() + seq![InstrView::Comment(line)],
            final(self).ctx() == old(self).ctx(),
            final(self).counter() == old(self).counter(),
    {
        self.emit(Instr::Comment(line));
        assert(self.code() =~= old(self).code() + seq![InstrView::Comment(line)]);
    }

    /// Emits a statement, with a comment that gives its line in front.
    pub fn gen_stmt(&mut self, stmt: &Stmt) -> (res: Result<(), CompilerError>)
        ensures
            coded_ok(
                emit_stmt(stmt@, old(self).ctx(), old(self).counter()),
                res,
                old(self).code(),
                final(self).code(),
                final(self).counter(),
            ),
            res is Ok ==> final(self).ctx() == old(self).ctx(),
        decreases stmt, 12nat,
    {
        self.emit_line_comment(stmt.line);
        self.gen_kind(stmt)?;
        proof {
            let c = emit_kind(stmt@, old(self).ctx(), old(self).counter())->Ok_0.0;
            assert((old(self).code() + seq![InstrView::Comment(stmt.line)]) + c =~= old(
                self,
            ).code() + (seq![InstrView::Comment(stmt.line)] + c));
        }
        Ok(())
    }

    fn gen_stmts(&mut self, stmts: &Vec<Stmt>) -> (res: Result<(), CompilerError>)
        ensures
            coded_ok(
                emit_stmts(stmts_view(stmts@), old(self).ctx(), old(self).counter()),
                res,
                old(self).code(),
                final(self).code(),
                final(self).counter(),
            ),
            res is Ok ==> final(self).ctx() == old(self).ctx(),
        decreases stmts, 13nat,
    {
        let ghost all = stmts_view(stmts@);
        let ghost ctx = self.ctx();
        let ghost code0 = self.code();
        let ghost n0 = self.counter();
        let mut i: usize = 0;
        assert(all.skip(0) =~= all);
        while i < stmts.len()
            invariant
                i <= stmts.len(),
                all == stmts_view(stmts@),
                ctx == old(self).ctx(),
                code0 == old(self).code(),
                n0 == old(self).counter(),
                self.ctx() == ctx,
                then_code(self.code(), emit_stmts(all.skip(i as int), ctx, self.counter()))
                    == then_code(code0, emit_stmts(all, ctx, n0)),
            decreases stmts.len() - i,
        {
            assert(all.skip(i as int)[0] == stmts@[i as int]@);
            assert(all.skip(i as int).drop_first() =~= all.skip(i + 1));
            let ghost before = self.code();
            let ghost n = self.counter();
            assert(emit_stmts(all.skip(i as int), ctx, n) == match emit_stmt(
                stmts@[i as int]@,
                ctx,
                n,
            ) {
                Err(e) => Err(e),
                Ok((first, n1)) => then_code(first, emit_stmts(all.skip(i + 1), ctx, n1)),
            });
            proof {
                match emit_stmt(stmts@[i as int]@, ctx, n) {
                    Ok((first, n1)) => {
                        lemma_then_code_assoc(
                            before,
                            first,
                            emit_stmts(all.skip(i + 1), ctx, n1),
                        );
                    },
                    Err(_) => {},
                }
            }
            self.gen_stmt(&stmts[i])?;
            i = i + 1;
        }
        assert(all.skip(i as int) =~= Seq::<StmtView>::empty());
        assert(self.code() + Seq::<InstrView>::empty() =~= self.code());
        Ok(())
    }

    /// Emits a statement outside of any function: the value of an
    /// expression statement is kept as the result of the entry point.
    fn gen_stmt_with_result(&mut self, stmt: &Stmt) -> (res: Result<(), CompilerError>)
        ensures
            coded_ok(
                emit_top_stmt(stmt@, old(self).ctx(), old(self).counter()),
                res,
                old(self).code(),
                final(self).code(),
                final(self).counter(),
            ),
            res is Ok ==> final(self).ctx() == old(self).ctx(),
    {
        match &stmt.kind {
            StmtKind::Expr(expr) => {
                self.emit_line_comment(stmt.line);
                self.gen_expr(expr, stmt.line)?;
                self.emit(Instr::LocalSet(result_name()));
                proof {
                    let c = emit_expr(expr@, old(self).ctx().scope, stmt.line)->Ok_0;
                    assert(self.code() =~= old(self).code() + (seq![
                        InstrView::Comment(stmt.line),
                    ] + c + seq![InstrView::LocalSet(result_local())]));
                }
                Ok(())
            },
            _ => self.gen_stmt(stmt),
        }
    }

    fn gen_top_stmts(&mut self, stmts: &Vec<Stmt>) -> (res: Result<(), CompilerError>)
        ensures
            coded_ok(
                emit_top_stmts(stmts_view(stmts@), old(self).ctx(), old(self).counter()),
                res,
                old(self).code(),
                final(self).code(),
                final(self).counter(),
            ),
            res is Ok ==> final(self).ctx() == old(self).ctx(),
    {
        let ghost all = stmts_view(stmts@);
        let ghost ctx = self.ctx();
        let ghost code0 = self.code();
        let ghost n0 = self.counter();
        let mut i: usize = 0;
        assert(all.skip(0) =~= all);
        while i < stmts.len()
            invariant
                i <= stmts.len(),
                all == stmts_view(stmts@),
                ctx == old(self).ctx(),
                code0 == old(self).code(),
                n0 == old(self).counter(),
                self.ctx() == ctx,
                then_code(self.code(), emit_top_stmts(all.skip(i as int), ctx, self.counter()))
                    == then_code(code0, emit_top_stmts(all, ctx, n0)),
            decreases stmts.len() - i,
        {
            assert(all.skip(i as int)[0] == stmts@[i as int]@);
            assert(all.skip(i as int).drop_first() =~= all.skip(i + 1));
            let ghost before = self.code();
            let ghost n = self.counter();
            assert(emit_top_stmts(all.skip(i as int), ctx, n) == match emit_top_stmt(
                stmts@[i as int]@,
                ctx,
                n,
            ) {
                Err(e) => Err(e),
                Ok((first, n1)) => then_code(first, emit_top_stmts(all.skip(i + 1), ctx, n1)),
            });
            proof {
                match emit_top_stmt(stmts@[i as int]@, ctx, n) {
                    Ok((first, n1)) => {
                        lemma_then_code_assoc(
                            before,
                            first,
                            emit_top_stmts(all.skip(i + 1), ctx, n1),
                        );
                    },
                    Err(_) => {},
                }
            }
            self.gen_stmt_with_result(&stmts[i])?;
            i = i + 1;
        }
        assert(all.skip(i as int) =~= Seq::<StmtView>::empty());
        assert(self.code() + Seq::<InstrView>::empty() =~= self.code());
        Ok(())
    }

    fn add_local(&mut self, name: String, t: Type)
        ensures
            final(self).ctx() == with_locals(
                old(self).ctx(),
                old(self).ctx().scope.locals.push((name@, t)),
            ),
            final(self).code() == old(self).code(),
            final(self).counter() == old(self).counter(),
    {
        proof {
            reveal(CodeGen::code);
            reveal(CodeGen::ctx);
            lemma_typing_view_push(self.locals@, (name, t));
        }
        self.locals.push((name, t));
    }

    /// Makes ready for a function body with the given locals in scope:
    /// what was emitted before is dropped, and no loop is around.
    pub fn begin(&mut self, locals: Vec<(String, Type)>)
        ensures
            final(self).code() == Seq::<InstrView>::empty(),
            final(self).ctx() == (Context {
                scope: Scope {
                    locals: typing_view(locals@),
                    functions: old(self).ctx().scope.functions,
                },
                loops: Seq::empty(),
            }),
            final(self).counter() == old(self).counter(),
    {
        proof {
            reveal(CodeGen::code);
            reveal(CodeGen::ctx);
        }
        self.output = Vec::new();
        self.locals = locals;
        self.loops = Vec::new();
        proof {
            assert(instrs_view(self.output@) =~= Seq::<InstrView>::empty());
            assert(loops_view(self.loops@) =~= Seq::<LoopLabels>::empty());
        }
    }

    /// Hands over the code emitted since `begin` and the locals in scope,
    /// and keeps neither.
    pub fn finish(&mut self) -> (r: (Vec<Instr>, Vec<(String, Type)>))
        ensures
            instrs_view(r.0@) == old(self).code(),
            typing_view(r.1@) == old(self).ctx().scope.locals,
            final(self).code() == Seq::<InstrView>::empty(),
            final(self).ctx() == with_locals(old(self).ctx(), Seq::empty()),
            final(self).counter() == old(self).counter(),
    {
        proof {
            reveal(CodeGen::code);
            reveal(CodeGen::ctx);
        }
        let mut output: Vec<Instr> = Vec::new();
        let mut locals: Vec<(String, Type)> = Vec::new();
        core::mem::swap(&mut self.output, &mut output);
        core::mem::swap(&mut self.locals, &mut locals);
        proof {
            assert(instrs_view(self.output@) =~= Seq::<InstrView>::empty());
            assert(typing_view(self.locals@) =~= Seq::<(Name, Type)>::empty());
        }
        (output, locals)
    }

    /// Takes up the functions of a program, with their return types, as
    /// the functions that calls may name.
    pub fn set_functions(&mut self, functions: &Vec<Function>)
        ensures
            final(self).ctx() == (Context {
                scope: Scope {
                    locals: old(self).ctx().scope.locals,
                    functions: function_typing(functions_view(functions@)),
                },
                loops: old(self).ctx().loops,
            }),
            final(self).code() == old(self).code(),
            final(self).counter() == old(self).counter(),
    {
        proof {
            reveal(CodeGen::ctx);
            reveal(CodeGen::code);
        }
        let ghost want = function_typing(functions_view(functions@));
        let mut out: Vec<(String, Type)> = Vec::new();
        let mut i: usize = 0;
        while i < functions.len()
            invariant
                i <= functions.len(),
                want == function_typing(functions_view(functions@)),
                typing_view(out@) =~= want.take(i as int),
            decreases functions.len() - i,
        {
            let t = match functions[i].return_type {
                Some(t) => t,
                None => Type::I,
            };
            let entry = (functions[i].name.clone(), t);
            proof {
                assert(want[i as int] == (entry.0@, entry.1));
                lemma_typing_view_push(out@, entry);
                assert(want.take(i + 1) =~= want.take(i as int).push(want[i as int]));
            }
            out.push(entry);
            i = i + 1;
        }
        assert(want.take(i as int) =~= want);
        self.functions = out;
    }

    fn collect_binding(&mut self, name: &String, expr: &Expr, line: usize) -> (res: Result<
        (),
        CompilerError,
    >)
        ensures
            collected_ok(
                collect_binding(
                    name@,
                    expr@,
                    old(self).ctx().scope.locals,
                    old(self).ctx().scope.functions,
                    line,
                ),
                res,
                old(self).ctx(),
                final(self).ctx(),
            ),
            final(self).code() == old(self).code(),
            final(self).counter() == old(self).counter(),
    {
        if self.local_type(name).is_some() {
            return Ok(());
        }
        let t = self.type_of(expr, line)?;
        self.add_local(name.clone(), t);
        Ok(())
    }

    fn collect_opt(&mut self, stmt: &Option<Box<Stmt>>) -> (res: Result<(), CompilerError>)
        ensures
            collected_ok(
                collect_opt(
                    crate::ast::opt_stmt_view(*stmt),
                    old(self).ctx().scope.locals,
                    old(self).ctx().scope.functions,
                ),
                res,
                old(self).ctx(),
                final(self).ctx(),
            ),
            final(self).code() == old(self).code(),
            final(self).counter() == old(self).counter(),
        decreases stmt, 1nat,
    {
        match stmt {
            Some(b) => self.collect_locals_rec(b),
            None => Ok(()),
        }
    }

    /// Adds the locals that a statement declares, here and inside.
    fn collect_locals_rec(&mut self, stmt: &Stmt) -> (res: Result<(), CompilerError>)
        ensures
            collected_ok(
                collect_stmt(
                    stmt@,
                    old(self).ctx().scope.locals,
                    old(self).ctx().scope.functions,
                ),
                res,
                old(self).ctx(),
                final(self).ctx(),
            ),
            final(self).code() == old(self).code(),
            final(self).counter() == old(self).counter(),
        decreases stmt, 0nat,
    {
        match &stmt.kind {
            StmtKind::Let(name, expr) => self.collect_binding(name, expr, stmt.line),
            StmtKind::Const(name, expr) => self.collect_binding(name, expr, stmt.line),
            StmtKind::If(_, then_branch, else_branch) => {
                self.collect_locals_rec(then_branch)?;
                self.collect_opt(else_branch)
            },
            StmtKind::While(_, body) => self.collect_locals_rec(body),
            StmtKind::For(init, _, step, body) => {
                self.collect_opt(init)?;
                self.collect_locals_rec(body)?;
                self.collect_opt(step)
            },
            StmtKind::Block(stmts) => self.collect_locals(stmts),
            _ => Ok(()),
        }
    }

    /// Adds the locals that the statements declare.
    fn collect_locals(&mut self, stmts: &Vec<Stmt>) -> (res: Result<(), CompilerError>)
        ensures
            collected_ok(
                collect_stmts(
                    stmts_view(stmts@),
                    old(self).ctx().scope.locals,
                    old(self).ctx().scope.functions,
                ),
                res,
                old(self).ctx(),
                final(self).ctx(),
            ),
            final(self).code() == old(self).code(),
            final(self).counter() == old(self).counter(),
        decreases stmts, 1nat,
    {
        let ghost all = stmts_view(stmts@);
        let ghost ctx0 = self.ctx();
        let mut i: usize = 0;
        assert(all.skip(0) =~= all);
        while i < stmts.len()
            invariant
                i <= stmts.len(),
                all == stmts_view(stmts@),
                ctx0 == old(self).ctx(),
                self.code() == old(self).code(),
                self.counter() == old(self).counter(),
                self.ctx() == with_locals(ctx0, self.ctx().scope.locals),
                collect_stmts(all.skip(i as int), self.ctx().scope.locals, ctx0.scope.functions)
                    == collect_stmts(all, ctx0.scope.locals, ctx0.scope.functions),
            decreases stmts.len() - i,
        {
            assert(all.skip(i as int)[0] == stmts@[i as int]@);
            assert(all.skip(i as int).drop_first() =~= all.skip(i + 1));
            assert(collect_stmts(
                all.skip(i as int),
                self.ctx().scope.locals,
                ctx0.scope.functions,
            ) == match collect_stmt(
                stmts@[i as int]@,
                self.ctx().scope.locals,
                ctx0.scope.functions,
            ) {
                Err(e) => Err(e),
                Ok(l1) => collect_stmts(all.skip(i + 1), l1, ctx0.scope.functions),
            });
            self.collect_locals_rec(&stmts[i])?;
            i = i + 1;
        }
        assert(all.skip(i as int) =~= Seq::<StmtView>::empty());
        Ok(())
    }

    /// Emits one function of the program.
    pub fn gen_function(&mut self, f: &Function) -> (res: Result<FunctionCode, CompilerError>)
        ensures
            match emit_function(f@, old(self).ctx().scope.functions, old(self).counter()) {
                Ok((code, n)) => res is Ok && res->Ok_0@ == code && final(self).counter() == n
                    && final(self).ctx().scope.functions == old(self).ctx().scope.functions,
                Err(e) => res is Err && res->Err_0@ == e,
            },
            res matches Ok(code) ==> matches_function(code@, f@),
    {
        proof {
            if emit_function(f@, self.ctx().scope.functions, self.counter()) is Ok {
                lemma_function_code(f@, self.ctx().scope.functions, self.counter());
            }
        }
        let params = params_of(f);
        let result = match f.return_type {
            Some(t) => t,
            None => Type::I,
        };
        let mut locals = params_of(f);
        let entry = (result_name(), result);
        proof {
            lemma_typing_view_push(locals@, entry);
        }
        locals.push(entry);
        let prefix = locals.len();
        self.begin(locals);
        self.collect_locals(&f.body)?;
        self.gen_stmts(&f.body)?;
        match result {
            Type::I => self.emit(Instr::I32Const(0)),
            Type::F => self.emit(Instr::F32Const(Float { bits: 0 })),
        }
        let (body, all) = self.finish();
        let locals = tail_of(&all, prefix);
        assert(instrs_view(body@) =~= Seq::<InstrView>::empty() + emit_stmts(
            f@.body,
            Context {
                scope: Scope {
                    locals: typing_view(all@),
                    functions: old(self).ctx().scope.functions,
                },
                loops: Seq::empty(),
            },
            old(self).counter(),
        )->Ok_0.0.push(default_result(result)));
        Ok(FunctionCode { name: f.name.clone(), params, result, line: f.line, locals, body })
    }

    /// The type of the entry point's result.
    fn start_type(&mut self, stmts: &Vec<Stmt>) -> (res: Result<Type, CompilerError>)
        ensures
            typed_ok(start_type(stmts_view(stmts@), old(self).ctx().scope.functions), res),
            res is Ok ==> final(self).ctx().scope.functions == old(self).ctx().scope.functions,
            res is Ok ==> final(self).counter() == old(self).counter(),
    {
        if stmts.len() == 0 {
            return Ok(Type::I);
        }
        let last = &stmts[stmts.len() - 1];
        assert(stmts_view(stmts@).last() == last@);
        match &last.kind {
            StmtKind::Expr(expr) => {
                let empty: Vec<(String, Type)> = Vec::new();
                assert(typing_view(empty@) =~= Seq::<(Name, Type)>::empty());
                self.begin(empty);
                self.collect_locals(stmts)?;
                self.type_of(expr, last.line)
            },
            _ => Ok(Type::I),
        }
    }

    /// Emits the entry point from the statements outside of any function.
    fn gen_start(&mut self, stmts: &Vec<Stmt>) -> (res: Result<StartCode, CompilerError>)
        ensures
            match emit_start(
                stmts_view(stmts@),
                old(self).ctx().scope.functions,
                old(self).counter(),
            ) {
                Ok(code) => res is Ok && res->Ok_0@ == code,
                Err(e) => res is Err && res->Err_0@ == e,
            },
    {
        let result = self.start_type(stmts)?;
        let mut locals: Vec<(String, Type)> = Vec::new();
        locals.push((result_name(), result));
        assert(typing_view(locals@) =~= seq![(result_local(), result)]);
        self.begin(locals);
        self.collect_locals(stmts)?;
        let ghost ctx = self.ctx();
        self.gen_top_stmts(stmts)?;
        self.emit(Instr::LocalGet(result_name()));
        let (body, all) = self.finish();
        let locals = tail_of(&all, 1);
        assert(instrs_view(body@) =~= Seq::<InstrView>::empty() + emit_top_stmts(
            stmts_view(stmts@),
            ctx,
            old(self).counter(),
        )->Ok_0.0.push(InstrView::LocalGet(result_local())));
        Ok(StartCode { result, locals, body })
    }

    /// The module that the program is compiled to.
    pub fn emit_module(&mut self, program: &Program) -> (res: Result<Module, CompilerError>)
        ensures
            match emit_program(program@, old(self).counter()) {
                Ok(m) => res is Ok && res->Ok_0@ == m,
                Err(e) => res is Err && res->Err_0@ == e,
            },
            res matches Ok(m) ==> matches_program(m@, program@),
    {
        proof {
            if emit_program(program@, self.counter()) is Ok {
                lemma_module_matches_program(program@, self.counter());
            }
        }
        self.set_functions(&program.functions);
        let ghost functions = self.ctx().scope.functions;
        let ghost all = functions_view(program.functions@);
        let ghost n0 = self.counter();
        let mut codes: Vec<FunctionCode> = Vec::new();
        let mut i: usize = 0;
        assert(function_codes_view(codes@) =~= Seq::<FunctionCodeView>::empty());
        while i < program.functions.len()
            invariant
                i <= program.functions.len(),
                all == functions_view(program.functions@),
                functions == function_typing(all),
                self.ctx().scope.functions == functions,
                n0 == old(self).counter(),
                emit_functions(
                    all,
                    i as int,
                    functions,
                    function_codes_view(codes@),
                    self.counter(),
                ) == emit_functions(all, 0, functions, Seq::empty(), n0),
            decreases program.functions.len() - i,
        {
            assert(all[i as int] == program.functions@[i as int]@);
            let code = self.gen_function(&program.functions[i])?;
            assert(function_codes_view(codes@.push(code)) =~= function_codes_view(codes@).push(
                code@,
            ));
            codes.push(code);
            i = i + 1;
        }
        let start = self.gen_start(&program.top_level)?;
        Ok(Module { functions: codes, start })
    }

    /// The text of the module that the program is compiled to.
    pub fn generate(&mut self, program: &Program) -> (res: Result<String, CompilerError>)
        ensures
            match emit_program(program@, old(self).counter()) {
                Ok(m) => res is Ok && res->Ok_0@ == module_text(m) && matches_program(m, program@),
                Err(e) => res is Err && res->Err_0@ == e,
            },
    {
        let module = self.emit_module(program)?;
        Ok(module.render())
    }
}

} // verus!
