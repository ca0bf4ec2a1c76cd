//! Constant folding and the removal of code that cannot run.
//!
//! An operator applied to literals of one type is replaced by its result;
//! an `if`, `while` or `for` whose condition is a literal is replaced by
//! what it would run; and in a statement sequence nothing is kept after a
//! `return`.

use crate::ast::{
    clone_names, exprs_view, functions_view, lemma_exprs_view_push, lemma_functions_view_push,
    lemma_stmts_view_push, opt_expr_view, opt_stmt_view, stmts_view, BinOp, Expr, ExprView, Float,
    Function, FunctionView, Program, ProgramView, Stmt, StmtKind, StmtKindView, StmtView, UnaryOp,
};
use crate::float::{float_arith, float_compare, is_zero, negated};
use vstd::prelude::*;

verus! {

/// 1 for true, 0 for false.
pub open spec fn truth(b: bool) -> i32 {
    if b {
        1
    } else {
        0
    }
}

/// What `op` gives for two integers, in 32-bit two's complement. A
/// division that the machine would trap on has no result.
pub open spec fn fold_int(op: BinOp, a: i32, b: i32) -> Option<i32> {
    match op {
        BinOp::Add => Some(a.wrapping_add(b)),
        BinOp::Sub => Some(a.wrapping_sub(b)),
        BinOp::Mul => Some(a.wrapping_mul(b)),
        BinOp::Div => a.checked_div(b),
        BinOp::Mod => if b == -1 {
            Some(0)
        } else {
            a.checked_rem(b)
        },
        BinOp::Eq => Some(truth(a == b)),
        BinOp::Ne => Some(truth(a != b)),
        BinOp::Lt => Some(truth(a < b)),
        BinOp::Gt => Some(truth(a > b)),
        BinOp::Le => Some(truth(a <= b)),
        BinOp::Ge => Some(truth(a >= b)),
    }
}

/// Whether the operator is a comparison.
pub open spec fn is_relational(op: BinOp) -> bool {
    op is Eq || op is Ne || op is Lt || op is Gt || op is Le || op is Ge
}

/// What `op` gives for two floats: an integer for a comparison, a float
/// for `+ - * /`, and nothing for the remainder.
pub open spec fn fold_float(op: BinOp, a: Float, b: Float) -> Option<ExprView> {
    if is_relational(op) {
        Some(ExprView::Number(truth(float_compare(op, a.bits, b.bits))))
    } else {
        match float_arith(op, a.bits, b.bits) {
            Some(bits) => Some(ExprView::Float(Float { bits })),
            None => None,
        }
    }
}

/// A binary operator on operands that are folded already. Literals of
/// different types are left for the emitter to widen.
pub open spec fn fold_binary(op: BinOp, l: ExprView, r: ExprView) -> ExprView {
    let unfolded = ExprView::Binary(Box::new(l), op, Box::new(r));
    match (l, r) {
        (ExprView::Number(a), ExprView::Number(b)) => match fold_int(op, a, b) {
            Some(v) => ExprView::Number(v),
            None => unfolded,
        },
        (ExprView::Float(a), ExprView::Float(b)) => match fold_float(op, a, b) {
            Some(e) => e,
            None => unfolded,
        },
        _ => unfolded,
    }
}

/// A unary operator on an operand that is folded already.
pub open spec fn fold_unary(op: UnaryOp, x: ExprView) -> ExprView {
    match (op, x) {
        (UnaryOp::Neg, ExprView::Number(n)) => ExprView::Number(0i32.wrapping_sub(n)),
        (UnaryOp::Neg, ExprView::Float(f)) => ExprView::Float(Float { bits: negated(f.bits) }),
        (UnaryOp::Not, ExprView::Number(n)) => ExprView::Number(truth(n == 0)),
        (UnaryOp::Not, ExprView::Float(f)) => ExprView::Number(truth(is_zero(f.bits))),
        _ => ExprView::Unary(op, Box::new(x)),
    }
}

/// The expression with every operator on literals of one type replaced
/// by its result, from the leaves up.
pub open spec fn fold_expr_spec(e: ExprView) -> ExprView
    decreases e,
{
    match e {
        ExprView::Binary(l, op, r) => fold_binary(op, fold_expr_spec(*l), fold_expr_spec(*r)),
        ExprView::Unary(op, x) => fold_unary(op, fold_expr_spec(*x)),
        ExprView::Call(name, args) => ExprView::Call(name, fold_exprs_spec(args)),
        ExprView::Logical(l, op, r) => ExprView::Logical(
            Box::new(fold_expr_spec(*l)),
            op,
            Box::new(fold_expr_spec(*r)),
        ),
        _ => e,
    }
}

/// The expressions folded one by one.
pub open spec fn fold_exprs_spec(es: Seq<ExprView>) -> Seq<ExprView>
    decreases es,
{
    Seq::new(
        es.len(),
        |i: int|
            if 0 <= i < es.len() {
                fold_expr_spec(es[i])
            } else {
                ExprView::Number(0)
            },
    )
}

/// Whether a literal counts as true; nothing for other expressions.
pub open spec fn truthiness(e: ExprView) -> Option<bool> {
    match e {
        ExprView::Number(n) => Some(n != 0),
        ExprView::Float(f) => Some(!is_zero(f.bits)),
        _ => None,
    }
}

/// A block with nothing in it.
pub open spec fn empty_block(line: usize) -> StmtView {
    StmtView { kind: StmtKindView::Block(Seq::empty()), line }
}

/// The statement optimized, where there is one.
pub open spec fn optimize_opt_stmt(s: Option<Box<StmtView>>) -> Option<Box<StmtView>>
    decreases s, 2nat,
{
    match s {
        Some(b) => Some(Box::new(optimize_stmt_spec(*b))),
        None => None,
    }
}

/// The expression folded, where there is one.
pub open spec fn fold_opt_expr(e: Option<ExprView>) -> Option<ExprView> {
    match e {
        Some(x) => Some(fold_expr_spec(x)),
        None => None,
    }
}

/// An `if` with a literal condition becomes the branch that runs.
pub open spec fn optimize_if_spec(s: StmtView) -> StmtView
    decreases s, 0nat,
{
    match s.kind {
        StmtKindView::If(c, t, e) => {
            let c2 = fold_expr_spec(c);
            match truthiness(c2) {
                Some(true) => optimize_stmt_spec(*t),
                Some(false) => match e {
                    Some(b) => optimize_stmt_spec(*b),
                    None => empty_block(s.line),
                },
                None => StmtView {
                    kind: StmtKindView::If(
                        c2,
                        Box::new(optimize_stmt_spec(*t)),
                        optimize_opt_stmt(e),
                    ),
                    line: s.line,
                },
            }
        },
        _ => s,
    }
}

/// A `while` whose condition is a false literal becomes an empty block.
pub open spec fn optimize_while_spec(s: StmtView) -> StmtView
    decreases s, 0nat,
{
    match s.kind {
        StmtKindView::While(c, b) => {
            let c2 = fold_expr_spec(c);
            if truthiness(c2) == Some(false) {
                empty_block(s.line)
            } else {
                StmtView {
                    kind: StmtKindView::While(c2, Box::new(optimize_stmt_spec(*b))),
                    line: s.line,
                }
            }
        },
        _ => s,
    }
}

/// A `for` whose condition is a false literal becomes its first clause.
pub open spec fn optimize_for_spec(s: StmtView) -> StmtView
    decreases s, 0nat,
{
    match s.kind {
        StmtKindView::For(init, cond, step, body) => {
            let c2 = fold_opt_expr(cond);
            if c2 is Some && truthiness(c2->Some_0) == Some(false) {
                match init {
                    Some(i) => optimize_stmt_spec(*i),
                    None => empty_block(s.line),
                }
            } else {
                StmtView {
                    kind: StmtKindView::For(
                        optimize_opt_stmt(init),
                        c2,
                        optimize_opt_stmt(step),
                        Box::new(optimize_stmt_spec(*body)),
                    ),
                    line: s.line,
                }
            }
        },
        _ => s,
    }
}

/// The statement with its expressions folded and its dead branches
/// removed.
pub open spec fn optimize_stmt_spec(s: StmtView) -> StmtView
    decreases s, 1nat,
{
    match s.kind {
        StmtKindView::Let(name, e) => StmtView {
            kind: StmtKindView::Let(name, fold_expr_spec(e)),
            line: s.line,
        },
        StmtKindView::Const(name, e) => StmtView {
            kind: StmtKindView::Const(name, fold_expr_spec(e)),
            line: s.line,
        },
        StmtKindView::Assign(name, e) => StmtView {
            kind: StmtKindView::Assign(name, fold_expr_spec(e)),
            line: s.line,
        },
        StmtKindView::If(_, _, _) => optimize_if_spec(s),
        StmtKindView::While(_, _) => optimize_while_spec(s),
        StmtKindView::For(_, _, _, _) => optimize_for_spec(s),
        StmtKindView::Block(stmts) => StmtView {
            kind: StmtKindView::Block(optimize_stmts_spec(stmts)),
            line: s.line,
        },
        StmtKindView::Return(e) => StmtView {
            kind: StmtKindView::Return(fold_expr_spec(e)),
            line: s.line,
        },
        StmtKindView::Break => s,
        StmtKindView::Continue => s,
        StmtKindView::Expr(e) => StmtView {
            kind: StmtKindView::Expr(fold_expr_spec(e)),
            line: s.line,
        },
    }
}

/// The statements optimized one by one, up to and with the first that
/// comes out as a `return`.
pub open spec fn optimize_stmts_spec(ss: Seq<StmtView>) -> Seq<StmtView>
    decreases ss, 2nat,
{
    if ss.len() == 0 {
        Seq::empty()
    } else {
        let first = optimize_stmt_spec(ss[0]);
        if first.kind is Return {
            seq![first]
        } else {
            seq![first] + optimize_stmts_spec(ss.drop_first())
        }
    }
}

/// The function with its body optimized.
pub open spec fn optimize_function_spec(f: FunctionView) -> FunctionView {
    FunctionView {
        name: f.name,
        params: f.params,
        param_types: f.param_types,
        return_type: f.return_type,
        body: optimize_stmts_spec(f.body),
        line: f.line,
    }
}

/// The program with the body of every function and the statements
/// outside of functions optimized.
pub open spec fn optimize_program_spec(p: ProgramView) -> ProgramView {
    ProgramView {
        functions: Seq::new(p.functions.len(), |i: int| optimize_function_spec(p.functions[i])),
        top_level: optimize_stmts_spec(p.top_level),
    }
}

fn fold_int_exec(op: BinOp, a: i32, b: i32) -> (r: Option<i32>)
    ensures
        r == fold_int(op, a, b),
{
    match op {
        BinOp::Add => Some(a.wrapping_add(b)),
        BinOp::Sub => Some(a.wrapping_sub(b)),
        BinOp::Mul => Some(a.wrapping_mul(b)),
        BinOp::Div => a.checked_div(b),
        BinOp::Mod => if b == -1 {
            Some(0)
        } else {
            a.checked_rem(b)
        },
        BinOp::Eq => Some(if a == b { 1 } else { 0 }),
        BinOp::Ne => Some(if a != b { 1 } else { 0 }),
        BinOp::Lt => Some(if a < b { 1 } else { 0 }),
        BinOp::Gt => Some(if a > b { 1 } else { 0 }),
        BinOp::Le => Some(if a <= b { 1 } else { 0 }),
        BinOp::Ge => Some(if a >= b { 1 } else { 0 }),
    }
}

fn relational(op: BinOp) -> (r: bool)
    ensures
        r == is_relational(op),
{
    match op {
        BinOp::Eq | BinOp::Ne | BinOp::Lt | BinOp::Gt | BinOp::Le | BinOp::Ge => true,
        _ => false,
    }
}

fn fold_float_exec(op: BinOp, a: Float, b: Float) -> (r: Option<Expr>)
    ensures
        opt_expr_view(r) == fold_float(op, a, b),
{
    if relational(op) {
        Some(Expr::Number(if a.compare(op, b) { 1 } else { 0 }))
    } else {
        match a.arith(op, b) {
            Some(f) => Some(Expr::Float(f)),
            None => None,
        }
    }
}

fn fold_binary_exec(op: BinOp, l: Expr, r: Expr) -> (e: Expr)
    ensures
        e@ == fold_binary(op, l@, r@),
{
    let folded: Option<Expr> = match (&l, &r) {
        (Expr::Number(a), Expr::Number(b)) => match fold_int_exec(op, *a, *b) {
            Some(v) => Some(Expr::Number(v)),
            None => None,
        },
        (Expr::Float(a), Expr::Float(b)) => fold_float_exec(op, *a, *b),
        _ => None,
    };
    match folded {
        Some(e) => e,
        None => Expr::Binary(Box::new(l), op, Box::new(r)),
    }
}

fn fold_unary_exec(op: UnaryOp, x: Expr) -> (e: Expr)
    ensures
        e@ == fold_unary(op, x@),
{
    let folded: Option<Expr> = match (op, &x) {
        (UnaryOp::Neg, Expr::Number(n)) => Some(Expr::Number(0i32.wrapping_sub(*n))),
        (UnaryOp::Neg, Expr::Float(f)) => Some(Expr::Float(f.negate())),
        (UnaryOp::Not, Expr::Number(n)) => Some(Expr::Number(if *n == 0 { 1 } else { 0 })),
        (UnaryOp::Not, Expr::Float(f)) => Some(Expr::Number(if f.is_zero() { 1 } else { 0 })),
        _ => None,
    };
    match folded {
        Some(e) => e,
        None => Expr::Unary(op, Box::new(x)),
    }
}

/// The expression with every operator on literals of one type replaced by
/// its result.
pub fn fold_expr(e: &Expr) -> (r: Expr)
    ensures
        r@ == fold_expr_spec(e@),
    decreases e,
{
    match e {
        Expr::Number(n) => Expr::Number(*n),
        Expr::Float(x) => Expr::Float(*x),
        Expr::Identifier(name) => Expr::Identifier(name.clone()),
        Expr::Binary(l, op, r) => {
            let lf = fold_expr(l);
            let rf = fold_expr(r);
            fold_binary_exec(*op, lf, rf)
        },
        Expr::Unary(op, x) => {
            let xf = fold_expr(x);
            fold_unary_exec(*op, xf)
        },
        Expr::Call(name, args) => {
            let mut out: Vec<Expr> = Vec::new();
            let mut i: usize = 0;
            while i < args.len()
                invariant
                    i <= args.len(),
                    out@.len() == i,
                    exprs_view(out@) == fold_exprs_spec(exprs_view(args@)).take(i as int),
                    e matches Expr::Call(_, a) && a == args,
                decreases args.len() - i,
            {
                let c = fold_expr(&args[i]);
                proof {
                    lemma_exprs_view_push(out@, c);
                    assert(fold_exprs_spec(exprs_view(args@)).take(i + 1) =~= fold_exprs_spec(
                        exprs_view(args@),
                    ).take(i as int).push(fold_expr_spec(args@[i as int]@)));
                }
                out.push(c);
                i = i + 1;
            }
            assert(fold_exprs_spec(exprs_view(args@)).take(i as int) =~= fold_exprs_spec(
                exprs_view(args@),
            ));
            Expr::Call(name.clone(), out)
        },
        Expr::Logical(l, op, r) => Expr::Logical(
            Box::new(fold_expr(l)),
            *op,
            Box::new(fold_expr(r)),
        ),
    }
}

/// Whether a literal counts as true; nothing for other expressions.
fn truthiness_of(e: &Expr) -> (r: Option<bool>)
    ensures
        r == truthiness(e@),
{
    match e {
        Expr::Number(n) => Some(*n != 0),
        Expr::Float(f) => Some(!f.is_zero()),
        _ => None,
    }
}

fn empty_block_at(line: usize) -> (s: Stmt)
    ensures
        s@ == empty_block(line),
{
    let stmts: Vec<Stmt> = Vec::new();
    assert(stmts_view(stmts@) =~= Seq::empty());
    Stmt { kind: StmtKind::Block(stmts), line }
}

fn optimize_opt(s: &Option<Box<Stmt>>) -> (r: Option<Box<Stmt>>)
    ensures
        opt_stmt_view(r) == optimize_opt_stmt(opt_stmt_view(*s)),
    decreases s, 2nat,
{
    match s {
        Some(b) => Some(Box::new(optimize_stmt(b))),
        None => None,
    }
}

fn optimize_if(stmt: &Stmt) -> (r: Stmt)
    requires
        stmt.kind is If,
    ensures
        r@ == optimize_if_spec(stmt@),
    decreases stmt, 0nat,
{
    match &stmt.kind {
        StmtKind::If(c, t, e) => {
            let cond = fold_expr(c);
            match truthiness_of(&cond) {
                Some(true) => optimize_stmt(t),
                Some(false) => match e {
                    Some(b) => optimize_stmt(b),
                    None => empty_block_at(stmt.line),
                },
                None => {
                    let then_branch = optimize_stmt(t);
                    let else_branch = optimize_opt(e);
                    Stmt {
                        kind: StmtKind::If(cond, Box::new(then_branch), else_branch),
                        line: stmt.line,
                    }
                },
            }
        },
        _ => empty_block_at(stmt.line),
    }
}

fn optimize_while(stmt: &Stmt) -> (r: Stmt)
    requires
        stmt.kind is While,
    ensures
        r@ == optimize_while_spec(stmt@),
    decreases stmt, 0nat,
{
    match &stmt.kind {
        StmtKind::While(c, b) => {
            let cond = fold_expr(c);
            match truthiness_of(&cond) {
                Some(false) => empty_block_at(stmt.line),
                _ => {
                    let body = optimize_stmt(b);
                    Stmt { kind: StmtKind::While(cond, Box::new(body)), line: stmt.line }
                },
            }
        },
        _ => empty_block_at(stmt.line),
    }
}

fn optimize_for(stmt: &Stmt) -> (r: Stmt)
    requires
        stmt.kind is For,
    ensures
        r@ == optimize_for_spec(stmt@),
    decreases stmt, 0nat,
{
    match &stmt.kind {
        StmtKind::For(init, cond, step, body) => {
            let cond2 = match cond {
                Some(c) => Some(fold_expr(c)),
                None => None,
            };
            let never = match &cond2 {
                Some(c) => match truthiness_of(c) {
                    Some(false) => true,
                    _ => false,
                },
                None => false,
            };
            if never {
                match init {
                    Some(i) => optimize_stmt(i),
                    None => empty_block_at(stmt.line),
                }
            } else {
                let init2 = optimize_opt(init);
                let step2 = optimize_opt(step);
                let body2 = optimize_stmt(body);
                Stmt { kind: StmtKind::For(init2, cond2, step2, Box::new(body2)), line: stmt.line }
            }
        },
        _ => empty_block_at(stmt.line),
    }
}

/// The statement with its expressions folded and its dead branches removed.
pub fn optimize_stmt(stmt: &Stmt) -> (r: Stmt)
    ensures
        r@ == optimize_stmt_spec(stmt@),
    decreases stmt, 1nat,
{
    let line = stmt.line;
    match &stmt.kind {
        StmtKind::Let(name, e) => Stmt { kind: StmtKind::Let(name.clone(), fold_expr(e)), line },
        StmtKind::Const(name, e) => Stmt {
            kind: StmtKind::Const(name.clone(), fold_expr(e)),
            line,
        },
        StmtKind::Assign(name, e) => Stmt {
            kind: StmtKind::Assign(name.clone(), fold_expr(e)),
            line,
        },
        StmtKind::If(_, _, _) => optimize_if(stmt),
        StmtKind::While(_, _) => optimize_while(stmt),
        StmtKind::For(_, _, _, _) => optimize_for(stmt),
        StmtKind::Block(stmts) => Stmt { kind: StmtKind::Block(optimize_stmts(stmts)), line },
        StmtKind::Return(e) => Stmt { kind: StmtKind::Return(fold_expr(e)), line },
        StmtKind::Break => Stmt { kind: StmtKind::Break, line },
        StmtKind::Continue => Stmt { kind: StmtKind::Continue, line },
        StmtKind::Expr(e) => Stmt { kind: StmtKind::Expr(fold_expr(e)), line },
    }
}

/// The statements optimized one by one, up to and with the first that
/// comes out as a `return`.
pub fn optimize_stmts(stmts: &Vec<Stmt>) -> (out: Vec<Stmt>)
    ensures
        stmts_view(out@) == optimize_stmts_spec(stmts_view(stmts@)),
    decreases stmts, 2nat,
{
    let ghost all = stmts_view(stmts@);
    let mut out: Vec<Stmt> = Vec::new();
    let mut i: usize = 0;
    assert(stmts_view(out@) =~= Seq::empty());
    assert(all.skip(0) =~= all);
    while i < stmts.len()
        invariant
            i <= stmts.len(),
            all == stmts_view(stmts@),
            stmts_view(out@) + optimize_stmts_spec(all.skip(i as int)) == optimize_stmts_spec(all),
        decreases stmts.len() - i,
    {
        let optimized = optimize_stmt(&stmts[i]);
        let is_return = match &optimized.kind {
            StmtKind::Return(_) => true,
            _ => false,
        };
        proof {
            lemma_stmts_view_push(out@, optimized);
            assert(all.skip(i as int).drop_first() =~= all.skip(i + 1));
            assert(all.skip(i as int)[0] == stmts@[i as int]@);
            let rest = optimize_stmts_spec(all.skip(i + 1));
            assert(stmts_view(out@).push(optimized@) + rest =~= stmts_view(out@) + (seq![
                optimized@,
            ] + rest));
            assert(stmts_view(out@).push(optimized@) =~= stmts_view(out@) + seq![optimized@]);
        }
        out.push(optimized);
        if is_return {
            return out;
        }
        i = i + 1;
    }
    assert(stmts_view(out@) + Seq::<StmtView>::empty() =~= stmts_view(out@));
    out
}

fn optimize_function(f: &Function) -> (r: Function)
    ensures
        r@ == optimize_function_spec(f@),
{
    let param_types = match &f.param_types {
        Some(ts) => Some(ts.clone()),
        None => None,
    };
    Function {
        name: f.name.clone(),
        params: clone_names(&f.params),
        param_types,
        return_type: f.return_type,
        body: optimize_stmts(&f.body),
        line: f.line,
    }
}

/// Optimizes the body of every function and the top-level statements.
pub fn optimize_program(program: &mut Program)
    ensures
        final(program)@ == optimize_program_spec(old(program)@),
        optimize_program_spec(final(program)@) == final(program)@,
        no_code_after_return(final(program)@),
{
    proof {
        lemma_optimize_program_idempotent(program@);
        lemma_optimized_program_return_last(program@);
    }
    let mut functions: Vec<Function> = Vec::new();
    let mut i: usize = 0;
    let ghost want = optimize_program_spec(program@).functions;
    assert(functions_view(functions@) =~= want.take(0));
    while i < program.functions.len()
        invariant
            i <= program.functions.len(),
            *program == *old(program),
            want == optimize_program_spec(program@).functions,
            functions_view(functions@) == want.take(i as int),
        decreases program.functions.len() - i,
    {
        let f = optimize_function(&program.functions[i]);
        proof {
            lemma_functions_view_push(functions@, f);
            assert(want.take(i + 1) =~= want.take(i as int).push(f@));
        }
        functions.push(f);
        i = i + 1;
    }
    assert(want.take(i as int) =~= want);
    let top_level = optimize_stmts(&program.top_level);
    program.functions = functions;
    program.top_level = top_level;
}


/// Folding a folded expression changes nothing.
pub proof fn lemma_fold_idempotent(e: ExprView)
    ensures
        fold_expr_spec(fold_expr_spec(e)) == fold_expr_spec(e),
    decreases e,
{
    match e {
        ExprView::Binary(l, op, r) => {
            lemma_fold_idempotent(*l);
            lemma_fold_idempotent(*r);
            let l2 = fold_expr_spec(*l);
            let r2 = fold_expr_spec(*r);
            let res = fold_binary(op, l2, r2);
            if res == ExprView::Binary(Box::new(l2), op, Box::new(r2)) {
                assert(fold_expr_spec(res) == fold_binary(
                    op,
                    fold_expr_spec(l2),
                    fold_expr_spec(r2),
                ));
            } else {
                assert(res is Number || res is Float);
            }
        },
        ExprView::Unary(op, x) => {
            lemma_fold_idempotent(*x);
            let x2 = fold_expr_spec(*x);
            let res = fold_unary(op, x2);
            if res == ExprView::Unary(op, Box::new(x2)) {
                assert(fold_expr_spec(res) == fold_unary(op, fold_expr_spec(x2)));
            } else {
                assert(res is Number || res is Float);
            }
        },
        ExprView::Call(name, args) => {
            assert forall|i: int| 0 <= i < args.len() implies fold_expr_spec(
                fold_expr_spec(args[i]),
            ) == fold_expr_spec(args[i]) by {
                lemma_fold_idempotent(args[i]);
            }
            assert(fold_exprs_spec(fold_exprs_spec(args)) =~= fold_exprs_spec(args));
        },
        ExprView::Logical(l, op, r) => {
            lemma_fold_idempotent(*l);
            lemma_fold_idempotent(*r);
        },
        _ => {},
    }
}

proof fn lemma_optimize_opt_idempotent(s: Option<Box<StmtView>>)
    ensures
        optimize_opt_stmt(optimize_opt_stmt(s)) == optimize_opt_stmt(s),
    decreases s, 2nat,
{
    match s {
        Some(b) => {
            lemma_optimize_stmt_idempotent(*b);
        },
        None => {},
    }
}

/// Optimizing an optimized statement changes nothing.
pub proof fn lemma_optimize_stmt_idempotent(s: StmtView)
    ensures
        optimize_stmt_spec(optimize_stmt_spec(s)) == optimize_stmt_spec(s),
    decreases s, 1nat,
{
    match s.kind {
        StmtKindView::Let(name, e) => {
            lemma_fold_idempotent(e);
        },
        StmtKindView::Const(name, e) => {
            lemma_fold_idempotent(e);
        },
        StmtKindView::Assign(name, e) => {
            lemma_fold_idempotent(e);
        },
        StmtKindView::If(c, t, e) => {
            lemma_fold_idempotent(c);
            lemma_optimize_stmt_idempotent(*t);
            lemma_optimize_opt_idempotent(e);
            match e {
                Some(b) => {
                    lemma_optimize_stmt_idempotent(*b);
                },
                None => {
                    lemma_empty_block_fixed(s.line);
                },
            }
            let c2 = fold_expr_spec(c);
            if truthiness(c2) is None {
                let res = optimize_stmt_spec(s);
                assert(res == optimize_if_spec(s));
                assert(optimize_stmt_spec(res) == optimize_if_spec(res));
            }
        },
        StmtKindView::While(c, b) => {
            lemma_fold_idempotent(c);
            lemma_optimize_stmt_idempotent(*b);
            lemma_empty_block_fixed(s.line);
            let c2 = fold_expr_spec(c);
            if truthiness(c2) != Some(false) {
                let res = optimize_stmt_spec(s);
                assert(res == optimize_while_spec(s));
                assert(optimize_stmt_spec(res) == optimize_while_spec(res));
            }
        },
        StmtKindView::For(init, cond, step, body) => {
            match cond {
                Some(c) => {
                    lemma_fold_idempotent(c);
                },
                None => {},
            }
            match init {
                Some(i) => {
                    lemma_optimize_stmt_idempotent(*i);
                },
                None => {
                    lemma_empty_block_fixed(s.line);
                },
            }
            lemma_optimize_opt_idempotent(init);
            lemma_optimize_opt_idempotent(step);
            lemma_optimize_stmt_idempotent(*body);
            let c2 = fold_opt_expr(cond);
            if !(c2 is Some && truthiness(c2->Some_0) == Some(false)) {
                let res = optimize_stmt_spec(s);
                assert(res == optimize_for_spec(s));
                assert(optimize_stmt_spec(res) == optimize_for_spec(res));
            }
        },
        StmtKindView::Block(stmts) => {
            lemma_optimize_stmts_idempotent(stmts);
        },
        StmtKindView::Return(e) => {
            lemma_fold_idempotent(e);
        },
        StmtKindView::Break => {},
        StmtKindView::Continue => {},
        StmtKindView::Expr(e) => {
            lemma_fold_idempotent(e);
        },
    }
}

proof fn lemma_empty_block_fixed(line: usize)
    ensures
        optimize_stmt_spec(empty_block(line)) == empty_block(line),
{
    assert(optimize_stmts_spec(Seq::<StmtView>::empty()) =~= Seq::<StmtView>::empty());
}

/// Optimizing an optimized statement sequence changes nothing.
pub proof fn lemma_optimize_stmts_idempotent(ss: Seq<StmtView>)
    ensures
        optimize_stmts_spec(optimize_stmts_spec(ss)) == optimize_stmts_spec(ss),
    decreases ss, 2nat,
{
    if ss.len() == 0 {
    } else {
        let first = optimize_stmt_spec(ss[0]);
        lemma_optimize_stmt_idempotent(ss[0]);
        if first.kind is Return {
            let out = seq![first];
            assert(out[0] == first);
            assert(optimize_stmts_spec(out) =~= out);
        } else {
            let rest = optimize_stmts_spec(ss.drop_first());
            lemma_optimize_stmts_idempotent(ss.drop_first());
            let out = seq![first] + rest;
            assert(out[0] == first);
            assert(out.drop_first() =~= rest);
            assert(optimize_stmts_spec(out) =~= out);
        }
    }
}

/// Running the optimizer twice gives the program that running it once gives.
pub proof fn lemma_optimize_program_idempotent(p: ProgramView)
    ensures
        optimize_program_spec(optimize_program_spec(p)) == optimize_program_spec(p),
{
    let once = optimize_program_spec(p);
    let twice = optimize_program_spec(once);
    lemma_optimize_stmts_idempotent(p.top_level);
    assert forall|i: int| 0 <= i < p.functions.len() implies twice.functions[i]
        == once.functions[i] by {
        lemma_optimize_stmts_idempotent(p.functions[i].body);
    }
    assert(twice.functions =~= once.functions);
}

/// Whether, in this statement and the statements inside it, a `return`
/// only ever ends a statement sequence.
pub open spec fn return_ends_sequences(s: StmtView) -> bool
    decreases s, 0nat,
{
    match s.kind {
        StmtKindView::If(_, t, e) => return_ends_sequences(*t) && (e matches Some(b)
            ==> return_ends_sequences(*b)),
        StmtKindView::While(_, b) => return_ends_sequences(*b),
        StmtKindView::For(init, _, step, body) => {
            &&& init matches Some(i) ==> return_ends_sequences(*i)
            &&& step matches Some(t) ==> return_ends_sequences(*t)
            &&& return_ends_sequences(*body)
        },
        StmtKindView::Block(stmts) => return_is_last(stmts),
        _ => true,
    }
}

/// Whether no statement of the sequence follows a `return`, here and in
/// the statements inside.
pub open spec fn return_is_last(ss: Seq<StmtView>) -> bool
    decreases ss, 1nat,
{
    if ss.len() == 0 {
        true
    } else {
        &&& return_ends_sequences(ss[0])
        &&& ss[0].kind is Return ==> ss.len() == 1
        &&& return_is_last(ss.drop_first())
    }
}

/// Whether no statement of the program follows a `return` in its sequence.
pub open spec fn no_code_after_return(p: ProgramView) -> bool {
    &&& return_is_last(p.top_level)
    &&& forall|i: int| 0 <= i < p.functions.len() ==> return_is_last(#[trigger] p.functions[i].body)
}

proof fn lemma_optimized_if_return_last(s: StmtView)
    requires
        s.kind is If,
    ensures
        return_ends_sequences(optimize_if_spec(s)),
    decreases s, 0nat,
{
    assert(return_is_last(Seq::<StmtView>::empty()));
    match s.kind {
        StmtKindView::If(c, t, e) => {
            lemma_optimized_stmt_return_last(*t);
            match e {
                Some(b) => {
                    lemma_optimized_stmt_return_last(*b);
                },
                None => {},
            }
        },
        _ => {},
    }
}

proof fn lemma_optimized_while_return_last(s: StmtView)
    requires
        s.kind is While,
    ensures
        return_ends_sequences(optimize_while_spec(s)),
    decreases s, 0nat,
{
    assert(return_is_last(Seq::<StmtView>::empty()));
    match s.kind {
        StmtKindView::While(c, b) => {
            lemma_optimized_stmt_return_last(*b);
        },
        _ => {},
    }
}

proof fn lemma_optimized_for_return_last(s: StmtView)
    requires
        s.kind is For,
    ensures
        return_ends_sequences(optimize_for_spec(s)),
    decreases s, 0nat,
{
    assert(return_is_last(Seq::<StmtView>::empty()));
    match s.kind {
        StmtKindView::For(init, cond, step, body) => {
            match init {
                Some(i) => {
                    lemma_optimized_stmt_return_last(*i);
                },
                None => {},
            }
            match step {
                Some(t) => {
                    lemma_optimized_stmt_return_last(*t);
                },
                None => {},
            }
            lemma_optimized_stmt_return_last(*body);
        },
        _ => {},
    }
}

/// In an optimized statement a `return` only ever ends a statement sequence.
pub proof fn lemma_optimized_stmt_return_last(s: StmtView)
    ensures
        return_ends_sequences(optimize_stmt_spec(s)),
    decreases s, 1nat,
{
    match s.kind {
        StmtKindView::If(_, _, _) => {
            lemma_optimized_if_return_last(s);
        },
        StmtKindView::While(_, _) => {
            lemma_optimized_while_return_last(s);
        },
        StmtKindView::For(_, _, _, _) => {
            lemma_optimized_for_return_last(s);
        },
        StmtKindView::Block(stmts) => {
            lemma_optimized_stmts_return_last(stmts);
        },
        _ => {},
    }
}

/// In an optimized statement sequence nothing follows a `return`.
pub proof fn lemma_optimized_stmts_return_last(ss: Seq<StmtView>)
    ensures
        return_is_last(optimize_stmts_spec(ss)),
    decreases ss, 2nat,
{
    if ss.len() == 0 {
    } else {
        let first = optimize_stmt_spec(ss[0]);
        lemma_optimized_stmt_return_last(ss[0]);
        if first.kind is Return {
            let out = seq![first];
            assert(out[0] == first);
            assert(out.drop_first() =~= Seq::<StmtView>::empty());
            assert(return_is_last(out.drop_first()));
        } else {
            let rest = optimize_stmts_spec(ss.drop_first());
            lemma_optimized_stmts_return_last(ss.drop_first());
            let out = seq![first] + rest;
            assert(out[0] == first);
            assert(out.drop_first() =~= rest);
        }
    }
}

/// In an optimized program no statement follows a `return` in its sequence.
pub proof fn lemma_optimized_program_return_last(p: ProgramView)
    ensures
        no_code_after_return(optimize_program_spec(p)),
{
    lemma_optimized_stmts_return_last(p.top_level);
    let q = optimize_program_spec(p);
    assert forall|i: int| 0 <= i < q.functions.len() implies return_is_last(
        #[trigger] q.functions[i].body,
    ) by {
        lemma_optimized_stmts_return_last(p.functions[i].body);
    }
}

} // verus!
