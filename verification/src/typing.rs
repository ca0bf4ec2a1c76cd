//! The rules of names and types.
//!
//! Every expression has one of two types. Names are bound in scopes, which
//! nest; a function's parameter types are unknown until the first call of
//! the function outside of functions is analyzed, which fixes them for
//! all later calls.

use crate::ast::{
    BinOp, ExprView, FunctionView, Name, ProgramView, StmtKindView, StmtView, Type, UnaryOp,
};
use crate::error::{semantic_error, CompilerErrorView};
use crate::optimizer::is_relational;
use vstd::prelude::*;

verus! {

/// What a name in scope stands for.
#[derive(Debug, Clone, Copy, PartialEq, Eq, Structural)]
pub struct Binding {
    pub is_const: bool,
    pub ty: Type,
}

/// The declarations of one scope, in the order they were made.
pub type ScopeView = Seq<(Name, Binding)>;

/// What is known of a function while the program is analyzed.
pub struct SignatureView {
    pub name: Name,
    pub arity: nat,
    pub param_types: Option<Seq<Type>>,
    pub return_type: Option<Type>,
}

/// The state of the analysis.
pub struct Env {
    /// The scopes that are open, the innermost last.
    pub scopes: Seq<ScopeView>,
    /// One signature for each function of the program, in program order.
    pub signatures: Seq<SignatureView>,
    pub in_loop: bool,
    pub in_function: bool,
    /// The type of the `return` statements met so far in this function.
    pub returned: Option<Type>,
}

/// The latest declaration of `name` in a scope.
pub open spec fn lookup_scope(scope: ScopeView, name: Name) -> Option<Binding>
    decreases scope.len(),
{
    if scope.len() == 0 {
        None
    } else if scope.last().0 == name {
        Some(scope.last().1)
    } else {
        lookup_scope(scope.drop_last(), name)
    }
}

/// The declaration of `name` in the innermost scope that has one.
pub open spec fn lookup(scopes: Seq<ScopeView>, name: Name) -> Option<Binding>
    decreases scopes.len(),
{
    if scopes.len() == 0 {
        None
    } else {
        match lookup_scope(scopes.last(), name) {
            Some(b) => Some(b),
            None => lookup(scopes.drop_last(), name),
        }
    }
}

/// The index of the last function called `name`.
pub open spec fn find_function(sigs: Seq<SignatureView>, name: Name) -> Option<int>
    decreases sigs.len(),
{
    if sigs.len() == 0 {
        None
    } else if sigs.last().name == name {
        Some(sigs.len() - 1)
    } else {
        find_function(sigs.drop_last(), name)
    }
}

/// The index found is that of a function with the name.
pub proof fn lemma_find_function_in_range(sigs: Seq<SignatureView>, name: Name)
    ensures
        find_function(sigs, name) matches Some(j) ==> 0 <= j < sigs.len() && sigs[j].name == name,
    decreases sigs.len(),
{
    if sigs.len() > 0 && sigs.last().name != name {
        lemma_find_function_in_range(sigs.drop_last(), name);
    }
}

/// The type of an operation on one operand of each type.
pub open spec fn join(a: Type, b: Type) -> Type {
    if a == Type::F || b == Type::F {
        Type::F
    } else {
        Type::I
    }
}

/// The type of a binary operation; none for the remainder of floats.
pub open spec fn binary_type(op: BinOp, l: Type, r: Type) -> Option<Type> {
    if op is Mod {
        if l == Type::I && r == Type::I {
            Some(Type::I)
        } else {
            None
        }
    } else if is_relational(op) {
        Some(Type::I)
    } else {
        Some(join(l, r))
    }
}

/// The type of a unary operation: negation keeps the type of its
/// operand, `!` gives an integer.
pub open spec fn unary_type(op: UnaryOp, x: Type) -> Type {
    match op {
        UnaryOp::Neg => x,
        UnaryOp::Not => Type::I,
    }
}

/// `prefix`, the name, and a closing quote.
pub open spec fn quoted(prefix: Seq<char>, name: Name) -> Seq<char> {
    prefix + name + "'"@
}

/// The state with other signatures.
pub open spec fn with_signatures(env: Env, signatures: Seq<SignatureView>) -> Env {
    Env {
        scopes: env.scopes,
        signatures,
        in_loop: env.in_loop,
        in_function: env.in_function,
        returned: env.returned,
    }
}

/// The state with other scopes.
pub open spec fn with_scopes(env: Env, scopes: Seq<ScopeView>) -> Env {
    Env {
        scopes,
        signatures: env.signatures,
        in_loop: env.in_loop,
        in_function: env.in_function,
        returned: env.returned,
    }
}

/// The state inside or outside of a loop.
pub open spec fn with_in_loop(env: Env, in_loop: bool) -> Env {
    Env {
        scopes: env.scopes,
        signatures: env.signatures,
        in_loop,
        in_function: env.in_function,
        returned: env.returned,
    }
}

/// The state with another type of the `return` statements met.
pub open spec fn with_returned(env: Env, returned: Option<Type>) -> Env {
    Env {
        scopes: env.scopes,
        signatures: env.signatures,
        in_loop: env.in_loop,
        in_function: env.in_function,
        returned,
    }
}

/// The type that a call yields: the function's return type as far as it
/// is known, and otherwise the integer type.
pub open spec fn result_type(sig: SignatureView) -> Type {
    match sig.return_type {
        Some(t) => t,
        None => Type::I,
    }
}

/// A type with the analysis state after it, or an error.
pub type Typed = Result<(Type, Env), CompilerErrorView>;

/// A call of `name` with arguments of the types `ts`. Outside of
/// functions, the first call of a function fixes its parameter types. A
/// call in a function body fixes nothing. Wherever a call stands, its
/// arguments must be as many as the parameters, and of the types that
/// are fixed, if any are.
pub open spec fn apply_call(name: Name, ts: Seq<Type>, env: Env, line: usize) -> Typed {
    match find_function(env.signatures, name) {
        None => Err(semantic_error(line, quoted("Undefined function '"@, name))),
        Some(j) => {
            let sig = env.signatures[j];
            if ts.len() != sig.arity {
                Err(semantic_error(line, quoted("Wrong number of arguments in call to '"@, name)))
            } else {
                match sig.param_types {
                    None => if env.in_function {
                        Ok((result_type(sig), env))
                    } else {
                        Ok(
                            (
                                result_type(sig),
                                with_signatures(
                                    env,
                                    env.signatures.update(
                                        j,
                                        SignatureView {
                                            name: sig.name,
                                            arity: sig.arity,
                                            param_types: Some(ts),
                                            return_type: sig.return_type,
                                        },
                                    ),
                                ),
                            ),
                        )
                    },
                    Some(fixed) => if fixed == ts {
                        Ok((result_type(sig), env))
                    } else {
                        Err(
                            semantic_error(
                                line,
                                quoted("Argument types do not match earlier use of '"@, name),
                            ),
                        )
                    },
                }
            }
        },
    }
}

/// The type of an identifier used as a value.
pub open spec fn type_identifier(name: Name, env: Env, line: usize) -> Typed {
    match lookup(env.scopes, name) {
        Some(b) => Ok((b.ty, env)),
        None => if find_function(env.signatures, name) is Some {
            Err(semantic_error(line, quoted("Function used as a value: '"@, name)))
        } else {
            Err(semantic_error(line, quoted("Undefined variable '"@, name)))
        },
    }
}

/// The type of an expression in a statement on `line`.
pub open spec fn type_expr(e: ExprView, env: Env, line: usize) -> Typed
    decreases e,
{
    match e {
        ExprView::Number(_) => Ok((Type::I, env)),
        ExprView::Float(_) => Ok((Type::F, env)),
        ExprView::Identifier(name) => type_identifier(name, env, line),
        ExprView::Binary(l, op, r) => match type_expr(*l, env, line) {
            Err(e) => Err(e),
            Ok((tl, env1)) => match type_expr(*r, env1, line) {
                Err(e) => Err(e),
                Ok((tr, env2)) => match binary_type(op, tl, tr) {
                    Some(t) => Ok((t, env2)),
                    None => Err(semantic_error(line, "Modulo requires integer operands"@)),
                },
            },
        },
        ExprView::Unary(op, x) => match type_expr(*x, env, line) {
            Err(e) => Err(e),
            Ok((t, env1)) => Ok((unary_type(op, t), env1)),
        },
        ExprView::Call(name, args) => if find_function(env.signatures, name) is None {
            Err(semantic_error(line, quoted("Undefined function '"@, name)))
        } else {
            match type_args(args, env, line) {
                Err(e) => Err(e),
                Ok((ts, env1)) => apply_call(name, ts, env1, line),
            }
        },
        ExprView::Logical(l, op, r) => match type_expr(*l, env, line) {
            Err(e) => Err(e),
            Ok((tl, env1)) => match type_expr(*r, env1, line) {
                Err(e) => Err(e),
                Ok((tr, env2)) => Ok((join(tl, tr), env2)),
            },
        },
    }
}

/// The types of the arguments of a call, from left to right.
pub open spec fn type_args(args: Seq<ExprView>, env: Env, line: usize) -> Result<
    (Seq<Type>, Env),
    CompilerErrorView,
>
    decreases args,
{
    if args.len() == 0 {
        Ok((Seq::empty(), env))
    } else {
        match type_expr(args[0], env, line) {
            Err(e) => Err(e),
            Ok((t, env1)) => match type_args(args.drop_first(), env1, line) {
                Err(e) => Err(e),
                Ok((ts, env2)) => Ok((seq![t] + ts, env2)),
            },
        }
    }
}

/// The state with `name` declared in the innermost scope.
pub open spec fn declare(env: Env, name: Name, binding: Binding) -> Env {
    if env.scopes.len() == 0 {
        with_scopes(env, seq![seq![(name, binding)]])
    } else {
        with_scopes(
            env,
            env.scopes.update(env.scopes.len() - 1, env.scopes.last().push((name, binding))),
        )
    }
}

/// The state with a new innermost scope.
pub open spec fn push_scope(env: Env) -> Env {
    with_scopes(env, env.scopes.push(Seq::empty()))
}

/// The state without its innermost scope.
pub open spec fn pop_scope(env: Env) -> Env {
    if env.scopes.len() == 0 {
        env
    } else {
        with_scopes(env, env.scopes.drop_last())
    }
}

/// The analysis state after a statement, or an error.
pub type Analyzed = Result<Env, CompilerErrorView>;

/// `let` or `const`: the initializer is typed before the name is declared.
pub open spec fn analyze_declaration(
    name: Name,
    e: ExprView,
    is_const: bool,
    env: Env,
    line: usize,
) -> Analyzed {
    match type_expr(e, env, line) {
        Err(e) => Err(e),
        Ok((t, env1)) => Ok(declare(env1, name, Binding { is_const, ty: t })),
    }
}

/// An assignment: the name must be declared, not constant, and of the
/// type of the expression.
pub open spec fn analyze_assignment(name: Name, e: ExprView, env: Env, line: usize) -> Analyzed {
    match lookup(env.scopes, name) {
        None => Err(semantic_error(line, quoted("Undefined variable '"@, name))),
        Some(b) => if b.is_const {
            Err(semantic_error(line, quoted("Cannot reassign const variable '"@, name)))
        } else {
            match type_expr(e, env, line) {
                Err(e) => Err(e),
                Ok((t, env1)) => if t == b.ty {
                    Ok(env1)
                } else {
                    Err(semantic_error(line, quoted("Type mismatch in assignment to '"@, name)))
                },
            }
        },
    }
}

/// In a function all `return` statements must agree on one type.
pub open spec fn analyze_return(e: ExprView, env: Env, line: usize) -> Analyzed {
    match type_expr(e, env, line) {
        Err(e) => Err(e),
        Ok((t, env1)) => if !env1.in_function {
            Ok(env1)
        } else {
            match env1.returned {
                None => Ok(with_returned(env1, Some(t))),
                Some(t0) => if t0 == t {
                    Ok(env1)
                } else {
                    Err(semantic_error(line, "Inconsistent return types"@))
                },
            }
        },
    }
}

/// An expression whose value is not used: it is typed.
pub open spec fn analyze_expression(e: ExprView, env: Env, line: usize) -> Analyzed {
    match type_expr(e, env, line) {
        Err(e) => Err(e),
        Ok((_, env1)) => Ok(env1),
    }
}

/// An expression that may be absent.
pub open spec fn analyze_opt_expression(e: Option<ExprView>, env: Env, line: usize) -> Analyzed {
    match e {
        Some(x) => analyze_expression(x, env, line),
        None => Ok(env),
    }
}

/// A statement that may be absent.
pub open spec fn analyze_opt_stmt(s: Option<Box<StmtView>>, env: Env) -> Analyzed
    decreases s, 3nat,
{
    match s {
        Some(b) => analyze_stmt_spec(*b, env),
        None => Ok(env),
    }
}

/// An `if`: the condition, then the branches, in the scope around.
pub open spec fn analyze_if(s: StmtView, env: Env) -> Analyzed
    decreases s, 0nat,
{
    match s.kind {
        StmtKindView::If(c, t, e) => match analyze_expression(c, env, s.line) {
            Err(e) => Err(e),
            Ok(env1) => match analyze_stmt_spec(*t, env1) {
                Err(e) => Err(e),
                Ok(env2) => analyze_opt_stmt(e, env2),
            },
        },
        _ => Ok(env),
    }
}

/// A `while`: the condition, then the body inside the loop.
pub open spec fn analyze_while(s: StmtView, env: Env) -> Analyzed
    decreases s, 0nat,
{
    match s.kind {
        StmtKindView::While(c, b) => match analyze_expression(c, env, s.line) {
            Err(e) => Err(e),
            Ok(env1) => match analyze_stmt_spec(*b, with_in_loop(env1, true)) {
                Err(e) => Err(e),
                Ok(env2) => Ok(with_in_loop(env2, env.in_loop)),
            },
        },
        _ => Ok(env),
    }
}

/// A `for` has a scope of its own, which holds what its first clause
/// declares; its body and its third clause are inside the loop.
pub open spec fn analyze_for(s: StmtView, env: Env) -> Analyzed
    decreases s, 0nat,
{
    match s.kind {
        StmtKindView::For(init, cond, step, body) => match analyze_opt_stmt(
            init,
            push_scope(env),
        ) {
            Err(e) => Err(e),
            Ok(env1) => match analyze_opt_expression(cond, env1, s.line) {
                Err(e) => Err(e),
                Ok(env2) => match analyze_stmt_spec(*body, with_in_loop(env2, true)) {
                    Err(e) => Err(e),
                    Ok(env3) => match analyze_opt_stmt(step, env3) {
                        Err(e) => Err(e),
                        Ok(env4) => Ok(pop_scope(with_in_loop(env4, env.in_loop))),
                    },
                },
            },
        },
        _ => Ok(env),
    }
}

/// A block has a scope of its own.
pub open spec fn analyze_block(s: StmtView, env: Env) -> Analyzed
    decreases s, 0nat,
{
    match s.kind {
        StmtKindView::Block(stmts) => match analyze_stmts_spec(stmts, push_scope(env)) {
            Err(e) => Err(e),
            Ok(env1) => Ok(pop_scope(env1)),
        },
        _ => Ok(env),
    }
}

/// `break` and `continue` are errors outside of loops.
pub open spec fn analyze_jump(inside: bool, message: Seq<char>, env: Env, line: usize) -> Analyzed {
    if inside {
        Ok(env)
    } else {
        Err(semantic_error(line, message))
    }
}

/// The state after a statement, or the first error in it.
pub open spec fn analyze_stmt_spec(s: StmtView, env: Env) -> Analyzed
    decreases s, 1nat,
{
    match s.kind {
        StmtKindView::Let(name, e) => analyze_declaration(name, e, false, env, s.line),
        StmtKindView::Const(name, e) => analyze_declaration(name, e, true, env, s.line),
        StmtKindView::Assign(name, e) => analyze_assignment(name, e, env, s.line),
        StmtKindView::If(_, _, _) => analyze_if(s, env),
        StmtKindView::While(_, _) => analyze_while(s, env),
        StmtKindView::For(_, _, _, _) => analyze_for(s, env),
        StmtKindView::Block(_) => analyze_block(s, env),
        StmtKindView::Return(e) => analyze_return(e, env, s.line),
        StmtKindView::Break => analyze_jump(
            env.in_loop,
            "Break statement outside of loop"@,
            env,
            s.line,
        ),
        StmtKindView::Continue => analyze_jump(
            env.in_loop,
            "Continue statement outside of loop"@,
            env,
            s.line,
        ),
        StmtKindView::Expr(e) => analyze_expression(e, env, s.line),
    }
}

/// The state after the statements, or the first error in them.
pub open spec fn analyze_stmts_spec(ss: Seq<StmtView>, env: Env) -> Analyzed
    decreases ss, 2nat,
{
    if ss.len() == 0 {
        Ok(env)
    } else {
        match analyze_stmt_spec(ss[0], env) {
            Err(e) => Err(e),
            Ok(env1) => analyze_stmts_spec(ss.drop_first(), env1),
        }
    }
}

/// The types that the parameters of a function are analyzed with: those
/// that a call has fixed, and otherwise the integer type for each.
pub open spec fn assumed_types(sig: SignatureView) -> Seq<Type> {
    match sig.param_types {
        Some(ts) => ts,
        None => Seq::new(sig.arity, |i: int| Type::I),
    }
}

/// The scope of a function's parameters.
pub open spec fn param_scope(params: Seq<Name>, types: Seq<Type>) -> ScopeView {
    Seq::new(
        params.len(),
        |i: int|
            (
                params[i],
                Binding {
                    is_const: false,
                    ty: if i < types.len() {
                        types[i]
                    } else {
                        Type::I
                    },
                },
            ),
    )
}

/// The signatures after function `i` was analyzed with the parameter
/// types assumed for it: its return type is the type of its `return`
/// statements, or the integer type if it has none.
pub open spec fn analyze_function_spec(
    f: FunctionView,
    i: int,
    signatures: Seq<SignatureView>,
) -> Result<Seq<SignatureView>, CompilerErrorView> {
    let env = Env {
        scopes: seq![param_scope(f.params, assumed_types(signatures[i]))],
        signatures,
        in_loop: false,
        in_function: true,
        returned: None,
    };
    match analyze_stmts_spec(f.body, env) {
        Err(e) => Err(e),
        Ok(env1) => if 0 <= i < env1.signatures.len() {
            let sig = env1.signatures[i];
            Ok(
                env1.signatures.update(
                    i,
                    SignatureView {
                        name: sig.name,
                        arity: sig.arity,
                        param_types: sig.param_types,
                        return_type: Some(
                            match env1.returned {
                                Some(t) => t,
                                None => Type::I,
                            },
                        ),
                    },
                ),
            )
        } else {
            Ok(env1.signatures)
        },
    }
}

/// Every function from index `i` on analyzed in turn; with `only_fixed`,
/// those are passed over whose parameter types no call has fixed.
pub open spec fn analyze_functions_spec(
    fs: Seq<FunctionView>,
    i: int,
    signatures: Seq<SignatureView>,
    only_fixed: bool,
) -> Result<Seq<SignatureView>, CompilerErrorView>
    decreases fs.len() - i,
{
    if 0 <= i < fs.len() {
        if i < signatures.len() && (!only_fixed || signatures[i].param_types is Some) {
            match analyze_function_spec(fs[i], i, signatures) {
                Err(e) => Err(e),
                Ok(sigs) => analyze_functions_spec(fs, i + 1, sigs, only_fixed),
            }
        } else {
            analyze_functions_spec(fs, i + 1, signatures, only_fixed)
        }
    } else {
        Ok(signatures)
    }
}

/// The signatures before the analysis: nothing is known of any type.
pub open spec fn initial_signatures(fs: Seq<FunctionView>) -> Seq<SignatureView> {
    Seq::new(
        fs.len(),
        |i: int|
            SignatureView {
                name: fs[i].name,
                arity: fs[i].params.len(),
                param_types: None,
                return_type: None,
            },
    )
}

/// The signatures at the end of the analysis, which has three passes.
/// First every function is analyzed with the integer type for every
/// parameter, which gives its return type. Then the statements outside of
/// functions are analyzed; their calls fix parameter types. Last, the
/// functions whose parameter types were fixed are analyzed again, with
/// those types, which gives their return types anew. A function that no
/// statement outside of functions calls keeps integer parameters and the
/// return type of the first pass.
pub open spec fn final_signatures(p: ProgramView) -> Result<
    Seq<SignatureView>,
    CompilerErrorView,
> {
    match analyze_functions_spec(p.functions, 0, initial_signatures(p.functions), false) {
        Err(e) => Err(e),
        Ok(sigs1) => {
            let env = Env {
                scopes: seq![Seq::empty()],
                signatures: sigs1,
                in_loop: false,
                in_function: false,
                returned: None,
            };
            match analyze_stmts_spec(p.top_level, env) {
                Err(e) => Err(e),
                Ok(env1) => analyze_functions_spec(p.functions, 0, env1.signatures, true),
            }
        },
    }
}

/// A function with the types that the analysis found written into it.
pub open spec fn annotate_function(f: FunctionView, sig: SignatureView) -> FunctionView {
    FunctionView {
        name: f.name,
        params: f.params,
        param_types: Some(
            match sig.param_types {
                Some(ts) => ts,
                None => Seq::new(f.params.len(), |i: int| Type::I),
            },
        ),
        return_type: Some(result_type(sig)),
        body: f.body,
        line: f.line,
    }
}

/// The program with the types of the signatures written into its
/// functions.
pub open spec fn annotate_program(p: ProgramView, sigs: Seq<SignatureView>) -> ProgramView {
    ProgramView {
        functions: Seq::new(
            p.functions.len(),
            |i: int|
                if i < sigs.len() {
                    annotate_function(p.functions[i], sigs[i])
                } else {
                    p.functions[i]
                },
        ),
        top_level: p.top_level,
    }
}

/// The program with the parameter and return types of its functions
/// filled in, or the first error of the analysis.
pub open spec fn analyze_spec(p: ProgramView) -> Result<ProgramView, CompilerErrorView> {
    match final_signatures(p) {
        Err(e) => Err(e),
        Ok(sigs) => Ok(annotate_program(p, sigs)),
    }
}


/// Whether two lists of signatures are of the same functions: as many,
/// with the same names and numbers of parameters.
pub open spec fn same_functions(a: Seq<SignatureView>, b: Seq<SignatureView>) -> bool {
    &&& a.len() == b.len()
    &&& forall|i: int|
        0 <= i < a.len() ==> (#[trigger] a[i]).name == b[i].name && a[i].arity == b[i].arity
}

/// Whether the parameter types that are fixed are one for each parameter.
pub open spec fn aligned(sigs: Seq<SignatureView>) -> bool {
    forall|i: int|
        0 <= i < sigs.len() ==> ((#[trigger] sigs[i]).param_types matches Some(ts) ==> ts.len()
            == sigs[i].arity)
}

/// Whether `after` is of the same functions as `before`, and aligned if
/// `before` is.
pub open spec fn keeps_signatures(before: Seq<SignatureView>, after: Seq<SignatureView>) -> bool {
    same_functions(before, after) && (aligned(before) ==> aligned(after))
}

/// Whether every `break` and `continue` in the statement stands in a
/// loop, `in_loop` telling whether the statement itself does.
pub open spec fn jumps_in_loops(s: StmtView, in_loop: bool) -> bool
    decreases s, 0nat,
{
    match s.kind {
        StmtKindView::Break => in_loop,
        StmtKindView::Continue => in_loop,
        StmtKindView::If(_, t, e) => jumps_in_loops(*t, in_loop) && (e matches Some(b)
            ==> jumps_in_loops(*b, in_loop)),
        StmtKindView::While(_, b) => jumps_in_loops(*b, true),
        StmtKindView::For(init, _, step, body) => {
            &&& init matches Some(i) ==> jumps_in_loops(*i, in_loop)
            &&& step matches Some(t) ==> jumps_in_loops(*t, true)
            &&& jumps_in_loops(*body, true)
        },
        StmtKindView::Block(stmts) => all_jumps_in_loops(stmts, in_loop),
        _ => true,
    }
}

/// Whether every `break` and `continue` in the statements stands in a
/// loop.
pub open spec fn all_jumps_in_loops(ss: Seq<StmtView>, in_loop: bool) -> bool
    decreases ss, 1nat,
{
    if ss.len() == 0 {
        true
    } else {
        jumps_in_loops(ss[0], in_loop) && all_jumps_in_loops(ss.drop_first(), in_loop)
    }
}

/// Whether a call of `name` stands in the expression.
pub open spec fn expr_calls(e: ExprView, name: Name) -> bool
    decreases e,
{
    match e {
        ExprView::Binary(l, _, r) => expr_calls(*l, name) || expr_calls(*r, name),
        ExprView::Logical(l, _, r) => expr_calls(*l, name) || expr_calls(*r, name),
        ExprView::Unary(_, x) => expr_calls(*x, name),
        ExprView::Call(callee, args) => callee == name || args_call(args, name),
        _ => false,
    }
}

/// Whether a call of `name` stands in one of the arguments.
pub open spec fn args_call(args: Seq<ExprView>, name: Name) -> bool
    decreases args,
{
    args.len() > 0 && (expr_calls(args[0], name) || args_call(args.drop_first(), name))
}

/// Whether a call of `name` stands in the statement.
pub open spec fn stmt_calls(s: StmtView, name: Name) -> bool
    decreases s, 0nat,
{
    match s.kind {
        StmtKindView::Let(_, e) => expr_calls(e, name),
        StmtKindView::Const(_, e) => expr_calls(e, name),
        StmtKindView::Assign(_, e) => expr_calls(e, name),
        StmtKindView::Return(e) => expr_calls(e, name),
        StmtKindView::Expr(e) => expr_calls(e, name),
        StmtKindView::If(c, t, e) => expr_calls(c, name) || stmt_calls(*t, name) || (e matches Some(
            b,
        ) && stmt_calls(*b, name)),
        StmtKindView::While(c, b) => expr_calls(c, name) || stmt_calls(*b, name),
        StmtKindView::For(init, cond, step, body) => {
            ||| init matches Some(i) && stmt_calls(*i, name)
            ||| cond matches Some(c) && expr_calls(c, name)
            ||| step matches Some(t) && stmt_calls(*t, name)
            ||| stmt_calls(*body, name)
        },
        StmtKindView::Block(stmts) => stmts_call(stmts, name),
        _ => false,
    }
}

/// Whether a call of `name` stands in one of the statements.
pub open spec fn stmts_call(ss: Seq<StmtView>, name: Name) -> bool
    decreases ss, 1nat,
{
    ss.len() > 0 && (stmt_calls(ss[0], name) || stmts_call(ss.drop_first(), name))
}

/// Whether a `return` stands in the statement.
pub open spec fn stmt_returns(s: StmtView) -> bool
    decreases s, 0nat,
{
    match s.kind {
        StmtKindView::Return(_) => true,
        StmtKindView::If(_, t, e) => stmt_returns(*t) || (e matches Some(b) && stmt_returns(*b)),
        StmtKindView::While(_, b) => stmt_returns(*b),
        StmtKindView::For(init, _, step, body) => {
            ||| init matches Some(i) && stmt_returns(*i)
            ||| step matches Some(t) && stmt_returns(*t)
            ||| stmt_returns(*body)
        },
        StmtKindView::Block(stmts) => stmts_return(stmts),
        _ => false,
    }
}

/// Whether a `return` stands in one of the statements.
pub open spec fn stmts_return(ss: Seq<StmtView>) -> bool
    decreases ss, 1nat,
{
    ss.len() > 0 && (stmt_returns(ss[0]) || stmts_return(ss.drop_first()))
}

/// Whether `after` is of the same functions as `before` with the same
/// return types, aligned if `before` is, and, in a function, equal to
/// `before`.
pub open spec fn carried(
    before: Seq<SignatureView>,
    after: Seq<SignatureView>,
    in_function: bool,
) -> bool {
    &&& keeps_signatures(before, after)
    &&& forall|i: int|
        0 <= i < before.len() ==> (#[trigger] before[i]).return_type == after[i].return_type
    &&& in_function ==> after == before
}

/// Whether the functions called `name` have the same signatures in both.
pub open spec fn left_alone(before: Seq<SignatureView>, after: Seq<SignatureView>, name: Name) -> bool {
    &&& before.len() == after.len()
    &&& forall|i: int|
        0 <= i < before.len() && (#[trigger] before[i]).name == name ==> after[i] == before[i]
}

/// Whether the parameter types that are fixed are the same in both.
pub open spec fn same_fixed(a: Seq<SignatureView>, b: Seq<SignatureView>) -> bool {
    &&& a.len() == b.len()
    &&& forall|i: int| 0 <= i < a.len() ==> (#[trigger] a[i]).param_types == b[i].param_types
}

proof fn lemma_keeps_signatures_transitive(
    a: Seq<SignatureView>,
    b: Seq<SignatureView>,
    c: Seq<SignatureView>,
)
    requires
        keeps_signatures(a, b),
        keeps_signatures(b, c),
    ensures
        keeps_signatures(a, c),
        same_fixed(a, b) && same_fixed(b, c) ==> same_fixed(a, c),
{
    assert forall|i: int| 0 <= i < a.len() implies (#[trigger] a[i]).name == c[i].name
        && a[i].arity == c[i].arity by {
        assert(a[i].name == b[i].name);
        assert(b[i].name == c[i].name);
    }
    if same_fixed(a, b) && same_fixed(b, c) {
        assert forall|i: int| 0 <= i < a.len() implies (#[trigger] a[i]).param_types
            == c[i].param_types by {
            assert(a[i].param_types == b[i].param_types);
            assert(b[i].param_types == c[i].param_types);
        }
    }
}

proof fn lemma_carried_transitive(
    a: Seq<SignatureView>,
    b: Seq<SignatureView>,
    c: Seq<SignatureView>,
    in_function: bool,
)
    requires
        carried(a, b, in_function),
        carried(b, c, in_function),
    ensures
        carried(a, c, in_function),
{
    lemma_keeps_signatures_transitive(a, b, c);
    assert forall|i: int| 0 <= i < a.len() implies (#[trigger] a[i]).return_type
        == c[i].return_type by {
        assert(a[i].return_type == b[i].return_type);
        assert(b[i].return_type == c[i].return_type);
    }
}

proof fn lemma_apply_call_keeps(name: Name, ts: Seq<Type>, env: Env, line: usize)
    requires
        apply_call(name, ts, env, line) is Ok,
    ensures
        carried(env.signatures, apply_call(name, ts, env, line)->Ok_0.1.signatures, env.in_function),
        apply_call(name, ts, env, line)->Ok_0.1.in_loop == env.in_loop,
        apply_call(name, ts, env, line)->Ok_0.1.in_function == env.in_function,
        apply_call(name, ts, env, line)->Ok_0.1.returned == env.returned,
{
    lemma_find_function_in_range(env.signatures, name);
}

proof fn lemma_type_expr_keeps(e: ExprView, env: Env, line: usize)
    requires
        type_expr(e, env, line) is Ok,
    ensures
        carried(env.signatures, type_expr(e, env, line)->Ok_0.1.signatures, env.in_function),
        type_expr(e, env, line)->Ok_0.1.in_loop == env.in_loop,
        type_expr(e, env, line)->Ok_0.1.in_function == env.in_function,
        type_expr(e, env, line)->Ok_0.1.returned == env.returned,
    decreases e,
{
    match e {
        ExprView::Binary(l, op, r) => {
            let env1 = type_expr(*l, env, line)->Ok_0.1;
            let env2 = type_expr(*r, env1, line)->Ok_0.1;
            lemma_type_expr_keeps(*l, env, line);
            lemma_type_expr_keeps(*r, env1, line);
            lemma_carried_transitive(env.signatures, env1.signatures, env2.signatures, env.in_function);
        },
        ExprView::Unary(op, x) => {
            lemma_type_expr_keeps(*x, env, line);
        },
        ExprView::Call(name, args) => {
            let env1 = type_args(args, env, line)->Ok_0.1;
            let ts = type_args(args, env, line)->Ok_0.0;
            let env2 = apply_call(name, ts, env1, line)->Ok_0.1;
            lemma_type_args_keeps(args, env, line);
            lemma_apply_call_keeps(name, ts, env1, line);
            lemma_carried_transitive(env.signatures, env1.signatures, env2.signatures, env.in_function);
        },
        ExprView::Logical(l, op, r) => {
            let env1 = type_expr(*l, env, line)->Ok_0.1;
            let env2 = type_expr(*r, env1, line)->Ok_0.1;
            lemma_type_expr_keeps(*l, env, line);
            lemma_type_expr_keeps(*r, env1, line);
            lemma_carried_transitive(env.signatures, env1.signatures, env2.signatures, env.in_function);
        },
        _ => {},
    }
}

proof fn lemma_type_args_keeps(args: Seq<ExprView>, env: Env, line: usize)
    requires
        type_args(args, env, line) is Ok,
    ensures
        carried(env.signatures, type_args(args, env, line)->Ok_0.1.signatures, env.in_function),
        type_args(args, env, line)->Ok_0.1.in_loop == env.in_loop,
        type_args(args, env, line)->Ok_0.1.in_function == env.in_function,
        type_args(args, env, line)->Ok_0.1.returned == env.returned,
    decreases args,
{
    if args.len() > 0 {
        let env1 = type_expr(args[0], env, line)->Ok_0.1;
        let env2 = type_args(args.drop_first(), env1, line)->Ok_0.1;
        lemma_type_expr_keeps(args[0], env, line);
        lemma_type_args_keeps(args.drop_first(), env1, line);
        lemma_carried_transitive(env.signatures, env1.signatures, env2.signatures, env.in_function);
    }
}

proof fn lemma_analyze_opt_stmt_keeps(s: Option<Box<StmtView>>, env: Env)
    requires
        analyze_opt_stmt(s, env) is Ok,
    ensures
        carried(env.signatures, analyze_opt_stmt(s, env)->Ok_0.signatures, env.in_function),
        analyze_opt_stmt(s, env)->Ok_0.in_loop == env.in_loop,
        analyze_opt_stmt(s, env)->Ok_0.in_function == env.in_function,
        !(s matches Some(b) && stmt_returns(*b)) ==> analyze_opt_stmt(s, env)->Ok_0.returned == env.returned,
        s matches Some(b) ==> jumps_in_loops(*b, env.in_loop),
    decreases s, 3nat,
{
    match s {
        Some(b) => {
            lemma_analyze_stmt_keeps(*b, env);
        },
        None => {},
    }
}

proof fn lemma_analyze_if_keeps(s: StmtView, env: Env)
    requires
        s.kind is If,
        analyze_if(s, env) is Ok,
    ensures
        carried(env.signatures, analyze_if(s, env)->Ok_0.signatures, env.in_function),
        analyze_if(s, env)->Ok_0.in_loop == env.in_loop,
        analyze_if(s, env)->Ok_0.in_function == env.in_function,
        !stmt_returns(s) ==> analyze_if(s, env)->Ok_0.returned == env.returned,
        jumps_in_loops(s, env.in_loop),
    decreases s, 0nat,
{
    match s.kind {
        StmtKindView::If(c, t, e) => {
            let env1 = analyze_expression(c, env, s.line)->Ok_0;
            let env2 = analyze_stmt_spec(*t, env1)->Ok_0;
            let env3 = analyze_opt_stmt(e, env2)->Ok_0;
            lemma_type_expr_keeps(c, env, s.line);
            lemma_analyze_stmt_keeps(*t, env1);
            lemma_analyze_opt_stmt_keeps(e, env2);
            lemma_carried_transitive(env.signatures, env1.signatures, env2.signatures, env.in_function);
            lemma_carried_transitive(env.signatures, env2.signatures, env3.signatures, env.in_function);
        },
        _ => {},
    }
}

proof fn lemma_analyze_while_keeps(s: StmtView, env: Env)
    requires
        s.kind is While,
        analyze_while(s, env) is Ok,
    ensures
        carried(env.signatures, analyze_while(s, env)->Ok_0.signatures, env.in_function),
        analyze_while(s, env)->Ok_0.in_loop == env.in_loop,
        analyze_while(s, env)->Ok_0.in_function == env.in_function,
        !stmt_returns(s) ==> analyze_while(s, env)->Ok_0.returned == env.returned,
        jumps_in_loops(s, env.in_loop),
    decreases s, 0nat,
{
    match s.kind {
        StmtKindView::While(c, b) => {
            let env1 = analyze_expression(c, env, s.line)->Ok_0;
            let env2 = analyze_stmt_spec(*b, with_in_loop(env1, true))->Ok_0;
            lemma_type_expr_keeps(c, env, s.line);
            lemma_analyze_stmt_keeps(*b, with_in_loop(env1, true));
            lemma_carried_transitive(env.signatures, env1.signatures, env2.signatures, env.in_function);
        },
        _ => {},
    }
}

proof fn lemma_analyze_for_keeps(s: StmtView, env: Env)
    requires
        s.kind is For,
        analyze_for(s, env) is Ok,
    ensures
        carried(env.signatures, analyze_for(s, env)->Ok_0.signatures, env.in_function),
        analyze_for(s, env)->Ok_0.in_loop == env.in_loop,
        analyze_for(s, env)->Ok_0.in_function == env.in_function,
        !stmt_returns(s) ==> analyze_for(s, env)->Ok_0.returned == env.returned,
        jumps_in_loops(s, env.in_loop),
    decreases s, 0nat,
{
    match s.kind {
        StmtKindView::For(init, cond, step, body) => {
            let env1 = analyze_opt_stmt(init, push_scope(env))->Ok_0;
            let env2 = analyze_opt_expression(cond, env1, s.line)->Ok_0;
            let env3 = analyze_stmt_spec(*body, with_in_loop(env2, true))->Ok_0;
            let env4 = analyze_opt_stmt(step, env3)->Ok_0;
            lemma_analyze_opt_stmt_keeps(init, push_scope(env));
            match cond {
                Some(c) => {
                    lemma_type_expr_keeps(c, env1, s.line);
                },
                None => {},
            }
            lemma_analyze_stmt_keeps(*body, with_in_loop(env2, true));
            lemma_analyze_opt_stmt_keeps(step, env3);
            lemma_carried_transitive(env.signatures, env1.signatures, env2.signatures, env.in_function);
            lemma_carried_transitive(env.signatures, env2.signatures, env3.signatures, env.in_function);
            lemma_carried_transitive(env.signatures, env3.signatures, env4.signatures, env.in_function);
        },
        _ => {},
    }
}

proof fn lemma_analyze_simple_keeps(s: StmtView, env: Env)
    requires
        s.kind is Let || s.kind is Const || s.kind is Assign || s.kind is Return || s.kind is Expr,
        analyze_stmt_spec(s, env) is Ok,
    ensures
        carried(env.signatures, analyze_stmt_spec(s, env)->Ok_0.signatures, env.in_function),
        analyze_stmt_spec(s, env)->Ok_0.in_loop == env.in_loop,
        analyze_stmt_spec(s, env)->Ok_0.in_function == env.in_function,
        !stmt_returns(s) ==> analyze_stmt_spec(s, env)->Ok_0.returned == env.returned,
        jumps_in_loops(s, env.in_loop),
{
    match s.kind {
        StmtKindView::Let(name, e) => {
            lemma_type_expr_keeps(e, env, s.line);
        },
        StmtKindView::Const(name, e) => {
            lemma_type_expr_keeps(e, env, s.line);
        },
        StmtKindView::Assign(name, e) => {
            lemma_type_expr_keeps(e, env, s.line);
        },
        StmtKindView::Return(e) => {
            lemma_type_expr_keeps(e, env, s.line);
        },
        StmtKindView::Expr(e) => {
            lemma_type_expr_keeps(e, env, s.line);
        },
        _ => {},
    }
}

proof fn lemma_analyze_stmt_keeps(s: StmtView, env: Env)
    requires
        analyze_stmt_spec(s, env) is Ok,
    ensures
        carried(env.signatures, analyze_stmt_spec(s, env)->Ok_0.signatures, env.in_function),
        analyze_stmt_spec(s, env)->Ok_0.in_loop == env.in_loop,
        analyze_stmt_spec(s, env)->Ok_0.in_function == env.in_function,
        !stmt_returns(s) ==> analyze_stmt_spec(s, env)->Ok_0.returned == env.returned,
        jumps_in_loops(s, env.in_loop),
    decreases s, 1nat,
{
    match s.kind {
        StmtKindView::If(_, _, _) => {
            lemma_analyze_if_keeps(s, env);
        },
        StmtKindView::While(_, _) => {
            lemma_analyze_while_keeps(s, env);
        },
        StmtKindView::For(_, _, _, _) => {
            lemma_analyze_for_keeps(s, env);
        },
        StmtKindView::Block(stmts) => {
            lemma_analyze_stmts_keeps(stmts, push_scope(env));
        },
        StmtKindView::Break => {},
        StmtKindView::Continue => {},
        _ => {
            lemma_analyze_simple_keeps(s, env);
        },
    }
}

proof fn lemma_analyze_stmts_keeps(ss: Seq<StmtView>, env: Env)
    requires
        analyze_stmts_spec(ss, env) is Ok,
    ensures
        carried(env.signatures, analyze_stmts_spec(ss, env)->Ok_0.signatures, env.in_function),
        analyze_stmts_spec(ss, env)->Ok_0.in_loop == env.in_loop,
        analyze_stmts_spec(ss, env)->Ok_0.in_function == env.in_function,
        !stmts_return(ss) ==> analyze_stmts_spec(ss, env)->Ok_0.returned == env.returned,
        all_jumps_in_loops(ss, env.in_loop),
    decreases ss, 2nat,
{
    if ss.len() > 0 {
        let env1 = analyze_stmt_spec(ss[0], env)->Ok_0;
        let env2 = analyze_stmts_spec(ss.drop_first(), env1)->Ok_0;
        lemma_analyze_stmt_keeps(ss[0], env);
        lemma_analyze_stmts_keeps(ss.drop_first(), env1);
        lemma_carried_transitive(env.signatures, env1.signatures, env2.signatures, env.in_function);
    }
}

proof fn lemma_left_alone_transitive(
    a: Seq<SignatureView>,
    b: Seq<SignatureView>,
    c: Seq<SignatureView>,
    name: Name,
)
    requires
        left_alone(a, b, name),
        left_alone(b, c, name),
    ensures
        left_alone(a, c, name),
{
    assert forall|i: int| 0 <= i < a.len() && (#[trigger] a[i]).name == name implies c[i]
        == a[i] by {
        assert(b[i] == a[i]);
        assert(b[i].name == name);
    }
}

proof fn lemma_type_expr_leaves(e: ExprView, env: Env, line: usize, name: Name)
    requires
        type_expr(e, env, line) is Ok,
        !expr_calls(e, name),
    ensures
        left_alone(env.signatures, type_expr(e, env, line)->Ok_0.1.signatures, name),
    decreases e,
{
    match e {
        ExprView::Binary(l, op, r) => {
            let env1 = type_expr(*l, env, line)->Ok_0.1;
            let env2 = type_expr(*r, env1, line)->Ok_0.1;
            lemma_type_expr_leaves(*l, env, line, name);
            lemma_type_expr_leaves(*r, env1, line, name);
            lemma_left_alone_transitive(env.signatures, env1.signatures, env2.signatures, name);
        },
        ExprView::Unary(op, x) => {
            lemma_type_expr_leaves(*x, env, line, name);
        },
        ExprView::Call(callee, args) => {
            let env1 = type_args(args, env, line)->Ok_0.1;
            let ts = type_args(args, env, line)->Ok_0.0;
            let env2 = apply_call(callee, ts, env1, line)->Ok_0.1;
            lemma_type_args_leaves(args, env, line, name);
            lemma_find_function_in_range(env1.signatures, callee);
            lemma_left_alone_transitive(env.signatures, env1.signatures, env2.signatures, name);
        },
        ExprView::Logical(l, op, r) => {
            let env1 = type_expr(*l, env, line)->Ok_0.1;
            let env2 = type_expr(*r, env1, line)->Ok_0.1;
            lemma_type_expr_leaves(*l, env, line, name);
            lemma_type_expr_leaves(*r, env1, line, name);
            lemma_left_alone_transitive(env.signatures, env1.signatures, env2.signatures, name);
        },
        _ => {},
    }
}

proof fn lemma_type_args_leaves(args: Seq<ExprView>, env: Env, line: usize, name: Name)
    requires
        type_args(args, env, line) is Ok,
        !args_call(args, name),
    ensures
        left_alone(env.signatures, type_args(args, env, line)->Ok_0.1.signatures, name),
    decreases args,
{
    if args.len() > 0 {
        let env1 = type_expr(args[0], env, line)->Ok_0.1;
        let env2 = type_args(args.drop_first(), env1, line)->Ok_0.1;
        lemma_type_expr_leaves(args[0], env, line, name);
        lemma_type_args_leaves(args.drop_first(), env1, line, name);
        lemma_left_alone_transitive(env.signatures, env1.signatures, env2.signatures, name);
    }
}

proof fn lemma_analyze_opt_stmt_leaves(s: Option<Box<StmtView>>, env: Env, name: Name)
    requires
        analyze_opt_stmt(s, env) is Ok,
        !(s matches Some(b) && stmt_calls(*b, name)),
    ensures
        left_alone(env.signatures, analyze_opt_stmt(s, env)->Ok_0.signatures, name),
    decreases s, 3nat,
{
    match s {
        Some(b) => {
            lemma_analyze_stmt_leaves(*b, env, name);
        },
        None => {},
    }
}

proof fn lemma_analyze_if_leaves(s: StmtView, env: Env, name: Name)
    requires
        s.kind is If,
        analyze_if(s, env) is Ok,
        !stmt_calls(s, name),
    ensures
        left_alone(env.signatures, analyze_if(s, env)->Ok_0.signatures, name),
    decreases s, 0nat,
{
    match s.kind {
        StmtKindView::If(c, t, e) => {
            let env1 = analyze_expression(c, env, s.line)->Ok_0;
            let env2 = analyze_stmt_spec(*t, env1)->Ok_0;
            let env3 = analyze_opt_stmt(e, env2)->Ok_0;
            lemma_type_expr_leaves(c, env, s.line, name);
            lemma_analyze_stmt_leaves(*t, env1, name);
            lemma_analyze_opt_stmt_leaves(e, env2, name);
            lemma_left_alone_transitive(env.signatures, env1.signatures, env2.signatures, name);
            lemma_left_alone_transitive(env.signatures, env2.signatures, env3.signatures, name);
        },
        _ => {},
    }
}

proof fn lemma_analyze_while_leaves(s: StmtView, env: Env, name: Name)
    requires
        s.kind is While,
        analyze_while(s, env) is Ok,
        !stmt_calls(s, name),
    ensures
        left_alone(env.signatures, analyze_while(s, env)->Ok_0.signatures, name),
    decreases s, 0nat,
{
    match s.kind {
        StmtKindView::While(c, b) => {
            let env1 = analyze_expression(c, env, s.line)->Ok_0;
            let env2 = analyze_stmt_spec(*b, with_in_loop(env1, true))->Ok_0;
            lemma_type_expr_leaves(c, env, s.line, name);
            lemma_analyze_stmt_leaves(*b, with_in_loop(env1, true), name);
            lemma_left_alone_transitive(env.signatures, env1.signatures, env2.signatures, name);
        },
        _ => {},
    }
}

proof fn lemma_analyze_for_leaves(s: StmtView, env: Env, name: Name)
    requires
        s.kind is For,
        analyze_for(s, env) is Ok,
        !stmt_calls(s, name),
    ensures
        left_alone(env.signatures, analyze_for(s, env)->Ok_0.signatures, name),
    decreases s, 0nat,
{
    match s.kind {
        StmtKindView::For(init, cond, step, body) => {
            let env1 = analyze_opt_stmt(init, push_scope(env))->Ok_0;
            let env2 = analyze_opt_expression(cond, env1, s.line)->Ok_0;
            let env3 = analyze_stmt_spec(*body, with_in_loop(env2, true))->Ok_0;
            let env4 = analyze_opt_stmt(step, env3)->Ok_0;
            lemma_analyze_opt_stmt_leaves(init, push_scope(env), name);
            match cond {
                Some(c) => {
                    lemma_type_expr_leaves(c, env1, s.line, name);
                },
                None => {},
            }
            lemma_analyze_stmt_leaves(*body, with_in_loop(env2, true), name);
            lemma_analyze_opt_stmt_leaves(step, env3, name);
            lemma_left_alone_transitive(env.signatures, env1.signatures, env2.signatures, name);
            lemma_left_alone_transitive(env.signatures, env2.signatures, env3.signatures, name);
            lemma_left_alone_transitive(env.signatures, env3.signatures, env4.signatures, name);
        },
        _ => {},
    }
}

proof fn lemma_analyze_simple_leaves(s: StmtView, env: Env, name: Name)
    requires
        s.kind is Let || s.kind is Const || s.kind is Assign || s.kind is Return || s.kind is Expr,
        analyze_stmt_spec(s, env) is Ok,
        !stmt_calls(s, name),
    ensures
        left_alone(env.signatures, analyze_stmt_spec(s, env)->Ok_0.signatures, name),
{
    match s.kind {
        StmtKindView::Let(_, e) => {
            lemma_type_expr_leaves(e, env, s.line, name);
        },
        StmtKindView::Const(_, e) => {
            lemma_type_expr_leaves(e, env, s.line, name);
        },
        StmtKindView::Assign(_, e) => {
            lemma_type_expr_leaves(e, env, s.line, name);
        },
        StmtKindView::Return(e) => {
            lemma_type_expr_leaves(e, env, s.line, name);
        },
        StmtKindView::Expr(e) => {
            lemma_type_expr_leaves(e, env, s.line, name);
        },
        _ => {},
    }
}

proof fn lemma_analyze_stmt_leaves(s: StmtView, env: Env, name: Name)
    requires
        analyze_stmt_spec(s, env) is Ok,
        !stmt_calls(s, name),
    ensures
        left_alone(env.signatures, analyze_stmt_spec(s, env)->Ok_0.signatures, name),
    decreases s, 1nat,
{
    match s.kind {
        StmtKindView::If(_, _, _) => {
            lemma_analyze_if_leaves(s, env, name);
        },
        StmtKindView::While(_, _) => {
            lemma_analyze_while_leaves(s, env, name);
        },
        StmtKindView::For(_, _, _, _) => {
            lemma_analyze_for_leaves(s, env, name);
        },
        StmtKindView::Block(stmts) => {
            lemma_analyze_stmts_leaves(stmts, push_scope(env), name);
        },
        StmtKindView::Break => {},
        StmtKindView::Continue => {},
        _ => {
            lemma_analyze_simple_leaves(s, env, name);
        },
    }
}

proof fn lemma_analyze_stmts_leaves(ss: Seq<StmtView>, env: Env, name: Name)
    requires
        analyze_stmts_spec(ss, env) is Ok,
        !stmts_call(ss, name),
    ensures
        left_alone(env.signatures, analyze_stmts_spec(ss, env)->Ok_0.signatures, name),
    decreases ss, 2nat,
{
    if ss.len() > 0 {
        let env1 = analyze_stmt_spec(ss[0], env)->Ok_0;
        let env2 = analyze_stmts_spec(ss.drop_first(), env1)->Ok_0;
        lemma_analyze_stmt_leaves(ss[0], env, name);
        lemma_analyze_stmts_leaves(ss.drop_first(), env1, name);
        lemma_left_alone_transitive(env.signatures, env1.signatures, env2.signatures, name);
    }
}

proof fn lemma_analyze_function_keeps(f: FunctionView, i: int, signatures: Seq<SignatureView>)
    requires
        analyze_function_spec(f, i, signatures) is Ok,
    ensures
        keeps_signatures(signatures, analyze_function_spec(f, i, signatures)->Ok_0),
        same_fixed(signatures, analyze_function_spec(f, i, signatures)->Ok_0),
        all_jumps_in_loops(f.body, false),
        forall|k: int|
            0 <= k < signatures.len() && k != i ==> (#[trigger] analyze_function_spec(
                f,
                i,
                signatures,
            )->Ok_0[k]) == signatures[k],
        0 <= i < signatures.len() && !stmts_return(f.body) ==> analyze_function_spec(
            f,
            i,
            signatures,
        )->Ok_0[i].return_type == Some(Type::I),
{
    let env = Env {
        scopes: seq![param_scope(f.params, assumed_types(signatures[i]))],
        signatures,
        in_loop: false,
        in_function: true,
        returned: None,
    };
    let env1 = analyze_stmts_spec(f.body, env)->Ok_0;
    lemma_analyze_stmts_keeps(f.body, env);
    lemma_keeps_signatures_transitive(
        signatures,
        env1.signatures,
        analyze_function_spec(f, i, signatures)->Ok_0,
    );
}

/// Whether function `k` is analyzed in a pass over the functions.
pub open spec fn analyzed_in_pass(signatures: Seq<SignatureView>, k: int, only_fixed: bool) -> bool {
    !only_fixed || signatures[k].param_types is Some
}

proof fn lemma_analyze_functions_keeps(
    fs: Seq<FunctionView>,
    i: int,
    signatures: Seq<SignatureView>,
    only_fixed: bool,
)
    requires
        0 <= i,
        analyze_functions_spec(fs, i, signatures, only_fixed) is Ok,
    ensures
        keeps_signatures(signatures, analyze_functions_spec(fs, i, signatures, only_fixed)->Ok_0),
        same_fixed(signatures, analyze_functions_spec(fs, i, signatures, only_fixed)->Ok_0),
        !only_fixed ==> forall|k: int|
            i <= k < fs.len() && k < signatures.len() ==> all_jumps_in_loops(
                (#[trigger] fs[k]).body,
                false,
            ),
        forall|k: int|
            0 <= k < signatures.len() && !(i <= k < fs.len() && analyzed_in_pass(
                signatures,
                k,
                only_fixed,
            )) ==> (#[trigger] analyze_functions_spec(fs, i, signatures, only_fixed)->Ok_0[k])
                == signatures[k],
        forall|k: int|
            i <= k < fs.len() && k < signatures.len() && analyzed_in_pass(
                signatures,
                k,
                only_fixed,
            ) && !stmts_return(fs[k].body) ==> (#[trigger] analyze_functions_spec(
                fs,
                i,
                signatures,
                only_fixed,
            )->Ok_0[k]).return_type == Some(Type::I),
    decreases fs.len() - i,
{
    if 0 <= i < fs.len() {
        if i < signatures.len() && (!only_fixed || signatures[i].param_types is Some) {
            let sigs = analyze_function_spec(fs[i], i, signatures)->Ok_0;
            let last = analyze_functions_spec(fs, i + 1, sigs, only_fixed)->Ok_0;
            lemma_analyze_function_keeps(fs[i], i, signatures);
            lemma_analyze_functions_keeps(fs, i + 1, sigs, only_fixed);
            lemma_keeps_signatures_transitive(signatures, sigs, last);
            assert forall|k: int|
                0 <= k < signatures.len() && !(i <= k < fs.len() && analyzed_in_pass(
                    signatures,
                    k,
                    only_fixed,
                )) implies (#[trigger] last[k]) == signatures[k] by {
                assert(sigs[k] == signatures[k]);
                assert(sigs[k].param_types == signatures[k].param_types);
            }
            assert forall|k: int|
                i <= k < fs.len() && k < signatures.len() && analyzed_in_pass(
                    signatures,
                    k,
                    only_fixed,
                ) && !stmts_return(fs[k].body) implies (#[trigger] last[k]).return_type == Some(
                Type::I,
            ) by {
                if k == i {
                    assert(last[i] == sigs[i]);
                } else {
                    assert(sigs[k] == signatures[k]);
                }
            }
        } else {
            lemma_analyze_functions_keeps(fs, i + 1, signatures, only_fixed);
        }
    }
}

/// The analysis ends with one signature for each function of the
/// program, in which the parameter types that calls have fixed are one
/// for each parameter.
pub proof fn lemma_final_signatures(p: ProgramView)
    requires
        final_signatures(p) is Ok,
    ensures
        same_functions(initial_signatures(p.functions), final_signatures(p)->Ok_0),
        aligned(final_signatures(p)->Ok_0),
        all_jumps_in_loops(p.top_level, false),
        forall|k: int|
            0 <= k < p.functions.len() ==> all_jumps_in_loops(
                (#[trigger] p.functions[k]).body,
                false,
            ),
{
    let sigs0 = initial_signatures(p.functions);
    let sigs1 = analyze_functions_spec(p.functions, 0, sigs0, false)->Ok_0;
    let env = Env {
        scopes: seq![Seq::empty()],
        signatures: sigs1,
        in_loop: false,
        in_function: false,
        returned: None,
    };
    let env1 = analyze_stmts_spec(p.top_level, env)->Ok_0;
    let sigs3 = analyze_functions_spec(p.functions, 0, env1.signatures, true)->Ok_0;
    lemma_analyze_functions_keeps(p.functions, 0, sigs0, false);
    lemma_analyze_stmts_keeps(p.top_level, env);
    lemma_analyze_functions_keeps(p.functions, 0, env1.signatures, true);
    lemma_keeps_signatures_transitive(sigs0, sigs1, env1.signatures);
    lemma_keeps_signatures_transitive(sigs0, env1.signatures, sigs3);
}

/// The remainder needs two integers: with them it is an integer, and
/// with a float on either side it is a semantic error on the line of the
/// statement.
pub proof fn lemma_remainder_typing(l: ExprView, r: ExprView, env: Env, line: usize)
    requires
        type_expr(l, env, line) is Ok,
        type_expr(r, type_expr(l, env, line)->Ok_0.1, line) is Ok,
    ensures
        ({
            let (tl, env1) = type_expr(l, env, line)->Ok_0;
            let (tr, env2) = type_expr(r, env1, line)->Ok_0;
            let whole = type_expr(ExprView::Binary(Box::new(l), BinOp::Mod, Box::new(r)), env, line);
            &&& tl == Type::I && tr == Type::I ==> whole == Ok::<(Type, Env), CompilerErrorView>(
                (Type::I, env2),
            )
            &&& tl == Type::F || tr == Type::F ==> whole == Err::<(Type, Env), CompilerErrorView>(
                semantic_error(line, "Modulo requires integer operands"@),
            )
        }),
{
}

/// The passes over the functions fix no parameter types: only calls
/// outside of functions do.
pub proof fn lemma_function_passes_fix_nothing(
    fs: Seq<FunctionView>,
    signatures: Seq<SignatureView>,
    only_fixed: bool,
)
    requires
        analyze_functions_spec(fs, 0, signatures, only_fixed) is Ok,
    ensures
        same_fixed(signatures, analyze_functions_spec(fs, 0, signatures, only_fixed)->Ok_0),
{
    lemma_analyze_functions_keeps(fs, 0, signatures, only_fixed);
}

/// The signatures after the first pass over the functions, in which
/// every parameter is an integer.
pub open spec fn first_pass(p: ProgramView) -> Result<Seq<SignatureView>, CompilerErrorView> {
    analyze_functions_spec(p.functions, 0, initial_signatures(p.functions), false)
}

/// A function that no statement outside of functions calls has integer
/// parameters after the analysis, and the return type that the first
/// pass found.
pub proof fn lemma_uncalled_functions_stay_integer(p: ProgramView)
    requires
        analyze_spec(p) is Ok,
    ensures
        first_pass(p) is Ok,
        forall|i: int|
            0 <= i < p.functions.len() && !stmts_call(p.top_level, p.functions[i].name) ==> {
                let g = #[trigger] analyze_spec(p)->Ok_0.functions[i];
                &&& g.param_types == Some(Seq::new(p.functions[i].params.len(), |k: int| Type::I))
                &&& g.return_type == Some(result_type(first_pass(p)->Ok_0[i]))
            },
{
    let sigs0 = initial_signatures(p.functions);
    let sigs1 = analyze_functions_spec(p.functions, 0, sigs0, false)->Ok_0;
    let env = Env {
        scopes: seq![Seq::empty()],
        signatures: sigs1,
        in_loop: false,
        in_function: false,
        returned: None,
    };
    let env1 = analyze_stmts_spec(p.top_level, env)->Ok_0;
    let sigs3 = analyze_functions_spec(p.functions, 0, env1.signatures, true)->Ok_0;
    lemma_analyze_functions_keeps(p.functions, 0, sigs0, false);
    lemma_analyze_stmts_keeps(p.top_level, env);
    lemma_analyze_functions_keeps(p.functions, 0, env1.signatures, true);
    assert forall|i: int|
        0 <= i < p.functions.len() && !stmts_call(p.top_level, p.functions[i].name) implies {
        let g = #[trigger] analyze_spec(p)->Ok_0.functions[i];
        &&& g.param_types == Some(Seq::new(p.functions[i].params.len(), |k: int| Type::I))
        &&& g.return_type == Some(result_type(first_pass(p)->Ok_0[i]))
    } by {
        lemma_analyze_stmts_leaves(p.top_level, env, p.functions[i].name);
        assert(sigs0[i].param_types is None);
        assert(sigs1[i].param_types == sigs0[i].param_types);
        assert(sigs1[i].name == sigs0[i].name);
        assert(env1.signatures[i] == sigs1[i]);
        assert(sigs3[i] == env1.signatures[i]);
    }
}

/// A function without a `return` has the integer type as its return type
/// after the analysis.
pub proof fn lemma_no_return_is_integer(p: ProgramView)
    requires
        analyze_spec(p) is Ok,
    ensures
        forall|i: int|
            0 <= i < p.functions.len() && !stmts_return(p.functions[i].body) ==> (
            #[trigger] analyze_spec(p)->Ok_0.functions[i]).return_type == Some(Type::I),
{
    let sigs0 = initial_signatures(p.functions);
    let sigs1 = analyze_functions_spec(p.functions, 0, sigs0, false)->Ok_0;
    let env = Env {
        scopes: seq![Seq::empty()],
        signatures: sigs1,
        in_loop: false,
        in_function: false,
        returned: None,
    };
    let env1 = analyze_stmts_spec(p.top_level, env)->Ok_0;
    let sigs3 = analyze_functions_spec(p.functions, 0, env1.signatures, true)->Ok_0;
    lemma_analyze_functions_keeps(p.functions, 0, sigs0, false);
    lemma_analyze_stmts_keeps(p.top_level, env);
    lemma_analyze_functions_keeps(p.functions, 0, env1.signatures, true);
    assert forall|i: int|
        0 <= i < p.functions.len() && !stmts_return(p.functions[i].body) implies (
    #[trigger] analyze_spec(p)->Ok_0.functions[i]).return_type == Some(Type::I) by {
        assert(analyzed_in_pass(sigs0, i, false));
        assert(sigs1[i].return_type == Some(Type::I));
        assert(sigs1[i].return_type == env1.signatures[i].return_type);
        if analyzed_in_pass(env1.signatures, i, true) {
            assert(sigs3[i].return_type == Some(Type::I));
        } else {
            assert(sigs3[i] == env1.signatures[i]);
        }
    }
}

/// In a program that passes the analysis every `break` and `continue`
/// stands in a loop.
pub proof fn lemma_analysis_checks_jumps(p: ProgramView)
    requires
        analyze_spec(p) is Ok,
    ensures
        all_jumps_in_loops(p.top_level, false),
        forall|k: int|
            0 <= k < p.functions.len() ==> all_jumps_in_loops(
                (#[trigger] p.functions[k]).body,
                false,
            ),
{
    lemma_final_signatures(p);
}

/// Whether `q` is `p` with types written into its functions: every
/// function has its parameter types set, one for each parameter, and its
/// return type set, and nothing else of the program differs. A function
/// that no statement outside of functions calls has integer parameters and
/// the return type of the first pass; one without a `return` has the
/// integer type as its return type.
pub open spec fn annotated(p: ProgramView, q: ProgramView) -> bool {
    &&& q.top_level == p.top_level
    &&& q.functions.len() == p.functions.len()
    &&& first_pass(p) is Ok
    &&& forall|i: int|
        0 <= i < p.functions.len() ==> {
            let f = p.functions[i];
            let g = #[trigger] q.functions[i];
            &&& g.name == f.name
            &&& g.params == f.params
            &&& g.body == f.body
            &&& g.line == f.line
            &&& g.return_type is Some
            &&& g.param_types is Some
            &&& g.param_types->Some_0.len() == f.params.len()
            &&& !stmts_call(p.top_level, f.name) ==> {
                &&& g.param_types == Some(Seq::new(f.params.len(), |k: int| Type::I))
                &&& g.return_type == Some(result_type(first_pass(p)->Ok_0[i]))
            }
            &&& !stmts_return(f.body) ==> g.return_type == Some(Type::I)
        }
}

/// After the analysis every function has its parameter types set, one
/// for each parameter, and its return type set; nothing else of the
/// program has changed. Only calls outside of functions have fixed
/// parameter types.
pub proof fn lemma_analysis_annotates(p: ProgramView)
    requires
        analyze_spec(p) is Ok,
    ensures
        annotated(p, analyze_spec(p)->Ok_0),
{
    lemma_final_signatures(p);
    lemma_uncalled_functions_stay_integer(p);
    lemma_no_return_is_integer(p);
    let sigs = final_signatures(p)->Ok_0;
    let q = analyze_spec(p)->Ok_0;
    assert forall|i: int| 0 <= i < p.functions.len() implies {
        let f = p.functions[i];
        let g = #[trigger] q.functions[i];
        &&& g.name == f.name
        &&& g.params == f.params
        &&& g.body == f.body
        &&& g.line == f.line
        &&& g.return_type is Some
        &&& g.param_types is Some
        &&& g.param_types->Some_0.len() == f.params.len()
    } by {
        assert(initial_signatures(p.functions)[i].arity == p.functions[i].params.len());
        assert(sigs[i].arity == p.functions[i].params.len());
    }
}

} // verus!
