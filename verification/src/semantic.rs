//! Semantic analysis: names, constants, loops, and the types of functions.
//!
//! The analyzer proves of every step that it follows the rules of
//! [`crate::typing`], and writes the types it finds into the program.

use crate::ast::{
    clone_names, clone_stmts, exprs_view, functions_view, lemma_functions_view_push, names_view,
    stmts_view, Expr, ExprView, Function, Name, Program, ProgramView, Stmt, StmtKind, StmtView,
    Type,
};
use crate::error::{semantic_error, CompilerError, CompilerErrorView};
use crate::text::push_text;
use crate::typing::{
    all_jumps_in_loops, annotated, lemma_analysis_annotates, lemma_analysis_checks_jumps,
    analyze_assignment, analyze_block, analyze_declaration, analyze_expression, analyze_for,
    analyze_function_spec, analyze_functions_spec, analyze_if, analyze_jump, analyze_opt_stmt,
    analyze_return, analyze_spec, analyze_stmt_spec, analyze_stmts_spec, analyze_while,
    annotate_function, annotate_program, apply_call, assumed_types, binary_type, declare,
    find_function, initial_signatures, join, lemma_find_function_in_range, lookup, lookup_scope,
    param_scope, pop_scope, push_scope, quoted, result_type, type_args, type_expr, type_identifier,
    with_in_loop, with_returned, with_signatures, Analyzed, Binding, Env, ScopeView, SignatureView,
    Typed,
};
use vstd::prelude::*;

verus! {

/// What is known of a function while the program is analyzed.
pub struct Signature {
    pub name: String,
    pub arity: usize,
    pub param_types: Option<Vec<Type>>,
    pub return_type: Option<Type>,
}

impl View for Signature {
    type V = SignatureView;

    open spec fn view(&self) -> SignatureView {
        SignatureView {
            name: self.name@,
            arity: self.arity as nat,
            param_types: match self.param_types {
                Some(ts) => Some(ts@),
                None => None,
            },
            return_type: self.return_type,
        }
    }
}

/// The views of a sequence of signatures.
pub open spec fn signatures_view(sigs: Seq<Signature>) -> Seq<SignatureView> {
    Seq::new(sigs.len(), |i: int| sigs[i]@)
}

/// The view of a scope.
pub open spec fn scope_view(scope: Seq<(String, Binding)>) -> ScopeView {
    Seq::new(scope.len(), |i: int| (scope[i].0@, scope[i].1))
}

/// The views of a stack of scopes.
pub open spec fn scopes_view(scopes: Seq<Vec<(String, Binding)>>) -> Seq<ScopeView> {
    Seq::new(scopes.len(), |i: int| scope_view(scopes[i]@))
}

/// Whether `res`, with the analysis left in `env`, is what `spec` gives.
pub open spec fn typed_ok(spec: Typed, res: Result<Type, CompilerError>, env: Env) -> bool {
    match spec {
        Ok((t, e)) => res == Ok::<Type, CompilerError>(t) && env == e,
        Err(e) => res is Err && res->Err_0@ == e,
    }
}

/// Whether `res`, with the analysis left in `env`, is what `spec` gives.
pub open spec fn analyzed_ok(spec: Analyzed, res: Result<(), CompilerError>, env: Env) -> bool {
    match spec {
        Ok(e) => res is Ok && env == e,
        Err(e) => res is Err && res->Err_0@ == e,
    }
}

/// `acc` in front of the types that typing the remaining arguments gives.
pub open spec fn prepend_types(
    acc: Seq<Type>,
    rest: Result<(Seq<Type>, Env), CompilerErrorView>,
) -> Result<(Seq<Type>, Env), CompilerErrorView> {
    match rest {
        Ok((ts, env)) => Ok((acc + ts, env)),
        Err(e) => Err(e),
    }
}

/// Whether `res` is what the rules give for a program, and `program` the
/// program they leave.
pub open spec fn analysis_ok(
    spec: Result<ProgramView, CompilerErrorView>,
    res: Result<(), CompilerError>,
    before: ProgramView,
    after: ProgramView,
) -> bool {
    match spec {
        Ok(p) => res is Ok && after == p,
        Err(e) => res is Err && res->Err_0@ == e && after == before,
    }
}

fn quoted_message(prefix: &str, name: &String) -> (s: String)
    ensures
        s@ == quoted(prefix@, name@),
{
    let mut s = String::new();
    push_text(&mut s, prefix);
    push_text(&mut s, name.as_str());
    push_text(&mut s, "'");
    assert(s@ =~= quoted(prefix@, name@));
    s
}

fn error_about(line: usize, prefix: &str, name: &String) -> (e: CompilerError)
    ensures
        e@ == semantic_error(line, quoted(prefix@, name@)),
{
    CompilerError::semantic(line, quoted_message(prefix, name))
}

fn error_at(line: usize, message: &str) -> (e: CompilerError)
    ensures
        e@ == semantic_error(line, message@),
{
    let mut s = String::new();
    push_text(&mut s, message);
    assert(s@ =~= message@);
    CompilerError::semantic(line, s)
}

fn same_types(a: &Vec<Type>, b: &Vec<Type>) -> (r: bool)
    ensures
        r == (a@ == b@),
{
    if a.len() != b.len() {
        return false;
    }
    let mut i: usize = 0;
    while i < a.len()
        invariant
            i <= a.len(),
            a.len() == b.len(),
            a@.take(i as int) == b@.take(i as int),
        decreases a.len() - i,
    {
        if a[i] != b[i] {
            return false;
        }
        assert(a@.take(i + 1) =~= a@.take(i as int).push(a@[i as int]));
        assert(b@.take(i + 1) =~= b@.take(i as int).push(b@[i as int]));
        i = i + 1;
    }
    assert(a@.take(i as int) =~= a@);
    assert(b@.take(i as int) =~= b@);
    true
}

fn join_types(a: Type, b: Type) -> (t: Type)
    ensures
        t == join(a, b),
{
    if a == Type::F || b == Type::F {
        Type::F
    } else {
        Type::I
    }
}

/// The type of a binary operation; none for the remainder of floats.
pub fn type_of_binary(op: crate::ast::BinOp, l: Type, r: Type) -> (t: Option<Type>)
    ensures
        t == binary_type(op, l, r),
{
    match op {
        crate::ast::BinOp::Mod => if l == Type::I && r == Type::I {
            Some(Type::I)
        } else {
            None
        },
        crate::ast::BinOp::Eq
        | crate::ast::BinOp::Ne
        | crate::ast::BinOp::Lt
        | crate::ast::BinOp::Gt
        | crate::ast::BinOp::Le
        | crate::ast::BinOp::Ge => Some(Type::I),
        _ => Some(join_types(l, r)),
    }
}

fn lookup_in_scope(scope: &Vec<(String, Binding)>, name: &String) -> (r: Option<Binding>)
    ensures
        r == lookup_scope(scope_view(scope@), name@),
{
    let ghost all = scope_view(scope@);
    let mut i: usize = scope.len();
    assert(all.take(i as int) =~= all);
    while i > 0
        invariant
            i <= scope.len(),
            all == scope_view(scope@),
            lookup_scope(all.take(i as int), name@) == lookup_scope(all, name@),
        decreases i,
    {
        i = i - 1;
        assert(all.take(i + 1).drop_last() =~= all.take(i as int));
        assert(all.take(i + 1).last() == all[i as int]);
        if scope[i].0 == *name {
            return Some(scope[i].1);
        }
    }
    None
}

/// The semantic analyzer, with the state of the analysis it is in.
pub struct SemanticAnalyzer {
    variables: Vec<Vec<(String, Binding)>>,
    functions: Vec<Signature>,
    in_loop: bool,
    in_function: bool,
    returned: Option<Type>,
}

impl SemanticAnalyzer {
    /// The state of the analysis that this analyzer holds.
    #[verifier::opaque]
    pub closed spec fn env(&self) -> Env {
        Env {
            scopes: scopes_view(self.variables@),
            signatures: signatures_view(self.functions@),
            in_loop: self.in_loop,
            in_function: self.in_function,
            returned: self.returned,
        }
    }

    /// An analyzer that has seen nothing yet.
    pub fn new() -> (a: Self)
        ensures
            a.env().scopes == seq![Seq::<(Name, Binding)>::empty()],
            a.env().signatures == Seq::<SignatureView>::empty(),
            !a.env().in_loop,
            !a.env().in_function,
            a.env().returned is None,
    {
        let mut variables: Vec<Vec<(String, Binding)>> = Vec::new();
        variables.push(Vec::new());
        let a = SemanticAnalyzer {
            variables,
            functions: Vec::new(),
            in_loop: false,
            in_function: false,
            returned: None,
        };
        proof {
            reveal(SemanticAnalyzer::env);
            assert(a.env().scopes =~= seq![Seq::<(Name, Binding)>::empty()]) by {
                assert(a.env().scopes[0] =~= Seq::<(Name, Binding)>::empty());
            }
            assert(a.env().signatures =~= Seq::<SignatureView>::empty());
        }
        a
    }

    fn enter_scope(&mut self)
        ensures
            final(self).env() == push_scope(old(self).env()),
    {
        proof {
            reveal(SemanticAnalyzer::env);
        }
        self.variables.push(Vec::new());
        proof {
            assert(scope_view(Seq::<(String, Binding)>::empty()) =~= Seq::<
                (Name, Binding),
            >::empty());
            assert(scopes_view(self.variables@) =~= scopes_view(old(self).variables@).push(
                Seq::empty(),
            ));
        }
    }

    fn exit_scope(&mut self)
        ensures
            final(self).env() == pop_scope(old(self).env()),
    {
        proof {
            reveal(SemanticAnalyzer::env);
        }
        if self.variables.len() > 0 {
            self.variables.pop();
            proof {
                assert(scopes_view(self.variables@) =~= scopes_view(
                    old(self).variables@,
                ).drop_last());
            }
        }
    }

    /// The declaration that `name` refers to.
    fn lookup(&self, name: &String) -> (r: Option<Binding>)
        ensures
            r == lookup(self.env().scopes, name@),
    {
        proof {
            reveal(SemanticAnalyzer::env);
        }
        let ghost all = scopes_view(self.variables@);
        let mut i: usize = self.variables.len();
        assert(all.take(i as int) =~= all);
        while i > 0
            invariant
                i <= self.variables.len(),
                all == scopes_view(self.variables@),
                all == self.env().scopes,
                lookup(all.take(i as int), name@) == lookup(all, name@),
            decreases i,
        {
            i = i - 1;
            assert(all.take(i + 1).drop_last() =~= all.take(i as int));
            assert(all.take(i + 1).last() == all[i as int]);
            assert(all[i as int] == scope_view(self.variables@[i as int]@));
            assert(lookup(all.take(i + 1), name@) == match lookup_scope(all[i as int], name@) {
                Some(b) => Some(b),
                None => lookup(all.take(i as int), name@),
            });
            match lookup_in_scope(&self.variables[i], name) {
                Some(b) => {
                    return Some(b);
                },
                None => {},
            }
        }
        None
    }

    /// The index of the last function called `name`.
    fn find_function(&self, name: &String) -> (r: Option<usize>)
        ensures
            match r {
                Some(k) => find_function(self.env().signatures, name@) == Some(k as int) && k
                    < self.env().signatures.len(),
                None => find_function(self.env().signatures, name@) is None,
            },
    {
        proof {
            reveal(SemanticAnalyzer::env);
            lemma_find_function_in_range(signatures_view(self.functions@), name@);
        }
        let ghost all = signatures_view(self.functions@);
        let mut i: usize = self.functions.len();
        assert(all.take(i as int) =~= all);
        while i > 0
            invariant
                i <= self.functions.len(),
                all == signatures_view(self.functions@),
                all == self.env().signatures,
                find_function(all.take(i as int), name@) == find_function(all, name@),
            decreases i,
        {
            i = i - 1;
            assert(all.take(i + 1).drop_last() =~= all.take(i as int));
            assert(all.take(i + 1).last() == all[i as int]);
            assert(all[i as int].name == self.functions@[i as int].name@);
            assert(find_function(all.take(i + 1), name@) == if all[i as int].name == name@ {
                Some(i as int)
            } else {
                find_function(all.take(i as int), name@)
            });
            if self.functions[i].name == *name {
                return Some(i);
            }
        }
        None
    }

    fn declare(&mut self, name: String, binding: Binding)
        ensures
            final(self).env() == declare(old(self).env(), name@, binding),
    {
        proof {
            reveal(SemanticAnalyzer::env);
        }
        let ghost before = scopes_view(self.variables@);
        match self.variables.pop() {
            Some(scope) => {
                let mut scope = scope;
                let ghost inner = scope_view(scope@);
                scope.push((name, binding));
                assert(scope_view(scope@) =~= inner.push((name@, binding)));
                self.variables.push(scope);
                assert(scopes_view(self.variables@) =~= before.update(
                    before.len() - 1,
                    before.last().push((name@, binding)),
                ));
            },
            None => {
                let mut scope: Vec<(String, Binding)> = Vec::new();
                scope.push((name, binding));
                assert(scope_view(scope@) =~= seq![(name@, binding)]);
                self.variables.push(scope);
                assert(scopes_view(self.variables@) =~= seq![seq![(name@, binding)]]);
            },
        }
    }

    fn set_in_loop(&mut self, in_loop: bool)
        ensures
            final(self).env() == with_in_loop(old(self).env(), in_loop),
    {
        proof {
            reveal(SemanticAnalyzer::env);
        }
        self.in_loop = in_loop;
    }

    fn is_in_loop(&self) -> (r: bool)
        ensures
            r == self.env().in_loop,
    {
        proof {
            reveal(SemanticAnalyzer::env);
        }
        self.in_loop
    }

    /// Records the type of a `return`; false if an earlier one differs.
    fn note_return(&mut self, t: Type) -> (agrees: bool)
        ensures
            ({
                let env = old(self).env();
                if !env.in_function {
                    agrees && final(self).env() == env
                } else {
                    match env.returned {
                        None => agrees && final(self).env() == with_returned(env, Some(t)),
                        Some(t0) => agrees == (t0 == t) && final(self).env() == env,
                    }
                }
            }),
    {
        proof {
            reveal(SemanticAnalyzer::env);
        }
        if !self.in_function {
            return true;
        }
        match self.returned {
            None => {
                self.returned = Some(t);
                true
            },
            Some(t0) => t0 == t,
        }
    }

    /// A call of function `j` with arguments of the types `ts`: the type
    /// it yields, unless the types are not those that an earlier call
    /// fixed. Outside of functions the call fixes the types, if none were.
    fn check_or_fix(&mut self, j: usize, ts: Vec<Type>) -> (r: Option<Type>)
        requires
            j < old(self).env().signatures.len(),
        ensures
            ({
                let env = old(self).env();
                let sig = env.signatures[j as int];
                match sig.param_types {
                    None => r == Some(result_type(sig)) && final(self).env() == if env.in_function {
                        env
                    } else {
                        with_signatures(
                            env,
                            env.signatures.update(
                                j as int,
                                SignatureView {
                                    name: sig.name,
                                    arity: sig.arity,
                                    param_types: Some(ts@),
                                    return_type: sig.return_type,
                                },
                            ),
                        )
                    },
                    Some(fixed) => final(self).env() == env && r == if fixed == ts@ {
                        Some(result_type(sig))
                    } else {
                        None
                    },
                }
            }),
    {
        proof {
            reveal(SemanticAnalyzer::env);
        }
        let ghost before = signatures_view(self.functions@);
        let result = match self.functions[j].return_type {
            Some(t) => t,
            None => Type::I,
        };
        let fixed: Option<bool> = match &self.functions[j].param_types {
            Some(fixed) => Some(same_types(fixed, &ts)),
            None => None,
        };
        match fixed {
            Some(true) => Some(result),
            Some(false) => None,
            None => {
                if !self.in_function {
                    let sig = Signature {
                        name: self.functions[j].name.clone(),
                        arity: self.functions[j].arity,
                        param_types: Some(ts),
                        return_type: self.functions[j].return_type,
                    };
                    self.functions.set(j, sig);
                    assert(signatures_view(self.functions@) =~= before.update(j as int, sig@));
                }
                Some(result)
            },
        }
    }

    fn arity_of(&self, j: usize) -> (n: usize)
        requires
            j < self.env().signatures.len(),
        ensures
            n == self.env().signatures[j as int].arity,
    {
        proof {
            reveal(SemanticAnalyzer::env);
        }
        self.functions[j].arity
    }

    fn apply_call(&mut self, name: &String, ts: Vec<Type>, line: usize) -> (res: Result<
        Type,
        CompilerError,
    >)
        ensures
            typed_ok(apply_call(name@, ts@, old(self).env(), line), res, final(self).env()),
    {
        match self.find_function(name) {
            None => Err(error_about(line, "Undefined function '", name)),
            Some(j) => {
                if ts.len() != self.arity_of(j) {
                    return Err(error_about(line, "Wrong number of arguments in call to '", name));
                }
                match self.check_or_fix(j, ts) {
                    Some(t) => Ok(t),
                    None => Err(
                        error_about(line, "Argument types do not match earlier use of '", name),
                    ),
                }
            },
        }
    }

    fn analyze_identifier(&self, name: &String, line: usize) -> (res: Result<Type, CompilerError>)
        ensures
            typed_ok(type_identifier(name@, self.env(), line), res, self.env()),
    {
        match self.lookup(name) {
            Some(b) => Ok(b.ty),
            None => {
                if self.find_function(name).is_some() {
                    Err(error_about(line, "Function used as a value: '", name))
                } else {
                    Err(error_about(line, "Undefined variable '", name))
                }
            },
        }
    }

    /// The types of the arguments of a call, from left to right.
    fn analyze_args(&mut self, args: &Vec<Expr>, line: usize) -> (res: Result<
        Vec<Type>,
        CompilerError,
    >)
        ensures
            match type_args(exprs_view(args@), old(self).env(), line) {
                Ok((ts, env)) => res is Ok && res->Ok_0@ == ts && final(self).env() == env,
                Err(e) => res is Err && res->Err_0@ == e,
            },
        decreases args,
    {
        let ghost all = exprs_view(args@);
        let ghost env0 = self.env();
        let mut types: Vec<Type> = Vec::new();
        let mut i: usize = 0;
        assert(all.skip(0) =~= all);
        assert(prepend_types(types@, type_args(all, env0, line)) == type_args(all, env0, line))
            by {
            match type_args(all, env0, line) {
                Ok((ts, env)) => {
                    assert(types@ + ts =~= ts);
                },
                Err(e) => {},
            }
        }
        while i < args.len()
            invariant
                i <= args.len(),
                all == exprs_view(args@),
                env0 == old(self).env(),
                prepend_types(types@, type_args(all.skip(i as int), self.env(), line))
                    == type_args(all, env0, line),
            decreases args.len() - i,
        {
            let ghost env_before = self.env();
            let ghost acc = types@;
            assert(all.skip(i as int)[0] == args@[i as int]@);
            assert(all.skip(i as int).drop_first() =~= all.skip(i + 1));
            assert(type_args(all.skip(i as int), env_before, line) == match type_expr(
                args@[i as int]@,
                env_before,
                line,
            ) {
                Err(e) => Err(e),
                Ok((t, env1)) => match type_args(all.skip(i + 1), env1, line) {
                    Err(e) => Err(e),
                    Ok((ts, env2)) => Ok((seq![t] + ts, env2)),
                },
            });
            let t = self.analyze_expr(&args[i], line)?;
            types.push(t);
            proof {
                match type_args(all.skip(i + 1), self.env(), line) {
                    Ok((ts, env)) => {
                        assert(acc + (seq![t] + ts) =~= acc.push(t) + ts);
                    },
                    Err(e) => {},
                }
            }
            i = i + 1;
        }
        assert(all.skip(i as int) =~= Seq::<ExprView>::empty());
        assert(types@ + Seq::<Type>::empty() =~= types@);
        Ok(types)
    }

    /// The type of an expression in a statement on `line`.
    pub fn analyze_expr(&mut self, expr: &Expr, line: usize) -> (res: Result<Type, CompilerError>)
        ensures
            typed_ok(type_expr(expr@, old(self).env(), line), res, final(self).env()),
        decreases expr,
    {
        match expr {
            Expr::Number(_) => Ok(Type::I),
            Expr::Float(_) => Ok(Type::F),
            Expr::Identifier(name) => self.analyze_identifier(name, line),
            Expr::Binary(left, op, right) => {
                let tl = self.analyze_expr(left, line)?;
                let tr = self.analyze_expr(right, line)?;
                match type_of_binary(*op, tl, tr) {
                    Some(t) => Ok(t),
                    None => Err(error_at(line, "Modulo requires integer operands")),
                }
            },
            Expr::Unary(op, operand) => {
                let t = self.analyze_expr(operand, line)?;
                match op {
                    crate::ast::UnaryOp::Neg => Ok(t),
                    crate::ast::UnaryOp::Not => Ok(Type::I),
                }
            },
            Expr::Call(name, args) => {
                if self.find_function(name).is_none() {
                    return Err(error_about(line, "Undefined function '", name));
                }
                let ts = self.analyze_args(args, line)?;
                self.apply_call(name, ts, line)
            },
            Expr::Logical(left, _, right) => {
                let tl = self.analyze_expr(left, line)?;
                let tr = self.analyze_expr(right, line)?;
                Ok(join_types(tl, tr))
            },
        }
    }

    fn analyze_declaration(
        &mut self,
        name: &String,
        expr: &Expr,
        is_const: bool,
        line: usize,
    ) -> (res: Result<(), CompilerError>)
        ensures
            analyzed_ok(
                analyze_declaration(name@, expr@, is_const, old(self).env(), line),
                res,
                final(self).env(),
            ),
    {
        let t = self.analyze_expr(expr, line)?;
        self.declare(name.clone(), Binding { is_const, ty: t });
        Ok(())
    }

    fn analyze_assignment(&mut self, name: &String, expr: &Expr, line: usize) -> (res: Result<
        (),
        CompilerError,
    >)
        ensures
            analyzed_ok(
                analyze_assignment(name@, expr@, old(self).env(), line),
                res,
                final(self).env(),
            ),
    {
        match self.lookup(name) {
            None => Err(error_about(line, "Undefined variable '", name)),
            Some(b) => {
                if b.is_const {
                    return Err(error_about(line, "Cannot reassign const variable '", name));
                }
                let t = self.analyze_expr(expr, line)?;
                if t == b.ty {
                    Ok(())
                } else {
                    Err(error_about(line, "Type mismatch in assignment to '", name))
                }
            },
        }
    }

    fn analyze_return(&mut self, expr: &Expr, line: usize) -> (res: Result<(), CompilerError>)
        ensures
            analyzed_ok(analyze_return(expr@, old(self).env(), line), res, final(self).env()),
    {
        let t = self.analyze_expr(expr, line)?;
        if self.note_return(t) {
            Ok(())
        } else {
            Err(error_at(line, "Inconsistent return types"))
        }
    }

    fn analyze_expression(&mut self, expr: &Expr, line: usize) -> (res: Result<(), CompilerError>)
        ensures
            analyzed_ok(analyze_expression(expr@, old(self).env(), line), res, final(self).env()),
    {
        self.analyze_expr(expr, line)?;
        Ok(())
    }

    fn analyze_opt_stmt(&mut self, stmt: &Option<Box<Stmt>>) -> (res: Result<(), CompilerError>)
        ensures
            analyzed_ok(
                analyze_opt_stmt(crate::ast::opt_stmt_view(*stmt), old(self).env()),
                res,
                final(self).env(),
            ),
        decreases stmt, 3nat,
    {
        match stmt {
            Some(b) => self.analyze_stmt(b),
            None => Ok(()),
        }
    }

    fn analyze_if(&mut self, stmt: &Stmt) -> (res: Result<(), CompilerError>)
        requires
            stmt.kind is If,
        ensures
            analyzed_ok(analyze_if(stmt@, old(self).env()), res, final(self).env()),
        decreases stmt, 0nat,
    {
        match &stmt.kind {
            StmtKind::If(cond, then_branch, else_branch) => {
                self.analyze_expression(cond, stmt.line)?;
                self.analyze_stmt(then_branch)?;
                self.analyze_opt_stmt(else_branch)
            },
            _ => Ok(()),
        }
    }

    fn analyze_while(&mut self, stmt: &Stmt) -> (res: Result<(), CompilerError>)
        requires
            stmt.kind is While,
        ensures
            analyzed_ok(analyze_while(stmt@, old(self).env()), res, final(self).env()),
        decreases stmt, 0nat,
    {
        match &stmt.kind {
            StmtKind::While(cond, body) => {
                let outer = self.is_in_loop();
                self.analyze_expression(cond, stmt.line)?;
                self.set_in_loop(true);
                self.analyze_stmt(body)?;
                self.set_in_loop(outer);
                Ok(())
            },
            _ => Ok(()),
        }
    }

    fn analyze_for(&mut self, stmt: &Stmt) -> (res: Result<(), CompilerError>)
        requires
            stmt.kind is For,
        ensures
            analyzed_ok(analyze_for(stmt@, old(self).env()), res, final(self).env()),
        decreases stmt, 0nat,
    {
        match &stmt.kind {
            StmtKind::For(init, cond, step, body) => {
                let outer = self.is_in_loop();
                self.enter_scope();
                self.analyze_opt_stmt(init)?;
                match cond {
                    Some(c) => {
                        self.analyze_expression(c, stmt.line)?;
                    },
                    None => {},
                }
                self.set_in_loop(true);
                self.analyze_stmt(body)?;
                self.analyze_opt_stmt(step)?;
                self.set_in_loop(outer);
                self.exit_scope();
                Ok(())
            },
            _ => Ok(()),
        }
    }

    fn analyze_block(&mut self, stmt: &Stmt) -> (res: Result<(), CompilerError>)
        requires
            stmt.kind is Block,
        ensures
            analyzed_ok(analyze_block(stmt@, old(self).env()), res, final(self).env()),
        decreases stmt, 0nat,
    {
        match &stmt.kind {
            StmtKind::Block(stmts) => {
                self.enter_scope();
                self.analyze_stmts(stmts)?;
                self.exit_scope();
                Ok(())
            },
            _ => Ok(()),
        }
    }

    fn analyze_jump(&self, message: &str, line: usize) -> (res: Result<(), CompilerError>)
        ensures
            analyzed_ok(
                analyze_jump(self.env().in_loop, message@, self.env(), line),
                res,
                self.env(),
            ),
    {
        if self.is_in_loop() {
            Ok(())
        } else {
            Err(error_at(line, message))
        }
    }

    /// Checks a statement, in the state that the analyzer is in.
    pub fn analyze_stmt(&mut self, stmt: &Stmt) -> (res: Result<(), CompilerError>)
        ensures
            analyzed_ok(analyze_stmt_spec(stmt@, old(self).env()), res, final(self).env()),
        decreases stmt, 1nat,
    {
        match &stmt.kind {
            StmtKind::Let(name, expr) => self.analyze_declaration(name, expr, false, stmt.line),
            StmtKind::Const(name, expr) => self.analyze_declaration(name, expr, true, stmt.line),
            StmtKind::Assign(name, expr) => self.analyze_assignment(name, expr, stmt.line),
            StmtKind::If(_, _, _) => self.analyze_if(stmt),
            StmtKind::While(_, _) => self.analyze_while(stmt),
            StmtKind::For(_, _, _, _) => self.analyze_for(stmt),
            StmtKind::Block(_) => self.analyze_block(stmt),
            StmtKind::Return(expr) => self.analyze_return(expr, stmt.line),
            StmtKind::Break => self.analyze_jump("Break statement outside of loop", stmt.line),
            StmtKind::Continue => self.analyze_jump(
                "Continue statement outside of loop",
                stmt.line,
            ),
            StmtKind::Expr(expr) => self.analyze_expression(expr, stmt.line),
        }
    }

    fn analyze_stmts(&mut self, stmts: &Vec<Stmt>) -> (res: Result<(), CompilerError>)
        ensures
            analyzed_ok(
                analyze_stmts_spec(stmts_view(stmts@), old(self).env()),
                res,
                final(self).env(),
            ),
        decreases stmts, 2nat,
    {
        let ghost all = stmts_view(stmts@);
        let ghost env0 = self.env();
        let mut i: usize = 0;
        assert(all.skip(0) =~= all);
        while i < stmts.len()
            invariant
                i <= stmts.len(),
                all == stmts_view(stmts@),
                env0 == old(self).env(),
                analyze_stmts_spec(all.skip(i as int), self.env()) == analyze_stmts_spec(
                    all,
                    env0,
                ),
            decreases stmts.len() - i,
        {
            assert(all.skip(i as int)[0] == stmts@[i as int]@);
            assert(all.skip(i as int).drop_first() =~= all.skip(i + 1));
            assert(analyze_stmts_spec(all.skip(i as int), self.env()) == match analyze_stmt_spec(
                stmts@[i as int]@,
                self.env(),
            ) {
                Err(e) => Err(e),
                Ok(env1) => analyze_stmts_spec(all.skip(i + 1), env1),
            });
            self.analyze_stmt(&stmts[i])?;
            i = i + 1;
        }
        assert(all.skip(i as int) =~= Seq::<StmtView>::empty());
        Ok(())
    }

    /// Forgets the functions of any earlier program and takes up those of
    /// this one, with nothing known of their types.
    fn register(&mut self, functions: &Vec<Function>)
        ensures
            final(self).env().signatures == initial_signatures(functions_view(functions@)),
    {
        proof {
            reveal(SemanticAnalyzer::env);
        }
        let ghost want = initial_signatures(functions_view(functions@));
        let mut sigs: Vec<Signature> = Vec::new();
        let mut i: usize = 0;
        while i < functions.len()
            invariant
                i <= functions.len(),
                want == initial_signatures(functions_view(functions@)),
                signatures_view(sigs@) =~= want.take(i as int),
            decreases functions.len() - i,
        {
            let sig = Signature {
                name: functions[i].name.clone(),
                arity: functions[i].params.len(),
                param_types: None,
                return_type: None,
            };
            proof {
                assert(sig@ == want[i as int]) by {
                    assert(names_view(functions@[i as int].params@).len()
                        == functions@[i as int].params@.len());
                }
                assert(signatures_view(sigs@.push(sig)) =~= signatures_view(sigs@).push(sig@));
                assert(want.take(i + 1) =~= want.take(i as int).push(want[i as int]));
            }
            sigs.push(sig);
            i = i + 1;
        }
        assert(want.take(i as int) =~= want);
        self.functions = sigs;
    }

    /// Makes ready for the statements outside of any function.
    fn begin_top_level(&mut self)
        ensures
            final(self).env() == (Env {
                scopes: seq![Seq::empty()],
                signatures: old(self).env().signatures,
                in_loop: false,
                in_function: false,
                returned: None,
            }),
    {
        proof {
            reveal(SemanticAnalyzer::env);
        }
        let mut variables: Vec<Vec<(String, Binding)>> = Vec::new();
        variables.push(Vec::new());
        self.variables = variables;
        self.in_loop = false;
        self.in_function = false;
        self.returned = None;
        proof {
            assert(scopes_view(self.variables@) =~= seq![Seq::<(Name, Binding)>::empty()]) by {
                assert(scopes_view(self.variables@)[0] =~= Seq::<(Name, Binding)>::empty());
            }
        }
    }

    /// Makes ready for the body of function `i`: its parameters are in
    /// scope, with the types assumed for them.
    fn begin_function(&mut self, f: &Function, i: usize)
        requires
            i < old(self).env().signatures.len(),
        ensures
            final(self).env() == (Env {
                scopes: seq![
                    param_scope(f@.params, assumed_types(old(self).env().signatures[i as int])),
                ],
                signatures: old(self).env().signatures,
                in_loop: false,
                in_function: true,
                returned: None,
            }),
    {
        proof {
            reveal(SemanticAnalyzer::env);
        }
        let ghost want = param_scope(
            f@.params,
            assumed_types(signatures_view(self.functions@)[i as int]),
        );
        let mut scope: Vec<(String, Binding)> = Vec::new();
        let mut k: usize = 0;
        while k < f.params.len()
            invariant
                k <= f.params.len(),
                i < self.functions.len(),
                want == param_scope(
                    f@.params,
                    assumed_types(signatures_view(self.functions@)[i as int]),
                ),
                scope_view(scope@) =~= want.take(k as int),
            decreases f.params.len() - k,
        {
            let ty = match &self.functions[i].param_types {
                Some(ts) => if k < ts.len() {
                    ts[k]
                } else {
                    Type::I
                },
                None => Type::I,
            };
            let entry = (f.params[k].clone(), Binding { is_const: false, ty });
            proof {
                assert(want[k as int] == (entry.0@, entry.1));
                assert(scope_view(scope@.push(entry)) =~= scope_view(scope@).push(
                    (entry.0@, entry.1),
                ));
                assert(want.take(k + 1) =~= want.take(k as int).push(want[k as int]));
            }
            scope.push(entry);
            k = k + 1;
        }
        assert(want.take(k as int) =~= want);
        let mut variables: Vec<Vec<(String, Binding)>> = Vec::new();
        variables.push(scope);
        self.variables = variables;
        self.in_loop = false;
        self.in_function = true;
        self.returned = None;
        proof {
            assert(scopes_view(self.variables@) =~= seq![want]);
        }
    }

    /// Records the return type of function `i`: the type of the `return`
    /// statements met, or the integer type if there were none.
    fn finish_function(&mut self, i: usize)
        ensures
            ({
                let env = old(self).env();
                final(self).env().signatures == if i < env.signatures.len() {
                    let sig = env.signatures[i as int];
                    env.signatures.update(
                        i as int,
                        SignatureView {
                            name: sig.name,
                            arity: sig.arity,
                            param_types: sig.param_types,
                            return_type: Some(
                                match env.returned {
                                    Some(t) => t,
                                    None => Type::I,
                                },
                            ),
                        },
                    )
                } else {
                    env.signatures
                }
            }),
    {
        proof {
            reveal(SemanticAnalyzer::env);
        }
        if i < self.functions.len() {
            let ghost before = signatures_view(self.functions@);
            let returned = match self.returned {
                Some(t) => t,
                None => Type::I,
            };
            let param_types = match &self.functions[i].param_types {
                Some(ts) => Some(ts.clone()),
                None => None,
            };
            let sig = Signature {
                name: self.functions[i].name.clone(),
                arity: self.functions[i].arity,
                param_types,
                return_type: Some(returned),
            };
            self.functions.set(i, sig);
            assert(signatures_view(self.functions@) =~= before.update(i as int, sig@));
        }
    }

    fn analyze_function(&mut self, f: &Function, i: usize) -> (res: Result<(), CompilerError>)
        requires
            i < old(self).env().signatures.len(),
        ensures
            match analyze_function_spec(f@, i as int, old(self).env().signatures) {
                Ok(sigs) => res is Ok && final(self).env().signatures == sigs,
                Err(e) => res is Err && res->Err_0@ == e,
            },
    {
        self.begin_function(f, i);
        self.analyze_stmts(&f.body)?;
        self.finish_function(i);
        Ok(())
    }

    fn count(&self) -> (n: usize)
        ensures
            n == self.env().signatures.len(),
    {
        proof {
            reveal(SemanticAnalyzer::env);
        }
        self.functions.len()
    }

    /// Whether a call has fixed the parameter types of function `i`.
    fn is_fixed(&self, i: usize) -> (r: bool)
        requires
            i < self.env().signatures.len(),
        ensures
            r == (self.env().signatures[i as int].param_types is Some),
    {
        proof {
            reveal(SemanticAnalyzer::env);
        }
        self.functions[i].param_types.is_some()
    }

    /// Analyzes every function in turn; with `only_fixed`, those whose
    /// parameter types a call has fixed.
    fn analyze_functions(&mut self, functions: &Vec<Function>, only_fixed: bool) -> (res: Result<
        (),
        CompilerError,
    >)
        ensures
            match analyze_functions_spec(
                functions_view(functions@),
                0,
                old(self).env().signatures,
                only_fixed,
            ) {
                Ok(sigs) => res is Ok && final(self).env().signatures == sigs,
                Err(e) => res is Err && res->Err_0@ == e,
            },
    {
        let ghost all = functions_view(functions@);
        let ghost sigs0 = self.env().signatures;
        let mut i: usize = 0;
        while i < functions.len()
            invariant
                i <= functions.len(),
                all == functions_view(functions@),
                sigs0 == old(self).env().signatures,
                analyze_functions_spec(all, i as int, self.env().signatures, only_fixed)
                    == analyze_functions_spec(all, 0, sigs0, only_fixed),
            decreases functions.len() - i,
        {
            assert(all[i as int] == functions@[i as int]@);
            if i < self.count() && (!only_fixed || self.is_fixed(i)) {
                self.analyze_function(&functions[i], i)?;
            }
            i = i + 1;
        }
        Ok(())
    }

    /// The types that the analysis found for function `i`.
    fn annotated(&self, f: &Function, i: usize) -> (r: Function)
        requires
            i < self.env().signatures.len(),
        ensures
            r@ == annotate_function(f@, self.env().signatures[i as int]),
    {
        proof {
            reveal(SemanticAnalyzer::env);
        }
        let param_types: Vec<Type> = match &self.functions[i].param_types {
            Some(ts) => ts.clone(),
            None => {
                let mut ts: Vec<Type> = Vec::new();
                let mut k: usize = 0;
                while k < f.params.len()
                    invariant
                        k <= f.params.len(),
                        ts@ =~= Seq::new(k as nat, |j: int| Type::I),
                    decreases f.params.len() - k,
                {
                    ts.push(Type::I);
                    k = k + 1;
                }
                assert(names_view(f.params@).len() == f.params@.len());
                ts
            },
        };
        let return_type = match self.functions[i].return_type {
            Some(t) => t,
            None => Type::I,
        };
        Function {
            name: f.name.clone(),
            params: clone_names(&f.params),
            param_types: Some(param_types),
            return_type: Some(return_type),
            body: clone_stmts(&f.body),
            line: f.line,
        }
    }

    /// Writes the types that the analysis found into the functions.
    fn annotate(&self, program: &mut Program)
        ensures
            final(program)@ == annotate_program(old(program)@, self.env().signatures),
    {
        let ghost want = annotate_program(program@, self.env().signatures).functions;
        let mut functions: Vec<Function> = Vec::new();
        let mut i: usize = 0;
        while i < program.functions.len()
            invariant
                i <= program.functions.len(),
                *program == *old(program),
                want == annotate_program(program@, self.env().signatures).functions,
                functions_view(functions@) =~= want.take(i as int),
            decreases program.functions.len() - i,
        {
            let f = if i < self.count() {
                self.annotated(&program.functions[i], i)
            } else {
                program.functions[i].clone()
            };
            proof {
                assert(f@ == want[i as int]);
                lemma_functions_view_push(functions@, f);
            }
            functions.push(f);
            i = i + 1;
        }
        assert(want.take(i as int) =~= want);
        program.functions = functions;
    }

    /// Checks the program against the rules of names and types, and fills
    /// in the parameter and return types of its functions. On an error the
    /// program is left as it was.
    pub fn analyze(&mut self, program: &mut Program) -> (res: Result<(), CompilerError>)
        ensures
            analysis_ok(analyze_spec(old(program)@), res, old(program)@, final(program)@),
            res is Ok ==> annotated(old(program)@, final(program)@),
            res is Ok ==> all_jumps_in_loops(final(program)@.top_level, false),
            res is Ok ==> forall|k: int|
                0 <= k < final(program)@.functions.len() ==> all_jumps_in_loops(
                    (#[trigger] final(program)@.functions[k]).body,
                    false,
                ),
    {
        proof {
            if analyze_spec(program@) is Ok {
                lemma_analysis_annotates(program@);
                lemma_analysis_checks_jumps(program@);
            }
        }
        self.register(&program.functions);
        self.analyze_functions(&program.functions, false)?;
        self.begin_top_level();
        self.analyze_stmts(&program.top_level)?;
        self.analyze_functions(&program.functions, true)?;
        self.annotate(program);
        Ok(())
    }
}

} // verus!
