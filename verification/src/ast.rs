//! Syntax trees of the source language, and their mathematical views.
//!
//! Executable trees own their children in `Box`, `Vec` and `String`. Every
//! contract in this crate is stated over the corresponding *view*: the same
//! tree with `Seq` in place of `Vec` and `Seq<char>` in place of `String`.

use vstd::prelude::*;

verus! {

/// The two numeric types of the language.
#[derive(Debug, Clone, Copy, PartialEq, Eq, Structural)]
pub enum Type {
    /// 32-bit signed integer.
    I,
    /// 32-bit IEEE 754 binary floating point number.
    F,
}

/// A 32-bit IEEE 754 value, held as its bit pattern.
#[derive(Debug, Clone, Copy, PartialEq, Eq, Structural)]
pub struct Float {
    pub bits: u32,
}

/// The binary operators: arithmetic first, then the comparisons.
#[derive(Debug, Clone, Copy, PartialEq, Eq, Structural)]
pub enum BinOp {
    Add,
    Sub,
    Mul,
    Div,
    Mod,
    Eq,
    Ne,
    Lt,
    Gt,
    Le,
    Ge,
}

/// The prefix operators.
#[derive(Debug, Clone, Copy, PartialEq, Eq, Structural)]
pub enum UnaryOp {
    Neg,
    Not,
}

/// Short-circuit operators. They yield one of their operands, not a boolean.
#[derive(Debug, Clone, Copy, PartialEq, Eq, Structural)]
pub enum LogicalOp {
    And,
    Or,
}

/// An expression.
#[derive(Debug, PartialEq)]
pub enum Expr {
    Number(i32),
    Float(Float),
    Identifier(String),
    Binary(Box<Expr>, BinOp, Box<Expr>),
    Unary(UnaryOp, Box<Expr>),
    Call(String, Vec<Expr>),
    Logical(Box<Expr>, LogicalOp, Box<Expr>),
}

/// A statement, with the line on which it starts.
#[derive(Debug, PartialEq)]
pub struct Stmt {
    pub kind: StmtKind,
    pub line: usize,
}

/// What a statement does.
#[derive(Debug, PartialEq)]
pub enum StmtKind {
    Let(String, Expr),
    Const(String, Expr),
    Assign(String, Expr),
    If(Expr, Box<Stmt>, Option<Box<Stmt>>),
    While(Expr, Box<Stmt>),
    /// `for (init; cond; step) body`, each of the three clauses optional.
    For(Option<Box<Stmt>>, Option<Expr>, Option<Box<Stmt>>, Box<Stmt>),
    Block(Vec<Stmt>),
    Return(Expr),
    Break,
    Continue,
    Expr(Expr),
}

/// A function definition.
#[derive(Debug, PartialEq)]
pub struct Function {
    pub name: String,
    pub params: Vec<String>,
    /// Filled in by semantic analysis, one entry per parameter.
    pub param_types: Option<Vec<Type>>,
    /// Filled in by semantic analysis.
    pub return_type: Option<Type>,
    pub body: Vec<Stmt>,
    pub line: usize,
}

/// A program: its functions, and the statements outside of them, each
/// in source order.
#[derive(Debug, PartialEq)]
pub struct Program {
    pub functions: Vec<Function>,
    pub top_level: Vec<Stmt>,
}

/// A name as contracts see it.
pub type Name = Seq<char>;

/// An expression as contracts see it.
pub enum ExprView {
    Number(i32),
    Float(Float),
    Identifier(Name),
    Binary(Box<ExprView>, BinOp, Box<ExprView>),
    Unary(UnaryOp, Box<ExprView>),
    Call(Name, Seq<ExprView>),
    Logical(Box<ExprView>, LogicalOp, Box<ExprView>),
}

/// A statement as contracts see it.
pub struct StmtView {
    pub kind: StmtKindView,
    pub line: usize,
}

/// What a statement does, as contracts see it.
pub enum StmtKindView {
    Let(Name, ExprView),
    Const(Name, ExprView),
    Assign(Name, ExprView),
    If(ExprView, Box<StmtView>, Option<Box<StmtView>>),
    While(ExprView, Box<StmtView>),
    For(Option<Box<StmtView>>, Option<ExprView>, Option<Box<StmtView>>, Box<StmtView>),
    Block(Seq<StmtView>),
    Return(ExprView),
    Break,
    Continue,
    Expr(ExprView),
}

/// A function definition as contracts see it.
pub struct FunctionView {
    pub name: Name,
    pub params: Seq<Name>,
    pub param_types: Option<Seq<Type>>,
    pub return_type: Option<Type>,
    pub body: Seq<StmtView>,
    pub line: usize,
}

/// A program as contracts see it.
pub struct ProgramView {
    pub functions: Seq<FunctionView>,
    pub top_level: Seq<StmtView>,
}

/// The view of an expression: the same tree over sequences.
pub open spec fn expr_view(e: Expr) -> ExprView
    decreases e,
{
    match e {
        Expr::Number(n) => ExprView::Number(n),
        Expr::Float(x) => ExprView::Float(x),
        Expr::Identifier(name) => ExprView::Identifier(name@),
        Expr::Binary(l, op, r) => ExprView::Binary(
            Box::new(expr_view(*l)),
            op,
            Box::new(expr_view(*r)),
        ),
        Expr::Unary(op, x) => ExprView::Unary(op, Box::new(expr_view(*x))),
        Expr::Call(name, args) => ExprView::Call(name@, exprs_view(args@)),
        Expr::Logical(l, op, r) => ExprView::Logical(
            Box::new(expr_view(*l)),
            op,
            Box::new(expr_view(*r)),
        ),
    }
}

/// The views of a sequence of expressions, element by element.
pub open spec fn exprs_view(es: Seq<Expr>) -> Seq<ExprView>
    decreases es,
{
    Seq::new(
        es.len(),
        |i: int|
            if 0 <= i < es.len() {
                expr_view(es[i])
            } else {
                ExprView::Number(0)
            },
    )
}

/// The view of a statement.
pub open spec fn stmt_view(s: Stmt) -> StmtView
    decreases s,
{
    StmtView { kind: stmt_kind_view(s.kind), line: s.line }
}

/// The view of what a statement does.
pub open spec fn stmt_kind_view(k: StmtKind) -> StmtKindView
    decreases k,
{
    match k {
        StmtKind::Let(name, e) => StmtKindView::Let(name@, expr_view(e)),
        StmtKind::Const(name, e) => StmtKindView::Const(name@, expr_view(e)),
        StmtKind::Assign(name, e) => StmtKindView::Assign(name@, expr_view(e)),
        StmtKind::If(c, t, e) => StmtKindView::If(
            expr_view(c),
            Box::new(stmt_view(*t)),
            match e {
                Some(b) => Some(Box::new(stmt_view(*b))),
                None => None,
            },
        ),
        StmtKind::While(c, b) => StmtKindView::While(expr_view(c), Box::new(stmt_view(*b))),
        StmtKind::For(init, cond, step, body) => StmtKindView::For(
            match init {
                Some(b) => Some(Box::new(stmt_view(*b))),
                None => None,
            },
            match cond {
                Some(c) => Some(expr_view(c)),
                None => None,
            },
            match step {
                Some(b) => Some(Box::new(stmt_view(*b))),
                None => None,
            },
            Box::new(stmt_view(*body)),
        ),
        StmtKind::Block(stmts) => StmtKindView::Block(stmts_view(stmts@)),
        StmtKind::Return(e) => StmtKindView::Return(expr_view(e)),
        StmtKind::Break => StmtKindView::Break,
        StmtKind::Continue => StmtKindView::Continue,
        StmtKind::Expr(e) => StmtKindView::Expr(expr_view(e)),
    }
}

/// The views of a sequence of statements, element by element.
pub open spec fn stmts_view(ss: Seq<Stmt>) -> Seq<StmtView>
    decreases ss,
{
    Seq::new(
        ss.len(),
        |i: int|
            if 0 <= i < ss.len() {
                stmt_view(ss[i])
            } else {
                StmtView { kind: StmtKindView::Break, line: 0 }
            },
    )
}

/// The view of a statement that may be absent.
pub open spec fn opt_stmt_view(s: Option<Box<Stmt>>) -> Option<Box<StmtView>> {
    match s {
        Some(b) => Some(Box::new(stmt_view(*b))),
        None => None,
    }
}

/// The view of an expression that may be absent.
pub open spec fn opt_expr_view(e: Option<Expr>) -> Option<ExprView> {
    match e {
        Some(x) => Some(expr_view(x)),
        None => None,
    }
}

/// The views of a sequence of names.
pub open spec fn names_view(names: Seq<String>) -> Seq<Name> {
    Seq::new(names.len(), |i: int| names[i]@)
}

/// The view of a function definition.
pub open spec fn function_view(f: Function) -> FunctionView {
    FunctionView {
        name: f.name@,
        params: names_view(f.params@),
        param_types: match f.param_types {
            Some(ts) => Some(ts@),
            None => None,
        },
        return_type: f.return_type,
        body: stmts_view(f.body@),
        line: f.line,
    }
}

/// The views of a sequence of function definitions.
pub open spec fn functions_view(fs: Seq<Function>) -> Seq<FunctionView> {
    Seq::new(fs.len(), |i: int| function_view(fs[i]))
}

impl View for Expr {
    type V = ExprView;

    open spec fn view(&self) -> ExprView {
        expr_view(*self)
    }
}

impl View for Stmt {
    type V = StmtView;

    open spec fn view(&self) -> StmtView {
        stmt_view(*self)
    }
}

impl View for Function {
    type V = FunctionView;

    open spec fn view(&self) -> FunctionView {
        function_view(*self)
    }
}

impl View for Program {
    type V = ProgramView;

    open spec fn view(&self) -> ProgramView {
        ProgramView {
            functions: functions_view(self.functions@),
            top_level: stmts_view(self.top_level@),
        }
    }
}

/// Pushing an expression extends the view by its view.
pub proof fn lemma_exprs_view_push(es: Seq<Expr>, e: Expr)
    ensures
        exprs_view(es.push(e)) == exprs_view(es).push(expr_view(e)),
{
    assert(exprs_view(es.push(e)) =~= exprs_view(es).push(expr_view(e)));
}

/// Pushing a statement extends the view by its view.
pub proof fn lemma_stmts_view_push(ss: Seq<Stmt>, s: Stmt)
    ensures
        stmts_view(ss.push(s)) == stmts_view(ss).push(stmt_view(s)),
{
    assert(stmts_view(ss.push(s)) =~= stmts_view(ss).push(stmt_view(s)));
}

/// Pushing a name extends the view by its view.
pub proof fn lemma_names_view_push(ns: Seq<String>, n: String)
    ensures
        names_view(ns.push(n)) == names_view(ns).push(n@),
{
    assert(names_view(ns.push(n)) =~= names_view(ns).push(n@));
}

/// Pushing a function extends the view by its view.
pub proof fn lemma_functions_view_push(fs: Seq<Function>, f: Function)
    ensures
        functions_view(fs.push(f)) == functions_view(fs).push(function_view(f)),
{
    assert(functions_view(fs.push(f)) =~= functions_view(fs).push(function_view(f)));
}


/// A deep copy of an expression.
pub fn clone_expr(e: &Expr) -> (r: Expr)
    ensures
        r@ == e@,
    decreases e,
{
    match e {
        Expr::Number(n) => Expr::Number(*n),
        Expr::Float(x) => Expr::Float(*x),
        Expr::Identifier(name) => Expr::Identifier(name.clone()),
        Expr::Binary(l, op, r) => Expr::Binary(
            Box::new(clone_expr(l)),
            *op,
            Box::new(clone_expr(r)),
        ),
        Expr::Unary(op, x) => Expr::Unary(*op, Box::new(clone_expr(x))),
        Expr::Call(name, args) => {
            let mut out: Vec<Expr> = Vec::new();
            let mut i: usize = 0;
            while i < args.len()
                invariant
                    i <= args.len(),
                    exprs_view(out@) == exprs_view(args@).take(i as int),
                    e matches Expr::Call(_, a) && a == args,
                decreases args.len() - i,
            {
                let c = clone_expr(&args[i]);
                proof {
                    lemma_exprs_view_push(out@, c);
                    assert(exprs_view(args@).take(i + 1) =~= exprs_view(args@).take(i as int).push(
                        expr_view(args@[i as int]),
                    ));
                }
                out.push(c);
                i = i + 1;
            }
            assert(exprs_view(args@).take(i as int) =~= exprs_view(args@));
            Expr::Call(name.clone(), out)
        },
        Expr::Logical(l, op, r) => Expr::Logical(
            Box::new(clone_expr(l)),
            *op,
            Box::new(clone_expr(r)),
        ),
    }
}

/// A deep copy of a statement.
pub fn clone_stmt(s: &Stmt) -> (r: Stmt)
    ensures
        r@ == s@,
    decreases s,
{
    Stmt { kind: clone_stmt_kind(&s.kind), line: s.line }
}

/// A deep copy of what a statement does, without its line.
pub fn clone_stmt_kind(k: &StmtKind) -> (r: StmtKind)
    ensures
        stmt_kind_view(r) == stmt_kind_view(*k),
    decreases k,
{
    match k {
        StmtKind::Let(name, e) => StmtKind::Let(name.clone(), clone_expr(e)),
        StmtKind::Const(name, e) => StmtKind::Const(name.clone(), clone_expr(e)),
        StmtKind::Assign(name, e) => StmtKind::Assign(name.clone(), clone_expr(e)),
        StmtKind::If(c, t, e) => {
            let els = match e {
                Some(b) => Some(Box::new(clone_stmt(b))),
                None => None,
            };
            StmtKind::If(clone_expr(c), Box::new(clone_stmt(t)), els)
        },
        StmtKind::While(c, b) => StmtKind::While(clone_expr(c), Box::new(clone_stmt(b))),
        StmtKind::For(init, cond, step, body) => {
            let init2 = match init {
                Some(b) => Some(Box::new(clone_stmt(b))),
                None => None,
            };
            let cond2 = match cond {
                Some(c) => Some(clone_expr(c)),
                None => None,
            };
            let step2 = match step {
                Some(b) => Some(Box::new(clone_stmt(b))),
                None => None,
            };
            StmtKind::For(init2, cond2, step2, Box::new(clone_stmt(body)))
        },
        StmtKind::Block(stmts) => {
            let mut out: Vec<Stmt> = Vec::new();
            let mut i: usize = 0;
            while i < stmts.len()
                invariant
                    i <= stmts.len(),
                    stmts_view(out@) == stmts_view(stmts@).take(i as int),
                    k matches StmtKind::Block(a) && a == stmts,
                decreases stmts.len() - i,
            {
                let c = clone_stmt(&stmts[i]);
                proof {
                    lemma_stmts_view_push(out@, c);
                    assert(stmts_view(stmts@).take(i + 1) =~= stmts_view(stmts@).take(
                        i as int,
                    ).push(stmt_view(stmts@[i as int])));
                }
                out.push(c);
                i = i + 1;
            }
            assert(stmts_view(stmts@).take(i as int) =~= stmts_view(stmts@));
            StmtKind::Block(out)
        },
        StmtKind::Return(e) => StmtKind::Return(clone_expr(e)),
        StmtKind::Break => StmtKind::Break,
        StmtKind::Continue => StmtKind::Continue,
        StmtKind::Expr(e) => StmtKind::Expr(clone_expr(e)),
    }
}

/// A deep copy of a statement list.
pub fn clone_stmts(stmts: &Vec<Stmt>) -> (out: Vec<Stmt>)
    ensures
        stmts_view(out@) == stmts_view(stmts@),
{
    let mut out: Vec<Stmt> = Vec::new();
    let mut i: usize = 0;
    while i < stmts.len()
        invariant
            i <= stmts.len(),
            stmts_view(out@) == stmts_view(stmts@).take(i as int),
        decreases stmts.len() - i,
    {
        let c = clone_stmt(&stmts[i]);
        proof {
            lemma_stmts_view_push(out@, c);
            assert(stmts_view(stmts@).take(i + 1) =~= stmts_view(stmts@).take(i as int).push(
                stmt_view(stmts@[i as int]),
            ));
        }
        out.push(c);
        i = i + 1;
    }
    assert(stmts_view(stmts@).take(i as int) =~= stmts_view(stmts@));
    out
}

/// A copy of a list of names.
pub fn clone_names(names: &Vec<String>) -> (out: Vec<String>)
    ensures
        names_view(out@) == names_view(names@),
{
    let mut out: Vec<String> = Vec::new();
    let mut i: usize = 0;
    while i < names.len()
        invariant
            i <= names.len(),
            names_view(out@) == names_view(names@).take(i as int),
        decreases names.len() - i,
    {
        let c = names[i].clone();
        proof {
            lemma_names_view_push(out@, c);
            assert(names_view(names@).take(i + 1) =~= names_view(names@).take(i as int).push(
                names@[i as int]@,
            ));
        }
        out.push(c);
        i = i + 1;
    }
    assert(names_view(names@).take(i as int) =~= names_view(names@));
    out
}

impl Clone for Expr {
    fn clone(&self) -> (r: Self)
        ensures
            r@ == self@,
    {
        clone_expr(self)
    }
}

impl Clone for Stmt {
    fn clone(&self) -> (r: Self)
        ensures
            r@ == self@,
    {
        clone_stmt(self)
    }
}

impl Clone for StmtKind {
    fn clone(&self) -> (r: Self)
        ensures
            stmt_kind_view(r) == stmt_kind_view(*self),
    {
        clone_stmt_kind(self)
    }
}

impl Clone for Function {
    fn clone(&self) -> (r: Self)
        ensures
            r@ == self@,
    {
        let param_types = match &self.param_types {
            Some(ts) => Some(ts.clone()),
            None => None,
        };
        Function {
            name: self.name.clone(),
            params: clone_names(&self.params),
            param_types,
            return_type: self.return_type,
            body: clone_stmts(&self.body),
            line: self.line,
        }
    }
}

impl Clone for Program {
    fn clone(&self) -> (r: Self)
        ensures
            r@ == self@,
    {
        let mut functions: Vec<Function> = Vec::new();
        let mut i: usize = 0;
        while i < self.functions.len()
            invariant
                i <= self.functions.len(),
                functions_view(functions@) =~= functions_view(self.functions@).take(i as int),
            decreases self.functions.len() - i,
        {
            let f = self.functions[i].clone();
            proof {
                lemma_functions_view_push(functions@, f);
                assert(functions_view(self.functions@).take(i + 1) =~= functions_view(
                    self.functions@,
                ).take(i as int).push(self.functions@[i as int]@));
            }
            functions.push(f);
            i = i + 1;
        }
        assert(functions_view(self.functions@).take(i as int) =~= functions_view(
            self.functions@,
        ));
        Program { functions, top_level: clone_stmts(&self.top_level) }
    }
}

} // verus!
