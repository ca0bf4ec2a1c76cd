//! Recursive descent over a token stream.
//!
//! Every method is proved to compute the rule of the same name in
//! [`crate::grammar`], from the position the parser stands at.

use crate::ast::{
    exprs_view, functions_view, lemma_exprs_view_push, lemma_functions_view_push,
    lemma_names_view_push, lemma_stmts_view_push, names_view, opt_expr_view, opt_stmt_view,
    stmt_kind_view, stmts_view, BinOp, Expr, ExprView, Function, LogicalOp, Name, Program,
    ProgramView, Stmt, StmtKind, StmtKindView, StmtView, UnaryOp,
};
use crate::error::{CompilerError, CompilerErrorView};
use crate::grammar::{
    after, expect_spec, expected_message, infix_at, kind_at, level_rank, level_rest_spec, line_at,
    make_infix, parse_args_spec, parse_binding_spec, parse_block_rest_spec, parse_condition_spec,
    parse_expr_semi_spec, parse_expr_spec, parse_for_cond_spec, parse_for_header_spec,
    parse_for_init_spec, parse_for_spec, parse_for_step_spec, parse_function_spec, parse_if_spec,
    parse_level_spec, parse_params_spec, parse_primary_spec, parse_program_rest_spec,
    parse_simple_spec, parse_statement_spec, parse_unary_spec, parse_while_spec, remaining,
    statement_rule, Infix, Parsed, StatementRule,
};
use crate::text::push_text;
use crate::token::{kind_name, tokens_view, Token, TokenView, Toks};
use vstd::prelude::*;

verus! {

/// A parser over a token stream, with the position it has read up to.
pub struct Parser {
    tokens: Vec<(Token, usize)>,
    pos: usize,
}

/// Whether `res`, with the parser left at `pos`, is what `spec` gives.
pub open spec fn expr_ok(
    spec: Parsed<ExprView>,
    res: Result<Expr, CompilerError>,
    pos: int,
) -> bool {
    match spec {
        Ok((v, p)) => res is Ok && res->Ok_0@ == v && pos == p,
        Err(e) => res is Err && res->Err_0@ == e,
    }
}

/// Whether `res`, with the parser left at `pos`, is what `spec` gives.
pub open spec fn stmt_ok(
    spec: Parsed<StmtView>,
    res: Result<Stmt, CompilerError>,
    pos: int,
) -> bool {
    match spec {
        Ok((v, p)) => res is Ok && res->Ok_0@ == v && pos == p,
        Err(e) => res is Err && res->Err_0@ == e,
    }
}

/// Whether `res`, with the parser left at `pos`, is what `spec` gives.
pub open spec fn kind_ok(
    spec: Parsed<StmtKindView>,
    res: Result<StmtKind, CompilerError>,
    pos: int,
) -> bool {
    match spec {
        Ok((v, p)) => res is Ok && stmt_kind_view(res->Ok_0) == v && pos == p,
        Err(e) => res is Err && res->Err_0@ == e,
    }
}

/// Whether `res`, with the parser left at `pos`, is what `spec` gives.
pub open spec fn exprs_ok(
    spec: Parsed<Seq<ExprView>>,
    res: Result<Vec<Expr>, CompilerError>,
    pos: int,
) -> bool {
    match spec {
        Ok((v, p)) => res is Ok && exprs_view(res->Ok_0@) == v && pos == p,
        Err(e) => res is Err && res->Err_0@ == e,
    }
}

/// Whether `res`, with the parser left at `pos`, is what `spec` gives.
pub open spec fn stmts_ok(
    spec: Parsed<Seq<StmtView>>,
    res: Result<Vec<Stmt>, CompilerError>,
    pos: int,
) -> bool {
    match spec {
        Ok((v, p)) => res is Ok && stmts_view(res->Ok_0@) == v && pos == p,
        Err(e) => res is Err && res->Err_0@ == e,
    }
}

/// Whether `res`, with the parser left at `pos`, is what `spec` gives.
pub open spec fn names_ok(
    spec: Parsed<Seq<Name>>,
    res: Result<Vec<String>, CompilerError>,
    pos: int,
) -> bool {
    match spec {
        Ok((v, p)) => res is Ok && names_view(res->Ok_0@) == v && pos == p,
        Err(e) => res is Err && res->Err_0@ == e,
    }
}

/// Whether `res`, with the parser left at `pos`, is what `spec` gives.
pub open spec fn binding_ok(
    spec: Parsed<(Name, ExprView)>,
    res: Result<(String, Expr), CompilerError>,
    pos: int,
) -> bool {
    match spec {
        Ok((v, p)) => res is Ok && res->Ok_0.0@ == v.0 && res->Ok_0.1@ == v.1 && pos == p,
        Err(e) => res is Err && res->Err_0@ == e,
    }
}

/// Whether `res`, with the parser left at `pos`, is what `spec` gives.
pub open spec fn opt_stmt_ok(
    spec: Parsed<Option<Box<StmtView>>>,
    res: Result<Option<Box<Stmt>>, CompilerError>,
    pos: int,
) -> bool {
    match spec {
        Ok((v, p)) => res is Ok && opt_stmt_view(res->Ok_0) == v && pos == p,
        Err(e) => res is Err && res->Err_0@ == e,
    }
}

/// Whether `res`, with the parser left at `pos`, is what `spec` gives.
pub open spec fn opt_expr_ok(
    spec: Parsed<Option<ExprView>>,
    res: Result<Option<Expr>, CompilerError>,
    pos: int,
) -> bool {
    match spec {
        Ok((v, p)) => res is Ok && opt_expr_view(res->Ok_0) == v && pos == p,
        Err(e) => res is Err && res->Err_0@ == e,
    }
}

/// Whether `res`, with the parser left at `pos`, is what `spec` gives.
pub open spec fn header_ok(
    spec: Parsed<(Option<Box<StmtView>>, Option<ExprView>, Option<Box<StmtView>>)>,
    res: Result<(Option<Box<Stmt>>, Option<Expr>, Option<Box<Stmt>>), CompilerError>,
    pos: int,
) -> bool {
    match spec {
        Ok((v, p)) => res is Ok && opt_stmt_view(res->Ok_0.0) == v.0 && opt_expr_view(res->Ok_0.1)
            == v.1 && opt_stmt_view(res->Ok_0.2) == v.2 && pos == p,
        Err(e) => res is Err && res->Err_0@ == e,
    }
}

/// Whether `res`, with the parser left at `pos`, is what `spec` gives.
pub open spec fn function_ok(
    spec: Parsed<crate::ast::FunctionView>,
    res: Result<Function, CompilerError>,
    pos: int,
) -> bool {
    match spec {
        Ok((v, p)) => res is Ok && res->Ok_0@ == v && pos == p,
        Err(e) => res is Err && res->Err_0@ == e,
    }
}

/// Whether `res` is what the grammar gives for a whole program.
pub open spec fn program_ok(
    spec: Result<ProgramView, CompilerErrorView>,
    res: Result<Program, CompilerError>,
) -> bool {
    match spec {
        Ok(v) => res is Ok && res->Ok_0@ == v,
        Err(e) => res is Err && res->Err_0@ == e,
    }
}

/// The infix operator that a token denotes at a precedence level.
fn infix_of(level: u8, t: &Token) -> (r: Option<Infix>)
    ensures
        r == infix_at(level as int, t@),
{
    if level == 0 {
        match t {
            Token::OrOr => Some(Infix::Log(LogicalOp::Or)),
            _ => None,
        }
    } else if level == 1 {
        match t {
            Token::AndAnd => Some(Infix::Log(LogicalOp::And)),
            _ => None,
        }
    } else if level == 2 {
        match t {
            Token::EqEq => Some(Infix::Bin(BinOp::Eq)),
            Token::BangEq => Some(Infix::Bin(BinOp::Ne)),
            _ => None,
        }
    } else if level == 3 {
        match t {
            Token::Lt => Some(Infix::Bin(BinOp::Lt)),
            Token::Gt => Some(Infix::Bin(BinOp::Gt)),
            Token::LtEq => Some(Infix::Bin(BinOp::Le)),
            Token::GtEq => Some(Infix::Bin(BinOp::Ge)),
            _ => None,
        }
    } else if level == 4 {
        match t {
            Token::Plus => Some(Infix::Bin(BinOp::Add)),
            Token::Minus => Some(Infix::Bin(BinOp::Sub)),
            _ => None,
        }
    } else if level == 5 {
        match t {
            Token::Star => Some(Infix::Bin(BinOp::Mul)),
            Token::Slash => Some(Infix::Bin(BinOp::Div)),
            Token::Percent => Some(Infix::Bin(BinOp::Mod)),
            _ => None,
        }
    } else {
        None
    }
}

/// The form of the statement that starts with `t`.
fn rule_of(t: &Token) -> (r: StatementRule)
    ensures
        r == statement_rule(t@),
{
    match t {
        Token::Let => StatementRule::Let,
        Token::Const => StatementRule::Const,
        Token::If => StatementRule::If,
        Token::While => StatementRule::While,
        Token::For => StatementRule::For,
        Token::LBrace => StatementRule::Block,
        Token::Return => StatementRule::Return,
        Token::Break => StatementRule::Break,
        Token::Continue => StatementRule::Continue,
        _ => StatementRule::Simple,
    }
}

fn apply_infix(l: Expr, op: Infix, r: Expr) -> (e: Expr)
    ensures
        e@ == make_infix(l@, op, r@),
{
    match op {
        Infix::Bin(b) => Expr::Binary(Box::new(l), b, Box::new(r)),
        Infix::Log(g) => Expr::Logical(Box::new(l), g, Box::new(r)),
    }
}

/// `prefix` followed by the kind of `actual`.
fn message_with_kind(prefix: &str, actual: &Token) -> (s: String)
    ensures
        s@ == prefix@ + kind_name(actual@),
{
    let mut s = String::new();
    push_text(&mut s, prefix);
    push_text(&mut s, actual.kind());
    assert(s@ =~= prefix@ + kind_name(actual@));
    s
}

impl Parser {
    /// The token stream that this parser reads.
    #[verifier::opaque]
    pub closed spec fn stream(&self) -> Toks {
        tokens_view(self.tokens@)
    }

    /// The index of the next token to read.
    pub closed spec fn position(&self) -> int {
        self.pos as int
    }

    /// A parser at the start of `tokens`.
    pub fn new(tokens: Vec<(Token, usize)>) -> (p: Self)
        ensures
            p.stream() == tokens_view(tokens@),
            p.position() == 0,
    {
        reveal(Parser::stream);
        Parser { tokens, pos: 0 }
    }

    fn peek(&self) -> (t: Token)
        ensures
            t@ == kind_at(self.stream(), self.position()),
    {
        reveal(Parser::stream);
        if self.pos < self.tokens.len() {
            self.tokens[self.pos].0.clone()
        } else {
            Token::Eof
        }
    }

    /// Whether the next token is `t`.
    fn at(&self, t: &Token) -> (r: bool)
        ensures
            r == (kind_at(self.stream(), self.position()) == t@),
    {
        reveal(Parser::stream);
        if self.pos < self.tokens.len() {
            self.tokens[self.pos].0.same(t)
        } else {
            Token::Eof.same(t)
        }
    }

    /// Whether the token after the next one is `t`.
    fn next_at(&self, t: &Token) -> (r: bool)
        ensures
            r == (kind_at(self.stream(), self.position() + 1) == t@),
    {
        reveal(Parser::stream);
        if self.pos < self.tokens.len() && self.pos + 1 < self.tokens.len() {
            self.tokens[self.pos + 1].0.same(t)
        } else {
            Token::Eof.same(t)
        }
    }

    fn peek_line(&self) -> (l: usize)
        ensures
            l == line_at(self.stream(), self.position()),
    {
        reveal(Parser::stream);
        if self.pos < self.tokens.len() {
            self.tokens[self.pos].1
        } else {
            0
        }
    }

    fn advance(&mut self) -> (t: Token)
        ensures
            t@ == kind_at(old(self).stream(), old(self).position()),
            final(self).stream() == old(self).stream(),
            final(self).position() == if old(self).position() < old(self).stream().len() {
                old(self).position() + 1
            } else {
                old(self).position()
            },
    {
        reveal(Parser::stream);
        let tok = self.peek();
        if self.pos < self.tokens.len() {
            self.pos = self.pos + 1;
        }
        tok
    }

    fn expect(&mut self, expected: Token) -> (res: Result<(), CompilerError>)
        requires
            expected@ != TokenView::Eof,
        ensures
            final(self).stream() == old(self).stream(),
            match expect_spec(old(self).stream(), old(self).position(), expected@) {
                Ok(p) => res is Ok && final(self).position() == p,
                Err(e) => res is Err && res->Err_0@ == e,
            },
            res is Ok ==> final(self).position() > old(self).position(),
    {
        let line = self.peek_line();
        let tok = self.advance();
        if !tok.same(&expected) {
            let mut msg = String::new();
            push_text(&mut msg, "Expected ");
            push_text(&mut msg, expected.kind());
            push_text(&mut msg, ", got ");
            push_text(&mut msg, tok.kind());
            assert(msg@ =~= expected_message(expected@, tok@));
            return Err(CompilerError::parser(line, msg));
        }
        Ok(())
    }

    /// Parses functions and statements up to the end of input. The first
    /// token that fits no rule gives an error with its line.
    pub fn parse_program(&mut self) -> (res: Result<Program, CompilerError>)
        ensures
            final(self).stream() == old(self).stream(),
            program_ok(
                parse_program_rest_spec(
                    old(self).stream(),
                    Seq::empty(),
                    Seq::empty(),
                    old(self).position(),
                ),
                res,
            ),
    {
        let ghost ts = self.stream();
        let ghost start = self.position();
        let mut functions: Vec<Function> = Vec::new();
        let mut top_level: Vec<Stmt> = Vec::new();
        assert(functions_view(functions@) =~= Seq::empty());
        assert(stmts_view(top_level@) =~= Seq::empty());
        loop
            invariant
                ts == old(self).stream(),
                start == old(self).position(),
                self.stream() == ts,
                parse_program_rest_spec(
                    ts,
                    functions_view(functions@),
                    stmts_view(top_level@),
                    self.position(),
                ) == parse_program_rest_spec(ts, Seq::empty(), Seq::empty(), start),
            decreases remaining(ts, self.position()),
        {
            if self.at(&Token::Eof) {
                return Ok(Program { functions, top_level });
            }
            if self.at(&Token::Function) {
                let f = self.parse_function()?;
                proof {
                    lemma_functions_view_push(functions@, f);
                }
                functions.push(f);
            } else {
                let s = self.parse_statement()?;
                proof {
                    lemma_stmts_view_push(top_level@, s);
                }
                top_level.push(s);
            }
        }
    }

    fn parse_function(&mut self) -> (res: Result<Function, CompilerError>)
        ensures
            final(self).stream() == old(self).stream(),
            function_ok(
                parse_function_spec(old(self).stream(), old(self).position()),
                res,
                final(self).position(),
            ),
            res is Ok ==> final(self).position() > old(self).position(),
    {
        let line = self.peek_line();
        self.expect(Token::Function)?;
        let name_line = self.peek_line();
        let name = match self.advance() {
            Token::Identifier(s) => s,
            t => {
                return Err(
                    CompilerError::parser(
                        name_line,
                        message_with_kind("Expected function name, got ", &t),
                    ),
                );
            },
        };
        self.expect(Token::LParen)?;
        let mut params: Vec<String> = Vec::new();
        assert(names_view(params@) =~= Seq::empty());
        if !self.at(&Token::RParen) {
            params = self.parse_params()?;
        }
        self.expect(Token::RParen)?;
        self.expect(Token::LBrace)?;
        let body = self.parse_block_rest()?;
        Ok(Function { name, params, param_types: None, return_type: None, body, line })
    }

    /// Parameter names with commas between them.
    fn parse_params(&mut self) -> (res: Result<Vec<String>, CompilerError>)
        ensures
            final(self).stream() == old(self).stream(),
            names_ok(
                parse_params_spec(old(self).stream(), Seq::empty(), old(self).position()),
                res,
                final(self).position(),
            ),
            res is Ok ==> final(self).position() > old(self).position(),
    {
        let ghost ts = self.stream();
        let ghost start = self.position();
        let mut params: Vec<String> = Vec::new();
        assert(names_view(params@) =~= Seq::empty());
        loop
            invariant
                ts == old(self).stream(),
                start == old(self).position(),
                self.stream() == ts,
                self.position() >= start,
                parse_params_spec(ts, names_view(params@), self.position()) == parse_params_spec(
                    ts,
                    Seq::empty(),
                    start,
                ),
            decreases remaining(ts, self.position()),
        {
            let line = self.peek_line();
            match self.advance() {
                Token::Identifier(s) => {
                    proof {
                        lemma_names_view_push(params@, s);
                    }
                    params.push(s);
                },
                t => {
                    return Err(
                        CompilerError::parser(
                            line,
                            message_with_kind("Expected parameter name, got ", &t),
                        ),
                    );
                },
            }
            if self.at(&Token::Comma) {
                self.advance();
            } else {
                return Ok(params);
            }
        }
    }

    /// Statements up to the `}` that closes them.
    fn parse_block_rest(&mut self) -> (res: Result<Vec<Stmt>, CompilerError>)
        ensures
            final(self).stream() == old(self).stream(),
            stmts_ok(
                parse_block_rest_spec(old(self).stream(), Seq::empty(), old(self).position()),
                res,
                final(self).position(),
            ),
            res is Ok ==> final(self).position() > old(self).position(),
        decreases remaining(old(self).stream(), old(self).position()), 1nat,
    {
        let ghost ts = self.stream();
        let ghost start = self.position();
        let mut stmts: Vec<Stmt> = Vec::new();
        assert(stmts_view(stmts@) =~= Seq::empty());
        loop
            invariant
                ts == old(self).stream(),
                start == old(self).position(),
                self.stream() == ts,
                self.position() >= start,
                parse_block_rest_spec(ts, stmts_view(stmts@), self.position())
                    == parse_block_rest_spec(ts, Seq::empty(), start),
            decreases remaining(ts, self.position()),
        {
            if self.at(&Token::RBrace) {
                self.advance();
                return Ok(stmts);
            }
            if self.at(&Token::Eof) {
                let t = Token::Eof;
                return Err(
                    CompilerError::parser(
                        self.peek_line(),
                        message_with_kind("Unexpected token in expression: ", &t),
                    ),
                );
            }
            let s = self.parse_statement()?;
            proof {
                lemma_stmts_view_push(stmts@, s);
            }
            stmts.push(s);
        }
    }

    /// `name = expr ;`
    fn parse_binding(&mut self) -> (res: Result<(String, Expr), CompilerError>)
        ensures
            final(self).stream() == old(self).stream(),
            binding_ok(
                parse_binding_spec(old(self).stream(), old(self).position()),
                res,
                final(self).position(),
            ),
            res is Ok ==> final(self).position() > old(self).position(),
    {
        let line = self.peek_line();
        let name = match self.advance() {
            Token::Identifier(s) => s,
            t => {
                return Err(
                    CompilerError::parser(line, message_with_kind("Expected identifier, got ", &t)),
                );
            },
        };
        self.expect(Token::Eq)?;
        let expr = self.parse_expr()?;
        self.expect(Token::Semicolon)?;
        Ok((name, expr))
    }

    /// `expr ;`
    fn parse_expr_semi(&mut self) -> (res: Result<Expr, CompilerError>)
        ensures
            final(self).stream() == old(self).stream(),
            expr_ok(
                parse_expr_semi_spec(old(self).stream(), old(self).position()),
                res,
                final(self).position(),
            ),
            res is Ok ==> final(self).position() > old(self).position(),
    {
        let expr = self.parse_expr()?;
        self.expect(Token::Semicolon)?;
        Ok(expr)
    }

    /// `( expr )`
    fn parse_condition(&mut self) -> (res: Result<Expr, CompilerError>)
        ensures
            final(self).stream() == old(self).stream(),
            expr_ok(
                parse_condition_spec(old(self).stream(), old(self).position()),
                res,
                final(self).position(),
            ),
            res is Ok ==> final(self).position() > old(self).position(),
    {
        self.expect(Token::LParen)?;
        let cond = self.parse_expr()?;
        self.expect(Token::RParen)?;
        Ok(cond)
    }

    /// The first clause of a `for`, with the `;` that ends it.
    fn parse_for_init(&mut self) -> (res: Result<Option<Box<Stmt>>, CompilerError>)
        ensures
            final(self).stream() == old(self).stream(),
            opt_stmt_ok(
                parse_for_init_spec(old(self).stream(), old(self).position()),
                res,
                final(self).position(),
            ),
            res is Ok ==> final(self).position() > old(self).position(),
    {
        let line = self.peek_line();
        match self.peek() {
            Token::Semicolon => {
                self.advance();
                Ok(None)
            },
            Token::Let => {
                self.advance();
                let (name, expr) = self.parse_binding()?;
                Ok(Some(Box::new(Stmt { kind: StmtKind::Let(name, expr), line })))
            },
            Token::Const => {
                self.advance();
                let (name, expr) = self.parse_binding()?;
                Ok(Some(Box::new(Stmt { kind: StmtKind::Const(name, expr), line })))
            },
            Token::Identifier(_) => {
                let (name, expr) = self.parse_binding()?;
                Ok(Some(Box::new(Stmt { kind: StmtKind::Assign(name, expr), line })))
            },
            t => Err(
                CompilerError::parser(
                    line,
                    message_with_kind("Unexpected token in for init: ", &t),
                ),
            ),
        }
    }

    /// The second clause of a `for`, with the `;` that ends it.
    fn parse_for_cond(&mut self) -> (res: Result<Option<Expr>, CompilerError>)
        ensures
            final(self).stream() == old(self).stream(),
            opt_expr_ok(
                parse_for_cond_spec(old(self).stream(), old(self).position()),
                res,
                final(self).position(),
            ),
            res is Ok ==> final(self).position() > old(self).position(),
    {
        if self.at(&Token::Semicolon) {
            self.advance();
            Ok(None)
        } else {
            let cond = self.parse_expr_semi()?;
            Ok(Some(cond))
        }
    }

    /// The third clause of a `for`, with the `)` that ends it.
    fn parse_for_step(&mut self) -> (res: Result<Option<Box<Stmt>>, CompilerError>)
        ensures
            final(self).stream() == old(self).stream(),
            opt_stmt_ok(
                parse_for_step_spec(old(self).stream(), old(self).position()),
                res,
                final(self).position(),
            ),
            res is Ok ==> final(self).position() > old(self).position(),
    {
        let line = self.peek_line();
        if self.at(&Token::RParen) {
            self.advance();
            return Ok(None);
        }
        let kind = match self.peek() {
            Token::Identifier(name) => {
                if self.next_at(&Token::Eq) {
                    self.advance();
                    self.advance();
                    let expr = self.parse_expr()?;
                    StmtKind::Assign(name, expr)
                } else {
                    let expr = self.parse_expr()?;
                    StmtKind::Expr(expr)
                }
            },
            _ => {
                let expr = self.parse_expr()?;
                StmtKind::Expr(expr)
            },
        };
        self.expect(Token::RParen)?;
        Ok(Some(Box::new(Stmt { kind, line })))
    }

    /// `( init ; cond ; step )` of a `for`.
    fn parse_for_header(&mut self) -> (res: Result<
        (Option<Box<Stmt>>, Option<Expr>, Option<Box<Stmt>>),
        CompilerError,
    >)
        ensures
            final(self).stream() == old(self).stream(),
            header_ok(
                parse_for_header_spec(old(self).stream(), old(self).position()),
                res,
                final(self).position(),
            ),
            res is Ok ==> final(self).position() > old(self).position(),
    {
        self.expect(Token::LParen)?;
        let init = self.parse_for_init()?;
        let cond = self.parse_for_cond()?;
        let step = self.parse_for_step()?;
        Ok((init, cond, step))
    }

    /// What follows `if`.
    fn parse_if(&mut self) -> (res: Result<StmtKind, CompilerError>)
        ensures
            final(self).stream() == old(self).stream(),
            kind_ok(
                parse_if_spec(old(self).stream(), old(self).position()),
                res,
                final(self).position(),
            ),
            res is Ok ==> final(self).position() > old(self).position(),
        decreases remaining(old(self).stream(), old(self).position()), 2nat,
    {
        let cond = self.parse_condition()?;
        let then_branch = self.parse_statement()?;
        if self.at(&Token::Else) {
            self.advance();
            let else_branch = self.parse_statement()?;
            Ok(StmtKind::If(cond, Box::new(then_branch), Some(Box::new(else_branch))))
        } else {
            Ok(StmtKind::If(cond, Box::new(then_branch), None))
        }
    }

    /// What follows `while`.
    fn parse_while(&mut self) -> (res: Result<StmtKind, CompilerError>)
        ensures
            final(self).stream() == old(self).stream(),
            kind_ok(
                parse_while_spec(old(self).stream(), old(self).position()),
                res,
                final(self).position(),
            ),
            res is Ok ==> final(self).position() > old(self).position(),
        decreases remaining(old(self).stream(), old(self).position()), 2nat,
    {
        let cond = self.parse_condition()?;
        let body = self.parse_statement()?;
        Ok(StmtKind::While(cond, Box::new(body)))
    }

    /// What follows `for`.
    fn parse_for(&mut self) -> (res: Result<StmtKind, CompilerError>)
        ensures
            final(self).stream() == old(self).stream(),
            kind_ok(
                parse_for_spec(old(self).stream(), old(self).position()),
                res,
                final(self).position(),
            ),
            res is Ok ==> final(self).position() > old(self).position(),
        decreases remaining(old(self).stream(), old(self).position()), 2nat,
    {
        let (init, cond, step) = self.parse_for_header()?;
        let body = self.parse_statement()?;
        Ok(StmtKind::For(init, cond, step, Box::new(body)))
    }

    /// An assignment or an expression statement.
    fn parse_simple(&mut self) -> (res: Result<StmtKind, CompilerError>)
        ensures
            final(self).stream() == old(self).stream(),
            kind_ok(
                parse_simple_spec(old(self).stream(), old(self).position()),
                res,
                final(self).position(),
            ),
            res is Ok ==> final(self).position() > old(self).position(),
    {
        match self.peek() {
            Token::Identifier(name) => {
                if self.next_at(&Token::Eq) {
                    self.advance();
                    self.advance();
                    let expr = self.parse_expr_semi()?;
                    Ok(StmtKind::Assign(name, expr))
                } else {
                    let expr = self.parse_expr_semi()?;
                    Ok(StmtKind::Expr(expr))
                }
            },
            _ => {
                let expr = self.parse_expr_semi()?;
                Ok(StmtKind::Expr(expr))
            },
        }
    }

    fn parse_statement(&mut self) -> (res: Result<Stmt, CompilerError>)
        ensures
            final(self).stream() == old(self).stream(),
            stmt_ok(
                parse_statement_spec(old(self).stream(), old(self).position()),
                res,
                final(self).position(),
            ),
            res is Ok ==> final(self).position() > old(self).position(),
        decreases remaining(old(self).stream(), old(self).position()), 0nat,
    {
        let line = self.peek_line();
        let kind = match rule_of(&self.peek()) {
            StatementRule::Let => {
                self.advance();
                let (name, expr) = self.parse_binding()?;
                StmtKind::Let(name, expr)
            },
            StatementRule::Const => {
                self.advance();
                let (name, expr) = self.parse_binding()?;
                StmtKind::Const(name, expr)
            },
            StatementRule::If => {
                self.advance();
                self.parse_if()?
            },
            StatementRule::While => {
                self.advance();
                self.parse_while()?
            },
            StatementRule::For => {
                self.advance();
                self.parse_for()?
            },
            StatementRule::Block => {
                self.advance();
                let stmts = self.parse_block_rest()?;
                StmtKind::Block(stmts)
            },
            StatementRule::Return => {
                self.advance();
                let expr = self.parse_expr_semi()?;
                StmtKind::Return(expr)
            },
            StatementRule::Break => {
                self.advance();
                self.expect(Token::Semicolon)?;
                StmtKind::Break
            },
            StatementRule::Continue => {
                self.advance();
                self.expect(Token::Semicolon)?;
                StmtKind::Continue
            },
            StatementRule::Simple => self.parse_simple()?,
        };
        Ok(Stmt { kind, line })
    }

    fn parse_expr(&mut self) -> (res: Result<Expr, CompilerError>)
        ensures
            final(self).stream() == old(self).stream(),
            expr_ok(
                parse_expr_spec(old(self).stream(), old(self).position()),
                res,
                final(self).position(),
            ),
            res is Ok ==> final(self).position() > old(self).position(),
        decreases remaining(old(self).stream(), old(self).position()), 11nat,
    {
        self.parse_level(0)
    }

    /// One precedence level of infix operators: an operand of the next
    /// level, then any number of `operator operand`, grouped to the left.
    fn parse_level(&mut self, level: u8) -> (res: Result<Expr, CompilerError>)
        ensures
            final(self).stream() == old(self).stream(),
            expr_ok(
                parse_level_spec(old(self).stream(), old(self).position(), level as int),
                res,
                final(self).position(),
            ),
            res is Ok ==> final(self).position() > old(self).position(),
        decreases remaining(old(self).stream(), old(self).position()), level_rank(level as int),
    {
        if level > 5 {
            return self.parse_unary();
        }
        let ghost ts = self.stream();
        let ghost start = self.position();
        let mut left = self.parse_level(level + 1)?;
        loop
            invariant
                level <= 5,
                ts == old(self).stream(),
                start == old(self).position(),
                self.stream() == ts,
                self.position() > start,
                level_rest_spec(ts, left@, self.position(), level as int) == parse_level_spec(
                    ts,
                    start,
                    level as int,
                ),
            decreases remaining(ts, self.position()),
        {
            let op = match infix_of(level, &self.peek()) {
                None => {
                    return Ok(left);
                },
                Some(op) => op,
            };
            self.advance();
            let right = self.parse_level(level + 1)?;
            left = apply_infix(left, op, right);
        }
    }

    fn parse_unary(&mut self) -> (res: Result<Expr, CompilerError>)
        ensures
            final(self).stream() == old(self).stream(),
            expr_ok(
                parse_unary_spec(old(self).stream(), old(self).position()),
                res,
                final(self).position(),
            ),
            res is Ok ==> final(self).position() > old(self).position(),
        decreases remaining(old(self).stream(), old(self).position()), 3nat,
    {
        if self.at(&Token::Minus) {
            self.advance();
            let operand = self.parse_unary()?;
            Ok(Expr::Unary(UnaryOp::Neg, Box::new(operand)))
        } else if self.at(&Token::Bang) {
            self.advance();
            let operand = self.parse_unary()?;
            Ok(Expr::Unary(UnaryOp::Not, Box::new(operand)))
        } else {
            self.parse_primary()
        }
    }

    fn parse_primary(&mut self) -> (res: Result<Expr, CompilerError>)
        ensures
            final(self).stream() == old(self).stream(),
            expr_ok(
                parse_primary_spec(old(self).stream(), old(self).position()),
                res,
                final(self).position(),
            ),
            res is Ok ==> final(self).position() > old(self).position(),
        decreases remaining(old(self).stream(), old(self).position()), 2nat,
    {
        let line = self.peek_line();
        match self.peek() {
            Token::Number(n) => {
                self.advance();
                Ok(Expr::Number(n))
            },
            Token::Float(x) => {
                self.advance();
                Ok(Expr::Float(x))
            },
            Token::Identifier(name) => {
                self.advance();
                if self.at(&Token::LParen) {
                    self.advance();
                    let mut args: Vec<Expr> = Vec::new();
                    assert(exprs_view(args@) =~= Seq::empty());
                    if !self.at(&Token::RParen) {
                        args = self.parse_args()?;
                    }
                    self.expect(Token::RParen)?;
                    Ok(Expr::Call(name, args))
                } else {
                    Ok(Expr::Identifier(name))
                }
            },
            Token::LParen => {
                self.advance();
                let expr = self.parse_expr()?;
                self.expect(Token::RParen)?;
                Ok(expr)
            },
            t => Err(
                CompilerError::parser(
                    line,
                    message_with_kind("Unexpected token in expression: ", &t),
                ),
            ),
        }
    }

    /// One or more expressions with commas between them.
    fn parse_args(&mut self) -> (res: Result<Vec<Expr>, CompilerError>)
        ensures
            final(self).stream() == old(self).stream(),
            exprs_ok(
                parse_args_spec(old(self).stream(), Seq::empty(), old(self).position()),
                res,
                final(self).position(),
            ),
            res is Ok ==> final(self).position() > old(self).position(),
        decreases remaining(old(self).stream(), old(self).position()), 12nat,
    {
        let ghost ts = self.stream();
        let ghost start = self.position();
        let mut args: Vec<Expr> = Vec::new();
        assert(exprs_view(args@) =~= Seq::empty());
        loop
            invariant
                ts == old(self).stream(),
                start == old(self).position(),
                self.stream() == ts,
                self.position() >= start,
                parse_args_spec(ts, exprs_view(args@), self.position()) == parse_args_spec(
                    ts,
                    Seq::empty(),
                    start,
                ),
            decreases remaining(ts, self.position()),
        {
            let e = self.parse_expr()?;
            proof {
                lemma_exprs_view_push(args@, e);
            }
            args.push(e);
            if self.at(&Token::Comma) {
                self.advance();
            } else {
                return Ok(args);
            }
        }
    }
}

} // verus!
