//! The grammar of the language, as functions from a token stream and a
//! position to a syntax tree and the position after it.
//!
//! Precedence, lowest first: `||`, `&&`, equality, relational, additive,
//! multiplicative, prefix `-` and `!`, primary. Binary operators associate to
//! the left, prefix operators to the right.

use crate::ast::{
    BinOp, ExprView, FunctionView, LogicalOp, Name, ProgramView, StmtKindView, StmtView, UnaryOp,
};
use crate::error::{parser_error, CompilerErrorView};
use crate::token::{kind_name, TokenView, Toks};
use vstd::prelude::*;

verus! {

/// What a rule yields: a value and the position after it, or an error.
pub type Parsed<T> = Result<(T, int), CompilerErrorView>;

/// The token at `pos`; past the end of the stream, end of input.
pub open spec fn kind_at(ts: Toks, pos: int) -> TokenView {
    if 0 <= pos < ts.len() {
        ts[pos].0
    } else {
        TokenView::Eof
    }
}

/// The line of the token at `pos`; past the end of the stream, 0.
pub open spec fn line_at(ts: Toks, pos: int) -> usize {
    if 0 <= pos < ts.len() {
        ts[pos].1
    } else {
        0
    }
}

/// How many tokens are left at `pos`.
pub open spec fn remaining(ts: Toks, pos: int) -> nat {
    if pos < ts.len() {
        (ts.len() - pos) as nat
    } else {
        0
    }
}

/// The position `p` that a rule left off at, having begun at `pos`. Every
/// rule leaves off after where it began (`lemma_expr_forward`,
/// `lemma_statement_forward`), so this is `p`; written like this, the
/// rules are seen to come to an end.
pub open spec fn after(pos: int, p: int) -> int {
    if p > pos {
        p
    } else {
        pos + 1
    }
}

/// The message for a token that is not the one expected.
pub open spec fn expected_message(expected: TokenView, actual: TokenView) -> Seq<char> {
    "Expected "@ + kind_name(expected) + ", got "@ + kind_name(actual)
}

/// The message for a token that starts no expression.
pub open spec fn unexpected_in_expression(actual: TokenView) -> Seq<char> {
    "Unexpected token in expression: "@ + kind_name(actual)
}

/// The token at `pos` must be `expected`.
pub open spec fn expect_spec(ts: Toks, pos: int, expected: TokenView) -> Result<
    int,
    CompilerErrorView,
> {
    if kind_at(ts, pos) == expected {
        Ok(pos + 1)
    } else {
        Err(parser_error(line_at(ts, pos), expected_message(expected, kind_at(ts, pos))))
    }
}

/// An operator between two operands.
#[derive(Clone, Copy)]
pub enum Infix {
    Bin(BinOp),
    Log(LogicalOp),
}

/// The infix operator that `t` denotes at a precedence level, 0 the lowest.
pub open spec fn infix_at(level: int, t: TokenView) -> Option<Infix> {
    if level == 0 {
        match t {
            TokenView::OrOr => Some(Infix::Log(LogicalOp::Or)),
            _ => None,
        }
    } else if level == 1 {
        match t {
            TokenView::AndAnd => Some(Infix::Log(LogicalOp::And)),
            _ => None,
        }
    } else if level == 2 {
        match t {
            TokenView::EqEq => Some(Infix::Bin(BinOp::Eq)),
            TokenView::BangEq => Some(Infix::Bin(BinOp::Ne)),
            _ => None,
        }
    } else if level == 3 {
        match t {
            TokenView::Lt => Some(Infix::Bin(BinOp::Lt)),
            TokenView::Gt => Some(Infix::Bin(BinOp::Gt)),
            TokenView::LtEq => Some(Infix::Bin(BinOp::Le)),
            TokenView::GtEq => Some(Infix::Bin(BinOp::Ge)),
            _ => None,
        }
    } else if level == 4 {
        match t {
            TokenView::Plus => Some(Infix::Bin(BinOp::Add)),
            TokenView::Minus => Some(Infix::Bin(BinOp::Sub)),
            _ => None,
        }
    } else if level == 5 {
        match t {
            TokenView::Star => Some(Infix::Bin(BinOp::Mul)),
            TokenView::Slash => Some(Infix::Bin(BinOp::Div)),
            TokenView::Percent => Some(Infix::Bin(BinOp::Mod)),
            _ => None,
        }
    } else {
        None
    }
}

/// The expression of an infix operator and its operands.
pub open spec fn make_infix(l: ExprView, op: Infix, r: ExprView) -> ExprView {
    match op {
        Infix::Bin(b) => ExprView::Binary(Box::new(l), b, Box::new(r)),
        Infix::Log(g) => ExprView::Logical(Box::new(l), g, Box::new(r)),
    }
}

/// Ranks order the rules that can call one another at the same position.
pub open spec fn level_rank(level: int) -> nat {
    if 0 <= level <= 5 {
        (10 - level) as nat
    } else {
        4
    }
}

/// An expression: the levels of infix operators from the lowest up.
pub open spec fn parse_expr_spec(ts: Toks, pos: int) -> Parsed<ExprView>
    decreases remaining(ts, pos), 11nat,
{
    parse_level_spec(ts, pos, 0)
}

/// An operand of the next level, then any number of `operator operand`.
pub open spec fn parse_level_spec(ts: Toks, pos: int, level: int) -> Parsed<ExprView>
    decreases remaining(ts, pos), level_rank(level),
{
    if 0 <= level <= 5 {
        match parse_level_spec(ts, pos, level + 1) {
            Err(e) => Err(e),
            Ok((left, p)) => level_rest_spec(ts, left, after(pos, p), level),
        }
    } else {
        parse_unary_spec(ts, pos)
    }
}

/// Any number of `operator operand` of one level behind `left`, grouped
/// to the left.
pub open spec fn level_rest_spec(ts: Toks, left: ExprView, pos: int, level: int) -> Parsed<
    ExprView,
>
    decreases remaining(ts, pos), 0nat,
{
    match infix_at(level, kind_at(ts, pos)) {
        None => Ok((left, pos)),
        Some(op) => match parse_level_spec(ts, pos + 1, level + 1) {
            Err(e) => Err(e),
            Ok((right, p)) => level_rest_spec(
                ts,
                make_infix(left, op, right),
                after(pos + 1, p),
                level,
            ),
        },
    }
}

/// Prefix operators, then a primary expression.
pub open spec fn parse_unary_spec(ts: Toks, pos: int) -> Parsed<ExprView>
    decreases remaining(ts, pos), 3nat,
{
    match kind_at(ts, pos) {
        TokenView::Minus => match parse_unary_spec(ts, pos + 1) {
            Err(e) => Err(e),
            Ok((x, p)) => Ok((ExprView::Unary(UnaryOp::Neg, Box::new(x)), p)),
        },
        TokenView::Bang => match parse_unary_spec(ts, pos + 1) {
            Err(e) => Err(e),
            Ok((x, p)) => Ok((ExprView::Unary(UnaryOp::Not, Box::new(x)), p)),
        },
        _ => parse_primary_spec(ts, pos),
    }
}

/// A literal, a name, a call, or an expression in parentheses.
pub open spec fn parse_primary_spec(ts: Toks, pos: int) -> Parsed<ExprView>
    decreases remaining(ts, pos), 2nat,
{
    match kind_at(ts, pos) {
        TokenView::Number(n) => Ok((ExprView::Number(n), pos + 1)),
        TokenView::Float(x) => Ok((ExprView::Float(x), pos + 1)),
        TokenView::Identifier(name) => if kind_at(ts, pos + 1) == TokenView::LParen {
            if kind_at(ts, pos + 2) == TokenView::RParen {
                Ok((ExprView::Call(name, Seq::empty()), pos + 3))
            } else {
                match parse_args_spec(ts, Seq::empty(), pos + 2) {
                    Err(e) => Err(e),
                    Ok((args, p)) => match expect_spec(ts, p, TokenView::RParen) {
                        Err(e) => Err(e),
                        Ok(p2) => Ok((ExprView::Call(name, args), p2)),
                    },
                }
            }
        } else {
            Ok((ExprView::Identifier(name), pos + 1))
        },
        TokenView::LParen => match parse_expr_spec(ts, pos + 1) {
            Err(e) => Err(e),
            Ok((e, p)) => match expect_spec(ts, p, TokenView::RParen) {
                Err(e) => Err(e),
                Ok(p2) => Ok((e, p2)),
            },
        },
        t => Err(parser_error(line_at(ts, pos), unexpected_in_expression(t))),
    }
}

/// One or more expressions with commas between them, added to `acc`.
pub open spec fn parse_args_spec(ts: Toks, acc: Seq<ExprView>, pos: int) -> Parsed<Seq<ExprView>>
    decreases remaining(ts, pos), 12nat,
{
    match parse_expr_spec(ts, pos) {
        Err(e) => Err(e),
        Ok((e, p0)) => {
            let p = after(pos, p0);
            if kind_at(ts, p) == TokenView::Comma {
                parse_args_spec(ts, acc.push(e), p + 1)
            } else {
                Ok((acc.push(e), p))
            }
        },
    }
}

/// `name = expr ;` after `let` or `const`, or as the first clause of a `for`.
pub open spec fn parse_binding_spec(ts: Toks, pos: int) -> Parsed<(Name, ExprView)> {
    match kind_at(ts, pos) {
        TokenView::Identifier(name) => match expect_spec(ts, pos + 1, TokenView::Eq) {
            Err(e) => Err(e),
            Ok(p1) => match parse_expr_spec(ts, p1) {
                Err(e) => Err(e),
                Ok((e, p2)) => match expect_spec(ts, p2, TokenView::Semicolon) {
                    Err(e) => Err(e),
                    Ok(p3) => Ok(((name, e), p3)),
                },
            },
        },
        t => Err(parser_error(line_at(ts, pos), "Expected identifier, got "@ + kind_name(t))),
    }
}

/// `expr ;`
pub open spec fn parse_expr_semi_spec(ts: Toks, pos: int) -> Parsed<ExprView> {
    match parse_expr_spec(ts, pos) {
        Err(e) => Err(e),
        Ok((e, p)) => match expect_spec(ts, p, TokenView::Semicolon) {
            Err(e) => Err(e),
            Ok(p2) => Ok((e, p2)),
        },
    }
}

/// `( expr )`
pub open spec fn parse_condition_spec(ts: Toks, pos: int) -> Parsed<ExprView> {
    match expect_spec(ts, pos, TokenView::LParen) {
        Err(e) => Err(e),
        Ok(p1) => match parse_expr_spec(ts, p1) {
            Err(e) => Err(e),
            Ok((c, p2)) => match expect_spec(ts, p2, TokenView::RParen) {
                Err(e) => Err(e),
                Ok(p3) => Ok((c, p3)),
            },
        },
    }
}

/// The first clause of a `for`, with the `;` that ends it.
pub open spec fn parse_for_init_spec(ts: Toks, pos: int) -> Parsed<Option<Box<StmtView>>> {
    let line = line_at(ts, pos);
    match kind_at(ts, pos) {
        TokenView::Semicolon => Ok((None, pos + 1)),
        TokenView::Let => match parse_binding_spec(ts, pos + 1) {
            Err(e) => Err(e),
            Ok(((name, e), p)) => Ok(
                (Some(Box::new(StmtView { kind: StmtKindView::Let(name, e), line })), p),
            ),
        },
        TokenView::Const => match parse_binding_spec(ts, pos + 1) {
            Err(e) => Err(e),
            Ok(((name, e), p)) => Ok(
                (Some(Box::new(StmtView { kind: StmtKindView::Const(name, e), line })), p),
            ),
        },
        TokenView::Identifier(_) => match parse_binding_spec(ts, pos) {
            Err(e) => Err(e),
            Ok(((name, e), p)) => Ok(
                (Some(Box::new(StmtView { kind: StmtKindView::Assign(name, e), line })), p),
            ),
        },
        t => Err(parser_error(line, "Unexpected token in for init: "@ + kind_name(t))),
    }
}

/// The second clause of a `for`, with the `;` that ends it.
pub open spec fn parse_for_cond_spec(ts: Toks, pos: int) -> Parsed<Option<ExprView>> {
    if kind_at(ts, pos) == TokenView::Semicolon {
        Ok((None, pos + 1))
    } else {
        match parse_expr_semi_spec(ts, pos) {
            Err(e) => Err(e),
            Ok((c, p)) => Ok((Some(c), p)),
        }
    }
}

/// Whether an assignment starts at `pos`: a name, then `=`.
pub open spec fn assignment_at(ts: Toks, pos: int) -> bool {
    kind_at(ts, pos) is Identifier && kind_at(ts, pos + 1) == TokenView::Eq
}

/// The third clause of a `for`, with the `)` that ends it.
pub open spec fn parse_for_step_spec(ts: Toks, pos: int) -> Parsed<Option<Box<StmtView>>> {
    let line = line_at(ts, pos);
    if kind_at(ts, pos) == TokenView::RParen {
        Ok((None, pos + 1))
    } else {
        let parsed: Parsed<StmtKindView> = if assignment_at(ts, pos) {
            match parse_expr_spec(ts, pos + 2) {
                Err(e) => Err(e),
                Ok((e, p)) => Ok((StmtKindView::Assign(kind_at(ts, pos)->Identifier_0, e), p)),
            }
        } else {
            match parse_expr_spec(ts, pos) {
                Err(e) => Err(e),
                Ok((e, p)) => Ok((StmtKindView::Expr(e), p)),
            }
        };
        match parsed {
            Err(e) => Err(e),
            Ok((kind, p)) => match expect_spec(ts, p, TokenView::RParen) {
                Err(e) => Err(e),
                Ok(p2) => Ok((Some(Box::new(StmtView { kind, line })), p2)),
            },
        }
    }
}

/// `( init ; cond ; step )` of a `for`.
pub open spec fn parse_for_header_spec(ts: Toks, pos: int) -> Parsed<
    (Option<Box<StmtView>>, Option<ExprView>, Option<Box<StmtView>>),
> {
    match expect_spec(ts, pos, TokenView::LParen) {
        Err(e) => Err(e),
        Ok(p1) => match parse_for_init_spec(ts, p1) {
            Err(e) => Err(e),
            Ok((init, p2)) => match parse_for_cond_spec(ts, p2) {
                Err(e) => Err(e),
                Ok((cond, p3)) => match parse_for_step_spec(ts, p3) {
                    Err(e) => Err(e),
                    Ok((step, p4)) => Ok(((init, cond, step), p4)),
                },
            },
        },
    }
}

/// `( cond ) statement`, then `else statement` if an `else` follows.
pub open spec fn parse_if_spec(ts: Toks, pos: int) -> Parsed<StmtKindView>
    decreases remaining(ts, pos), 2nat,
{
    match parse_condition_spec(ts, pos) {
        Err(e) => Err(e),
        Ok((c, p0)) => match parse_statement_spec(ts, after(pos, p0)) {
            Err(e) => Err(e),
            Ok((t, p1)) => {
                let p2 = after(pos, p1);
                if kind_at(ts, p2) == TokenView::Else {
                    match parse_statement_spec(ts, p2 + 1) {
                        Err(e) => Err(e),
                        Ok((f, p3)) => Ok(
                            (StmtKindView::If(c, Box::new(t), Some(Box::new(f))), p3),
                        ),
                    }
                } else {
                    Ok((StmtKindView::If(c, Box::new(t), None), p2))
                }
            },
        },
    }
}

/// `( cond ) statement`
pub open spec fn parse_while_spec(ts: Toks, pos: int) -> Parsed<StmtKindView>
    decreases remaining(ts, pos), 2nat,
{
    match parse_condition_spec(ts, pos) {
        Err(e) => Err(e),
        Ok((c, p0)) => match parse_statement_spec(ts, after(pos, p0)) {
            Err(e) => Err(e),
            Ok((b, p1)) => Ok((StmtKindView::While(c, Box::new(b)), p1)),
        },
    }
}

/// `( init ; cond ; step ) statement`
pub open spec fn parse_for_spec(ts: Toks, pos: int) -> Parsed<StmtKindView>
    decreases remaining(ts, pos), 2nat,
{
    match parse_for_header_spec(ts, pos) {
        Err(e) => Err(e),
        Ok(((init, cond, step), p0)) => match parse_statement_spec(ts, after(pos, p0)) {
            Err(e) => Err(e),
            Ok((b, p1)) => Ok((StmtKindView::For(init, cond, step, Box::new(b)), p1)),
        },
    }
}

/// A name, `=`, an expression and `;`, or else an expression and `;`.
pub open spec fn parse_simple_spec(ts: Toks, pos: int) -> Parsed<StmtKindView> {
    if assignment_at(ts, pos) {
        match parse_expr_semi_spec(ts, pos + 2) {
            Err(e) => Err(e),
            Ok((e, p)) => Ok((StmtKindView::Assign(kind_at(ts, pos)->Identifier_0, e), p)),
        }
    } else {
        match parse_expr_semi_spec(ts, pos) {
            Err(e) => Err(e),
            Ok((e, p)) => Ok((StmtKindView::Expr(e), p)),
        }
    }
}

/// The forms of a statement, told apart by its first token.
#[derive(Clone, Copy)]
pub enum StatementRule {
    Let,
    Const,
    If,
    While,
    For,
    Block,
    Return,
    Break,
    Continue,
    /// An assignment or an expression statement.
    Simple,
}

/// The form of the statement that starts with `t`.
pub open spec fn statement_rule(t: TokenView) -> StatementRule {
    match t {
        TokenView::Let => StatementRule::Let,
        TokenView::Const => StatementRule::Const,
        TokenView::If => StatementRule::If,
        TokenView::While => StatementRule::While,
        TokenView::For => StatementRule::For,
        TokenView::LBrace => StatementRule::Block,
        TokenView::Return => StatementRule::Return,
        TokenView::Break => StatementRule::Break,
        TokenView::Continue => StatementRule::Continue,
        _ => StatementRule::Simple,
    }
}

/// A statement, with the line of its first token.
pub open spec fn parse_statement_spec(ts: Toks, pos: int) -> Parsed<StmtView>
    decreases remaining(ts, pos), 0nat,
{
    let line = line_at(ts, pos);
    let parsed: Parsed<StmtKindView> = match statement_rule(kind_at(ts, pos)) {
        StatementRule::Let => match parse_binding_spec(ts, pos + 1) {
            Err(e) => Err(e),
            Ok(((name, e), p)) => Ok((StmtKindView::Let(name, e), p)),
        },
        StatementRule::Const => match parse_binding_spec(ts, pos + 1) {
            Err(e) => Err(e),
            Ok(((name, e), p)) => Ok((StmtKindView::Const(name, e), p)),
        },
        StatementRule::If => parse_if_spec(ts, pos + 1),
        StatementRule::While => parse_while_spec(ts, pos + 1),
        StatementRule::For => parse_for_spec(ts, pos + 1),
        StatementRule::Block => match parse_block_rest_spec(ts, Seq::empty(), pos + 1) {
            Err(e) => Err(e),
            Ok((stmts, p)) => Ok((StmtKindView::Block(stmts), p)),
        },
        StatementRule::Return => match parse_expr_semi_spec(ts, pos + 1) {
            Err(e) => Err(e),
            Ok((e, p)) => Ok((StmtKindView::Return(e), p)),
        },
        StatementRule::Break => match expect_spec(ts, pos + 1, TokenView::Semicolon) {
            Err(e) => Err(e),
            Ok(p) => Ok((StmtKindView::Break, p)),
        },
        StatementRule::Continue => match expect_spec(ts, pos + 1, TokenView::Semicolon) {
            Err(e) => Err(e),
            Ok(p) => Ok((StmtKindView::Continue, p)),
        },
        StatementRule::Simple => parse_simple_spec(ts, pos),
    };
    match parsed {
        Err(e) => Err(e),
        Ok((kind, p)) => Ok((StmtView { kind, line }, p)),
    }
}

/// Statements up to the `}` that closes them, added to `acc`.
pub open spec fn parse_block_rest_spec(ts: Toks, acc: Seq<StmtView>, pos: int) -> Parsed<
    Seq<StmtView>,
>
    decreases remaining(ts, pos), 1nat,
{
    match kind_at(ts, pos) {
        TokenView::RBrace => Ok((acc, pos + 1)),
        TokenView::Eof => Err(
            parser_error(line_at(ts, pos), unexpected_in_expression(TokenView::Eof)),
        ),
        _ => match parse_statement_spec(ts, pos) {
            Err(e) => Err(e),
            Ok((s, p)) => parse_block_rest_spec(ts, acc.push(s), after(pos, p)),
        },
    }
}

/// Parameter names with commas between them, added to `acc`.
pub open spec fn parse_params_spec(ts: Toks, acc: Seq<Name>, pos: int) -> Parsed<Seq<Name>>
    decreases remaining(ts, pos),
{
    match kind_at(ts, pos) {
        TokenView::Identifier(name) => if kind_at(ts, pos + 1) == TokenView::Comma {
            parse_params_spec(ts, acc.push(name), pos + 2)
        } else {
            Ok((acc.push(name), pos + 1))
        },
        t => Err(parser_error(line_at(ts, pos), "Expected parameter name, got "@ + kind_name(t))),
    }
}

/// `function name ( params ) { statements }`
pub open spec fn parse_function_spec(ts: Toks, pos: int) -> Parsed<FunctionView> {
    let line = line_at(ts, pos);
    match expect_spec(ts, pos, TokenView::Function) {
        Err(e) => Err(e),
        Ok(p0) => match kind_at(ts, p0) {
            TokenView::Identifier(name) => match expect_spec(ts, p0 + 1, TokenView::LParen) {
                Err(e) => Err(e),
                Ok(p1) => {
                    let params: Parsed<Seq<Name>> = if kind_at(ts, p1) == TokenView::RParen {
                        Ok((Seq::empty(), p1))
                    } else {
                        parse_params_spec(ts, Seq::empty(), p1)
                    };
                    match params {
                        Err(e) => Err(e),
                        Ok((params, p2)) => match expect_spec(ts, p2, TokenView::RParen) {
                            Err(e) => Err(e),
                            Ok(p3) => match expect_spec(ts, p3, TokenView::LBrace) {
                                Err(e) => Err(e),
                                Ok(p4) => match parse_block_rest_spec(ts, Seq::empty(), p4) {
                                    Err(e) => Err(e),
                                    Ok((body, p5)) => Ok(
                                        (
                                            FunctionView {
                                                name,
                                                params,
                                                param_types: None,
                                                return_type: None,
                                                body,
                                                line,
                                            },
                                            p5,
                                        ),
                                    ),
                                },
                            },
                        },
                    }
                },
            },
            t => Err(
                parser_error(line_at(ts, p0), "Expected function name, got "@ + kind_name(t)),
            ),
        },
    }
}

/// Functions and top-level statements from `pos` to the end of input.
pub open spec fn parse_program_rest_spec(
    ts: Toks,
    functions: Seq<FunctionView>,
    top_level: Seq<StmtView>,
    pos: int,
) -> Result<ProgramView, CompilerErrorView>
    decreases remaining(ts, pos),
{
    match kind_at(ts, pos) {
        TokenView::Eof => Ok(ProgramView { functions, top_level }),
        TokenView::Function => match parse_function_spec(ts, pos) {
            Err(e) => Err(e),
            Ok((f, p)) => parse_program_rest_spec(ts, functions.push(f), top_level, after(pos, p)),
        },
        _ => match parse_statement_spec(ts, pos) {
            Err(e) => Err(e),
            Ok((s, p)) => parse_program_rest_spec(ts, functions, top_level.push(s), after(pos, p)),
        },
    }
}

/// The program that a token stream denotes.
pub open spec fn parse_program_spec(ts: Toks) -> Result<ProgramView, CompilerErrorView> {
    parse_program_rest_spec(ts, Seq::empty(), Seq::empty(), 0)
}

/// An expression leaves off after where it began: the positions that the
/// grammar passes on are the positions that the rules left off at.
pub proof fn lemma_expr_forward(ts: Toks, pos: int)
    ensures
        parse_expr_spec(ts, pos) matches Ok((_, p)) ==> p > pos,
    decreases remaining(ts, pos), 11nat,
{
    lemma_level_forward(ts, pos, 0);
}

proof fn lemma_level_forward(ts: Toks, pos: int, level: int)
    ensures
        parse_level_spec(ts, pos, level) matches Ok((_, p)) ==> p > pos,
    decreases remaining(ts, pos), level_rank(level),
{
    if 0 <= level <= 5 {
        lemma_level_forward(ts, pos, level + 1);
        match parse_level_spec(ts, pos, level + 1) {
            Ok((left, p)) => {
                lemma_level_rest_forward(ts, left, after(pos, p), level);
            },
            Err(_) => {},
        }
    } else {
        lemma_unary_forward(ts, pos);
    }
}

proof fn lemma_level_rest_forward(ts: Toks, left: ExprView, pos: int, level: int)
    ensures
        level_rest_spec(ts, left, pos, level) matches Ok((_, p)) ==> p >= pos,
    decreases remaining(ts, pos), 0nat,
{
    match infix_at(level, kind_at(ts, pos)) {
        None => {},
        Some(op) => {
            lemma_level_forward(ts, pos + 1, level + 1);
            match parse_level_spec(ts, pos + 1, level + 1) {
                Ok((right, p)) => {
                    lemma_level_rest_forward(
                        ts,
                        make_infix(left, op, right),
                        after(pos + 1, p),
                        level,
                    );
                },
                Err(_) => {},
            }
        },
    }
}

proof fn lemma_unary_forward(ts: Toks, pos: int)
    ensures
        parse_unary_spec(ts, pos) matches Ok((_, p)) ==> p > pos,
    decreases remaining(ts, pos), 3nat,
{
    match kind_at(ts, pos) {
        TokenView::Minus => {
            lemma_unary_forward(ts, pos + 1);
        },
        TokenView::Bang => {
            lemma_unary_forward(ts, pos + 1);
        },
        _ => {
            lemma_primary_forward(ts, pos);
        },
    }
}

proof fn lemma_primary_forward(ts: Toks, pos: int)
    ensures
        parse_primary_spec(ts, pos) matches Ok((_, p)) ==> p > pos,
    decreases remaining(ts, pos), 2nat,
{
    match kind_at(ts, pos) {
        TokenView::Identifier(name) => {
            if kind_at(ts, pos + 1) == TokenView::LParen && kind_at(ts, pos + 2)
                != TokenView::RParen {
                lemma_args_forward(ts, Seq::empty(), pos + 2);
            }
        },
        TokenView::LParen => {
            lemma_expr_forward(ts, pos + 1);
        },
        _ => {},
    }
}

proof fn lemma_args_forward(ts: Toks, acc: Seq<ExprView>, pos: int)
    ensures
        parse_args_spec(ts, acc, pos) matches Ok((_, p)) ==> p > pos,
    decreases remaining(ts, pos), 12nat,
{
    lemma_expr_forward(ts, pos);
    match parse_expr_spec(ts, pos) {
        Ok((e, p0)) => {
            let p = after(pos, p0);
            if kind_at(ts, p) == TokenView::Comma {
                lemma_args_forward(ts, acc.push(e), p + 1);
            }
        },
        Err(_) => {},
    }
}

proof fn lemma_binding_forward(ts: Toks, pos: int)
    ensures
        parse_binding_spec(ts, pos) matches Ok((_, p)) ==> p > pos,
{
    match kind_at(ts, pos) {
        TokenView::Identifier(name) => {
            lemma_expr_forward(ts, pos + 2);
        },
        _ => {},
    }
}

proof fn lemma_expr_semi_forward(ts: Toks, pos: int)
    ensures
        parse_expr_semi_spec(ts, pos) matches Ok((_, p)) ==> p > pos,
{
    lemma_expr_forward(ts, pos);
}

proof fn lemma_condition_forward(ts: Toks, pos: int)
    ensures
        parse_condition_spec(ts, pos) matches Ok((_, p)) ==> p > pos,
{
    lemma_expr_forward(ts, pos + 1);
}

proof fn lemma_for_header_forward(ts: Toks, pos: int)
    ensures
        parse_for_header_spec(ts, pos) matches Ok((_, p)) ==> p > pos,
{
    match expect_spec(ts, pos, TokenView::LParen) {
        Ok(p1) => {
            lemma_binding_forward(ts, p1 + 1);
            lemma_binding_forward(ts, p1);
            match parse_for_init_spec(ts, p1) {
                Ok((init, p2)) => {
                    assert(p2 > p1);
                    lemma_expr_semi_forward(ts, p2);
                    match parse_for_cond_spec(ts, p2) {
                        Ok((cond, p3)) => {
                            assert(p3 > p2);
                            lemma_expr_forward(ts, p3 + 2);
                            lemma_expr_forward(ts, p3);
                        },
                        Err(_) => {},
                    }
                },
                Err(_) => {},
            }
        },
        Err(_) => {},
    }
}

proof fn lemma_simple_forward(ts: Toks, pos: int)
    ensures
        parse_simple_spec(ts, pos) matches Ok((_, p)) ==> p > pos,
{
    lemma_expr_semi_forward(ts, pos + 2);
    lemma_expr_semi_forward(ts, pos);
}

proof fn lemma_if_forward(ts: Toks, pos: int)
    ensures
        parse_if_spec(ts, pos) matches Ok((_, p)) ==> p > pos,
    decreases remaining(ts, pos), 2nat,
{
    lemma_condition_forward(ts, pos);
    match parse_condition_spec(ts, pos) {
        Ok((c, p0)) => {
            lemma_statement_forward(ts, after(pos, p0));
            match parse_statement_spec(ts, after(pos, p0)) {
                Ok((t, p1)) => {
                    let p2 = after(pos, p1);
                    if kind_at(ts, p2) == TokenView::Else {
                        lemma_statement_forward(ts, p2 + 1);
                    }
                },
                Err(_) => {},
            }
        },
        Err(_) => {},
    }
}

proof fn lemma_while_forward(ts: Toks, pos: int)
    ensures
        parse_while_spec(ts, pos) matches Ok((_, p)) ==> p > pos,
    decreases remaining(ts, pos), 2nat,
{
    lemma_condition_forward(ts, pos);
    match parse_condition_spec(ts, pos) {
        Ok((c, p0)) => {
            lemma_statement_forward(ts, after(pos, p0));
        },
        Err(_) => {},
    }
}

proof fn lemma_for_forward(ts: Toks, pos: int)
    ensures
        parse_for_spec(ts, pos) matches Ok((_, p)) ==> p > pos,
    decreases remaining(ts, pos), 2nat,
{
    lemma_for_header_forward(ts, pos);
    match parse_for_header_spec(ts, pos) {
        Ok((h, p0)) => {
            lemma_statement_forward(ts, after(pos, p0));
        },
        Err(_) => {},
    }
}

/// A statement leaves off after where it began.
pub proof fn lemma_statement_forward(ts: Toks, pos: int)
    ensures
        parse_statement_spec(ts, pos) matches Ok((_, p)) ==> p > pos,
    decreases remaining(ts, pos), 0nat,
{
    match statement_rule(kind_at(ts, pos)) {
        StatementRule::Let => {
            lemma_binding_forward(ts, pos + 1);
        },
        StatementRule::Const => {
            lemma_binding_forward(ts, pos + 1);
        },
        StatementRule::If => {
            lemma_if_forward(ts, pos + 1);
        },
        StatementRule::While => {
            lemma_while_forward(ts, pos + 1);
        },
        StatementRule::For => {
            lemma_for_forward(ts, pos + 1);
        },
        StatementRule::Block => {
            lemma_block_rest_forward(ts, Seq::empty(), pos + 1);
        },
        StatementRule::Return => {
            lemma_expr_semi_forward(ts, pos + 1);
        },
        StatementRule::Break => {},
        StatementRule::Continue => {},
        StatementRule::Simple => {
            lemma_simple_forward(ts, pos);
        },
    }
}

proof fn lemma_block_rest_forward(ts: Toks, acc: Seq<StmtView>, pos: int)
    ensures
        parse_block_rest_spec(ts, acc, pos) matches Ok((_, p)) ==> p > pos,
    decreases remaining(ts, pos), 1nat,
{
    match kind_at(ts, pos) {
        TokenView::RBrace => {},
        TokenView::Eof => {},
        _ => {
            lemma_statement_forward(ts, pos);
            match parse_statement_spec(ts, pos) {
                Ok((s, p)) => {
                    lemma_block_rest_forward(ts, acc.push(s), after(pos, p));
                },
                Err(_) => {},
            }
        },
    }
}

/// A function definition leaves off after where it began.
pub proof fn lemma_function_forward(ts: Toks, pos: int)
    ensures
        parse_function_spec(ts, pos) matches Ok((_, p)) ==> p > pos,
{
    match expect_spec(ts, pos, TokenView::Function) {
        Ok(p0) => match kind_at(ts, p0) {
            TokenView::Identifier(name) => match expect_spec(ts, p0 + 1, TokenView::LParen) {
                Ok(p1) => {
                    lemma_params_forward(ts, Seq::empty(), p1);
                    let params: Parsed<Seq<Name>> = if kind_at(ts, p1) == TokenView::RParen {
                        Ok((Seq::empty(), p1))
                    } else {
                        parse_params_spec(ts, Seq::empty(), p1)
                    };
                    match params {
                        Ok((ps, p2)) => {
                            lemma_block_rest_forward(ts, Seq::empty(), p2 + 2);
                        },
                        Err(_) => {},
                    }
                },
                Err(_) => {},
            },
            _ => {},
        },
        Err(_) => {},
    }
}

proof fn lemma_params_forward(ts: Toks, acc: Seq<Name>, pos: int)
    ensures
        parse_params_spec(ts, acc, pos) matches Ok((_, p)) ==> p > pos,
    decreases remaining(ts, pos),
{
    match kind_at(ts, pos) {
        TokenView::Identifier(name) => {
            if kind_at(ts, pos + 1) == TokenView::Comma {
                lemma_params_forward(ts, acc.push(name), pos + 2);
            }
        },
        _ => {},
    }
}

} // verus!
