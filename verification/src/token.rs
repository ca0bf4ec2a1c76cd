//! Tokens of the source language.

use crate::ast::Float;
use vstd::prelude::*;

verus! {

/// A terminal of the grammar.
#[derive(Debug, PartialEq)]
pub enum Token {
    Number(i32),
    Float(Float),
    Identifier(String),
    // Keywords
    Let,
    Const,
    Function,
    If,
    Else,
    While,
    For,
    Return,
    Break,
    Continue,
    // Operators
    Plus,
    Minus,
    Star,
    Slash,
    Percent,
    Bang,
    EqEq,
    BangEq,
    Lt,
    Gt,
    LtEq,
    GtEq,
    Eq,
    AndAnd,
    OrOr,
    // Delimiters
    LParen,
    RParen,
    LBrace,
    RBrace,
    Comma,
    Semicolon,
    /// A `.` that is not part of a number. No rule of the grammar takes it.
    Dot,
    Eof,
}

/// A token as contracts see it.
pub enum TokenView {
    Number(i32),
    Float(Float),
    Identifier(Seq<char>),
    Let,
    Const,
    Function,
    If,
    Else,
    While,
    For,
    Return,
    Break,
    Continue,
    Plus,
    Minus,
    Star,
    Slash,
    Percent,
    Bang,
    EqEq,
    BangEq,
    Lt,
    Gt,
    LtEq,
    GtEq,
    Eq,
    AndAnd,
    OrOr,
    LParen,
    RParen,
    LBrace,
    RBrace,
    Comma,
    Semicolon,
    Dot,
    Eof,
}

impl View for Token {
    type V = TokenView;

    open spec fn view(&self) -> TokenView {
        match self {
            Token::Number(n) => TokenView::Number(*n),
            Token::Float(x) => TokenView::Float(*x),
            Token::Identifier(s) => TokenView::Identifier(s@),
            Token::Let => TokenView::Let,
            Token::Const => TokenView::Const,
            Token::Function => TokenView::Function,
            Token::If => TokenView::If,
            Token::Else => TokenView::Else,
            Token::While => TokenView::While,
            Token::For => TokenView::For,
            Token::Return => TokenView::Return,
            Token::Break => TokenView::Break,
            Token::Continue => TokenView::Continue,
            Token::Plus => TokenView::Plus,
            Token::Minus => TokenView::Minus,
            Token::Star => TokenView::Star,
            Token::Slash => TokenView::Slash,
            Token::Percent => TokenView::Percent,
            Token::Bang => TokenView::Bang,
            Token::EqEq => TokenView::EqEq,
            Token::BangEq => TokenView::BangEq,
            Token::Lt => TokenView::Lt,
            Token::Gt => TokenView::Gt,
            Token::LtEq => TokenView::LtEq,
            Token::GtEq => TokenView::GtEq,
            Token::Eq => TokenView::Eq,
            Token::AndAnd => TokenView::AndAnd,
            Token::OrOr => TokenView::OrOr,
            Token::LParen => TokenView::LParen,
            Token::RParen => TokenView::RParen,
            Token::LBrace => TokenView::LBrace,
            Token::RBrace => TokenView::RBrace,
            Token::Comma => TokenView::Comma,
            Token::Semicolon => TokenView::Semicolon,
            Token::Dot => TokenView::Dot,
            Token::Eof => TokenView::Eof,
        }
    }
}

/// A token stream as contracts see it: each token with the line it starts on.
pub type Toks = Seq<(TokenView, usize)>;

/// The view of a token stream.
pub open spec fn tokens_view(ts: Seq<(Token, usize)>) -> Toks {
    Seq::new(ts.len(), |i: int| (ts[i].0@, ts[i].1))
}

/// Pushing a token extends the view by its view.
pub proof fn lemma_tokens_view_push(ts: Seq<(Token, usize)>, t: (Token, usize))
    ensures
        tokens_view(ts.push(t)) == tokens_view(ts).push((t.0@, t.1)),
{
    assert(tokens_view(ts.push(t)) =~= tokens_view(ts).push((t.0@, t.1)));
}

/// The kind of a token, as diagnostics name it.
pub open spec fn kind_name(t: TokenView) -> Seq<char> {
    match t {
        TokenView::Number(_) => "Number"@,
        TokenView::Float(_) => "Float"@,
        TokenView::Identifier(_) => "Identifier"@,
        TokenView::Let => "Let"@,
        TokenView::Const => "Const"@,
        TokenView::Function => "Function"@,
        TokenView::If => "If"@,
        TokenView::Else => "Else"@,
        TokenView::While => "While"@,
        TokenView::For => "For"@,
        TokenView::Return => "Return"@,
        TokenView::Break => "Break"@,
        TokenView::Continue => "Continue"@,
        TokenView::Plus => "Plus"@,
        TokenView::Minus => "Minus"@,
        TokenView::Star => "Star"@,
        TokenView::Slash => "Slash"@,
        TokenView::Percent => "Percent"@,
        TokenView::Bang => "Bang"@,
        TokenView::EqEq => "EqEq"@,
        TokenView::BangEq => "BangEq"@,
        TokenView::Lt => "Lt"@,
        TokenView::Gt => "Gt"@,
        TokenView::LtEq => "LtEq"@,
        TokenView::GtEq => "GtEq"@,
        TokenView::Eq => "Eq"@,
        TokenView::AndAnd => "AndAnd"@,
        TokenView::OrOr => "OrOr"@,
        TokenView::LParen => "LParen"@,
        TokenView::RParen => "RParen"@,
        TokenView::LBrace => "LBrace"@,
        TokenView::RBrace => "RBrace"@,
        TokenView::Comma => "Comma"@,
        TokenView::Semicolon => "Semicolon"@,
        TokenView::Dot => "Dot"@,
        TokenView::Eof => "Eof"@,
    }
}

impl Token {
    /// The kind of this token, as diagnostics name it.
    pub fn kind(&self) -> (s: &'static str)
        ensures
            s@ == kind_name(self@),
    {
        match self {
            Token::Number(_) => "Number",
            Token::Float(_) => "Float",
            Token::Identifier(_) => "Identifier",
            Token::Let => "Let",
            Token::Const => "Const",
            Token::Function => "Function",
            Token::If => "If",
            Token::Else => "Else",
            Token::While => "While",
            Token::For => "For",
            Token::Return => "Return",
            Token::Break => "Break",
            Token::Continue => "Continue",
            Token::Plus => "Plus",
            Token::Minus => "Minus",
            Token::Star => "Star",
            Token::Slash => "Slash",
            Token::Percent => "Percent",
            Token::Bang => "Bang",
            Token::EqEq => "EqEq",
            Token::BangEq => "BangEq",
            Token::Lt => "Lt",
            Token::Gt => "Gt",
            Token::LtEq => "LtEq",
            Token::GtEq => "GtEq",
            Token::Eq => "Eq",
            Token::AndAnd => "AndAnd",
            Token::OrOr => "OrOr",
            Token::LParen => "LParen",
            Token::RParen => "RParen",
            Token::LBrace => "LBrace",
            Token::RBrace => "RBrace",
            Token::Comma => "Comma",
            Token::Semicolon => "Semicolon",
            Token::Dot => "Dot",
            Token::Eof => "Eof",
        }
    }

    /// Whether two tokens are the same terminal with the same contents.
    pub fn same(&self, other: &Token) -> (r: bool)
        ensures
            r == (self@ == other@),
    {
        match (self, other) {
            (Token::Number(a), Token::Number(b)) => *a == *b,
            (Token::Float(a), Token::Float(b)) => a.bits == b.bits,
            (Token::Identifier(a), Token::Identifier(b)) => *a == *b,
            (Token::Let, Token::Let) => true,
            (Token::Const, Token::Const) => true,
            (Token::Function, Token::Function) => true,
            (Token::If, Token::If) => true,
            (Token::Else, Token::Else) => true,
            (Token::While, Token::While) => true,
            (Token::For, Token::For) => true,
            (Token::Return, Token::Return) => true,
            (Token::Break, Token::Break) => true,
            (Token::Continue, Token::Continue) => true,
            (Token::Plus, Token::Plus) => true,
            (Token::Minus, Token::Minus) => true,
            (Token::Star, Token::Star) => true,
            (Token::Slash, Token::Slash) => true,
            (Token::Percent, Token::Percent) => true,
            (Token::Bang, Token::Bang) => true,
            (Token::EqEq, Token::EqEq) => true,
            (Token::BangEq, Token::BangEq) => true,
            (Token::Lt, Token::Lt) => true,
            (Token::Gt, Token::Gt) => true,
            (Token::LtEq, Token::LtEq) => true,
            (Token::GtEq, Token::GtEq) => true,
            (Token::Eq, Token::Eq) => true,
            (Token::AndAnd, Token::AndAnd) => true,
            (Token::OrOr, Token::OrOr) => true,
            (Token::LParen, Token::LParen) => true,
            (Token::RParen, Token::RParen) => true,
            (Token::LBrace, Token::LBrace) => true,
            (Token::RBrace, Token::RBrace) => true,
            (Token::Comma, Token::Comma) => true,
            (Token::Semicolon, Token::Semicolon) => true,
            (Token::Dot, Token::Dot) => true,
            (Token::Eof, Token::Eof) => true,
            _ => false,
        }
    }
}

impl Clone for Token {
    fn clone(&self) -> (r: Self)
        ensures
            r@ == self@,
    {
        match self {
            Token::Number(n) => Token::Number(*n),
            Token::Float(x) => Token::Float(*x),
            Token::Identifier(s) => Token::Identifier(s.clone()),
            Token::Let => Token::Let,
            Token::Const => Token::Const,
            Token::Function => Token::Function,
            Token::If => Token::If,
            Token::Else => Token::Else,
            Token::While => Token::While,
            Token::For => Token::For,
            Token::Return => Token::Return,
            Token::Break => Token::Break,
            Token::Continue => Token::Continue,
            Token::Plus => Token::Plus,
            Token::Minus => Token::Minus,
            Token::Star => Token::Star,
            Token::Slash => Token::Slash,
            Token::Percent => Token::Percent,
            Token::Bang => Token::Bang,
            Token::EqEq => Token::EqEq,
            Token::BangEq => Token::BangEq,
            Token::Lt => Token::Lt,
            Token::Gt => Token::Gt,
            Token::LtEq => Token::LtEq,
            Token::GtEq => Token::GtEq,
            Token::Eq => Token::Eq,
            Token::AndAnd => Token::AndAnd,
            Token::OrOr => Token::OrOr,
            Token::LParen => Token::LParen,
            Token::RParen => Token::RParen,
            Token::LBrace => Token::LBrace,
            Token::RBrace => Token::RBrace,
            Token::Comma => Token::Comma,
            Token::Semicolon => Token::Semicolon,
            Token::Dot => Token::Dot,
            Token::Eof => Token::Eof,
        }
    }
}

} // verus!
