//! From characters to tokens.
//!
//! White space and comments separate tokens and are otherwise skipped. A
//! token is recorded with the line on which its first character stands.

use crate::ast::Float;
use crate::error::{lexer_error, CompilerError, CompilerErrorView};
use crate::float::{literal_bits, literal_exponent};
use crate::natural::{numeral_value, Natural};
use crate::text::push_text;
use crate::token::{lemma_tokens_view_push, tokens_view, TokenView, Toks};
pub use crate::token::Token;
use vstd::prelude::*;
use vstd::string::StringExecFns;

verus! {

/// Whether the character is a decimal digit.
pub open spec fn is_digit(c: char) -> bool {
    '0' <= c <= '9'
}

/// Whether the character is one of the letters `a` to `z` and `A` to `Z`.
pub open spec fn is_letter(c: char) -> bool {
    ('a' <= c <= 'z') || ('A' <= c <= 'Z')
}

/// Whether an identifier may begin with the character.
pub open spec fn is_ident_start(c: char) -> bool {
    is_letter(c) || c == '_'
}

/// Whether an identifier may go on with the character.
pub open spec fn is_ident_char(c: char) -> bool {
    is_letter(c) || c == '_' || is_digit(c)
}

/// Whether the character is white space: the characters with the Unicode
/// property `White_Space`. These are the tab, the line feed, the vertical
/// tab, the form feed, the carriage return and the space; the next line
/// (U+0085) and the no-break space (U+00A0); the Ogham space mark
/// (U+1680); the spaces from the en quad to the hair space (U+2000 to
/// U+200A); the line and paragraph separators (U+2028, U+2029); the
/// narrow no-break space (U+202F), the medium mathematical space (U+205F)
/// and the ideographic space (U+3000).
pub open spec fn is_space(c: char) -> bool {
    ||| '\u{9}' <= c <= '\u{D}'
    ||| c == ' '
    ||| c == '\u{85}'
    ||| c == '\u{A0}'
    ||| c == '\u{1680}'
    ||| '\u{2000}' <= c <= '\u{200A}'
    ||| c == '\u{2028}'
    ||| c == '\u{2029}'
    ||| c == '\u{202F}'
    ||| c == '\u{205F}'
    ||| c == '\u{3000}'
}

/// The number of the next line. The count stops at the largest `usize`.
pub open spec fn next_line(line: usize) -> usize {
    if line < usize::MAX {
        (line + 1) as usize
    } else {
        line
    }
}

/// The line of the character after `c`, where `c` stands on `line`.
pub open spec fn line_after(c: char, line: usize) -> usize {
    if c == '\n' {
        next_line(line)
    } else {
        line
    }
}

/// Whether the character at `i` is `c`.
pub open spec fn has(s: Seq<char>, i: int, c: char) -> bool {
    0 <= i < s.len() && s[i] == c
}

/// The position and line after the white space that starts at `pos`.
pub open spec fn skip_space(s: Seq<char>, pos: int, line: usize) -> (int, usize)
    decreases s.len() - pos,
{
    if 0 <= pos < s.len() && is_space(s[pos]) {
        skip_space(s, pos + 1, line_after(s[pos], line))
    } else {
        (pos, line)
    }
}

/// The position of the first line feed from `pos` on, or the end of input.
pub open spec fn line_end(s: Seq<char>, pos: int) -> int
    decreases s.len() - pos,
{
    if 0 <= pos < s.len() && s[pos] != '\n' {
        line_end(s, pos + 1)
    } else {
        pos
    }
}

/// The position and line after the first `*/` from `pos` on, if there is one.
pub open spec fn comment_end(s: Seq<char>, pos: int, line: usize) -> Option<(int, usize)>
    decreases s.len() - pos,
{
    if 0 <= pos < s.len() {
        if s[pos] == '*' && has(s, pos + 1, '/') {
            Some((pos + 2, line))
        } else {
            comment_end(s, pos + 1, line_after(s[pos], line))
        }
    } else {
        None
    }
}

/// The position after the digits that start at `pos`.
pub open spec fn digits_end(s: Seq<char>, pos: int) -> int
    decreases s.len() - pos,
{
    if 0 <= pos < s.len() && is_digit(s[pos]) {
        digits_end(s, pos + 1)
    } else {
        pos
    }
}

/// The position after the letters, digits and `_` that start at `pos`.
pub open spec fn ident_end(s: Seq<char>, pos: int) -> int
    decreases s.len() - pos,
{
    if 0 <= pos < s.len() && is_ident_char(s[pos]) {
        ident_end(s, pos + 1)
    } else {
        pos
    }
}

/// White space ends at or behind where it begins, within the text.
pub proof fn lemma_skip_space_forward(s: Seq<char>, pos: int, line: usize)
    requires
        0 <= pos <= s.len(),
    ensures
        pos <= skip_space(s, pos, line).0 <= s.len(),
    decreases s.len() - pos,
{
    if pos < s.len() && is_space(s[pos]) {
        lemma_skip_space_forward(s, pos + 1, line_after(s[pos], line));
    }
}

/// A line ends at or behind any place in it, within the text.
pub proof fn lemma_line_end_forward(s: Seq<char>, pos: int)
    requires
        0 <= pos <= s.len(),
    ensures
        pos <= line_end(s, pos) <= s.len(),
    decreases s.len() - pos,
{
    if pos < s.len() && s[pos] != '\n' {
        lemma_line_end_forward(s, pos + 1);
    }
}

/// A block comment that is closed ends behind the two characters that
/// close it, within the text.
pub proof fn lemma_comment_end_forward(s: Seq<char>, pos: int, line: usize)
    requires
        0 <= pos <= s.len(),
    ensures
        comment_end(s, pos, line) matches Some((p, l)) ==> pos + 2 <= p <= s.len(),
    decreases s.len() - pos,
{
    if pos < s.len() && !(s[pos] == '*' && has(s, pos + 1, '/')) {
        lemma_comment_end_forward(s, pos + 1, line_after(s[pos], line));
    }
}

/// A run of digits ends within the text, and behind its first digit
/// where it has one.
pub proof fn lemma_digits_end_forward(s: Seq<char>, pos: int)
    requires
        0 <= pos <= s.len(),
    ensures
        pos <= digits_end(s, pos) <= s.len(),
        pos < s.len() && is_digit(s[pos]) ==> pos < digits_end(s, pos),
    decreases s.len() - pos,
{
    if pos < s.len() && is_digit(s[pos]) {
        lemma_digits_end_forward(s, pos + 1);
    }
}

/// An identifier ends at or behind any place in it, within the text.
pub proof fn lemma_ident_end_forward(s: Seq<char>, pos: int)
    requires
        0 <= pos <= s.len(),
    ensures
        pos <= ident_end(s, pos) <= s.len(),
    decreases s.len() - pos,
{
    if pos < s.len() && is_ident_char(s[pos]) {
        lemma_ident_end_forward(s, pos + 1);
    }
}

/// The token that a word is: a keyword, or else an identifier.
pub open spec fn word_token(w: Seq<char>) -> TokenView {
    if w == "let"@ {
        TokenView::Let
    } else if w == "const"@ {
        TokenView::Const
    } else if w == "function"@ {
        TokenView::Function
    } else if w == "if"@ {
        TokenView::If
    } else if w == "else"@ {
        TokenView::Else
    } else if w == "while"@ {
        TokenView::While
    } else if w == "for"@ {
        TokenView::For
    } else if w == "return"@ {
        TokenView::Return
    } else if w == "break"@ {
        TokenView::Break
    } else if w == "continue"@ {
        TokenView::Continue
    } else {
        TokenView::Identifier(w)
    }
}

/// A token and the position after it, or an error.
pub type Lexed = Result<(TokenView, int), CompilerErrorView>;

/// The message for a character that starts no token.
pub open spec fn unexpected_character(c: char) -> Seq<char> {
    "Unexpected character: "@.push(c)
}

/// The operator or delimiter at `p`.
pub open spec fn operator_at(s: Seq<char>, p: int, line: usize) -> Lexed {
    let c = s[p];
    let eq = has(s, p + 1, '=');
    if c == '+' {
        Ok((TokenView::Plus, p + 1))
    } else if c == '-' {
        Ok((TokenView::Minus, p + 1))
    } else if c == '*' {
        Ok((TokenView::Star, p + 1))
    } else if c == '/' {
        Ok((TokenView::Slash, p + 1))
    } else if c == '%' {
        Ok((TokenView::Percent, p + 1))
    } else if c == '(' {
        Ok((TokenView::LParen, p + 1))
    } else if c == ')' {
        Ok((TokenView::RParen, p + 1))
    } else if c == '{' {
        Ok((TokenView::LBrace, p + 1))
    } else if c == '}' {
        Ok((TokenView::RBrace, p + 1))
    } else if c == ',' {
        Ok((TokenView::Comma, p + 1))
    } else if c == ';' {
        Ok((TokenView::Semicolon, p + 1))
    } else if c == '.' {
        Ok((TokenView::Dot, p + 1))
    } else if c == '!' {
        if eq {
            Ok((TokenView::BangEq, p + 2))
        } else {
            Ok((TokenView::Bang, p + 1))
        }
    } else if c == '=' {
        if eq {
            Ok((TokenView::EqEq, p + 2))
        } else {
            Ok((TokenView::Eq, p + 1))
        }
    } else if c == '<' {
        if eq {
            Ok((TokenView::LtEq, p + 2))
        } else {
            Ok((TokenView::Lt, p + 1))
        }
    } else if c == '>' {
        if eq {
            Ok((TokenView::GtEq, p + 2))
        } else {
            Ok((TokenView::Gt, p + 1))
        }
    } else if c == '&' && has(s, p + 1, '&') {
        Ok((TokenView::AndAnd, p + 2))
    } else if c == '|' && has(s, p + 1, '|') {
        Ok((TokenView::OrOr, p + 2))
    } else {
        Err(lexer_error(line, unexpected_character(c)))
    }
}

/// Whether the `.` at `dot`, after the digits of a number, belongs to the
/// number: it does unless a letter other than an exponent marker, or `_`,
/// follows it.
pub open spec fn takes_dot(s: Seq<char>, dot: int) -> bool {
    has(s, dot, '.') && (dot + 1 >= s.len() || {
        let d = s[dot + 1];
        is_digit(d) || d == 'e' || d == 'E' || !is_ident_start(d)
    })
}

/// Whether a number starts at `p`: at a digit, or at a `.` before a digit.
pub open spec fn number_starts(s: Seq<char>, p: int) -> bool {
    0 <= p < s.len() && (is_digit(s[p]) || (s[p] == '.' && p + 1 < s.len() && is_digit(s[p + 1])))
}

/// Where the parts of the number that starts at `p` lie.
pub struct NumberShape {
    pub int_end: int,
    pub has_dot: bool,
    pub frac_start: int,
    pub frac_end: int,
    pub has_exp: bool,
    pub exp_negative: bool,
    pub exp_start: int,
    pub exp_end: int,
}

/// Where the digits, the point and the exponent of a number lie.
pub open spec fn number_shape(s: Seq<char>, p: int) -> NumberShape {
    let int_end = digits_end(s, p);
    let has_dot = takes_dot(s, int_end);
    let frac_start = if has_dot {
        int_end + 1
    } else {
        int_end
    };
    let frac_end = if has_dot {
        digits_end(s, frac_start)
    } else {
        int_end
    };
    let has_exp = has(s, frac_end, 'e') || has(s, frac_end, 'E');
    let exp_negative = has_exp && has(s, frac_end + 1, '-');
    let exp_start = if !has_exp {
        frac_end
    } else if has(s, frac_end + 1, '-') || has(s, frac_end + 1, '+') {
        frac_end + 2
    } else {
        frac_end + 1
    };
    let exp_end = if has_exp {
        digits_end(s, exp_start)
    } else {
        frac_end
    };
    NumberShape {
        int_end,
        has_dot,
        frac_start,
        frac_end,
        has_exp,
        exp_negative,
        exp_start,
        exp_end,
    }
}

/// The number that starts at `p`.
pub open spec fn number_at(s: Seq<char>, p: int, line: usize) -> Lexed {
    let n = number_shape(s, p);
    if !n.has_dot && !n.has_exp {
        let v = numeral_value(s.subrange(p, n.int_end));
        if v <= i32::MAX {
            Ok((TokenView::Number(v as i32), n.int_end))
        } else {
            Err(lexer_error(line, "Integer literal out of range"@))
        }
    } else if n.has_exp && n.exp_end == n.exp_start {
        Err(lexer_error(line, "Missing digits in exponent"@))
    } else {
        match literal_bits(
            numeral_value(s.subrange(p, n.int_end) + s.subrange(n.frac_start, n.frac_end)),
            literal_exponent(
                (n.frac_end - n.frac_start) as usize,
                n.exp_negative,
                numeral_value(s.subrange(n.exp_start, n.exp_end)),
            ),
        ) {
            Some(bits) => Ok((TokenView::Float(Float { bits }), n.exp_end)),
            None => Err(lexer_error(line, "Float literal out of range"@)),
        }
    }
}

/// The token that starts at `p`, which holds neither white space nor the
/// start of a comment.
pub open spec fn token_at(s: Seq<char>, p: int, line: usize) -> Lexed {
    if number_starts(s, p) {
        number_at(s, p, line)
    } else if is_ident_start(s[p]) {
        let e = ident_end(s, p);
        Ok((word_token(s.subrange(p, e)), e))
    } else {
        operator_at(s, p, line)
    }
}

/// A token with its line, and the position and line after it.
pub type Step = Result<((TokenView, usize), int, usize), CompilerErrorView>;

/// The next token from `pos` on, after white space and comments.
pub open spec fn next_token_spec(s: Seq<char>, pos: int, line: usize) -> Step
    decreases s.len() - pos,
{
    if 0 <= pos <= s.len() {
        let (p, l) = skip_space(s, pos, line);
        if p >= s.len() {
            Ok(((TokenView::Eof, l), p, l))
        } else if s[p] == '/' && has(s, p + 1, '/') {
            proof {
                lemma_skip_space_forward(s, pos, line);
                lemma_line_end_forward(s, p + 2);
            }
            next_token_spec(s, line_end(s, p + 2), l)
        } else if s[p] == '/' && has(s, p + 1, '*') {
            match comment_end(s, p + 2, l) {
                None => Err(lexer_error(l, "Unterminated block comment"@)),
                Some((p2, l2)) => {
                    proof {
                        lemma_skip_space_forward(s, pos, line);
                        lemma_comment_end_forward(s, p + 2, l);
                    }
                    next_token_spec(s, p2, l2)
                },
            }
        } else {
            match token_at(s, p, l) {
                Err(e) => Err(e),
                Ok((t, p2)) => Ok(((t, l), p2, l)),
            }
        }
    } else {
        Ok(((TokenView::Eof, line), pos, line))
    }
}

/// A token that is not the end of input ends after the position it was
/// looked for at, and within the input.
pub proof fn lemma_next_token_forward(s: Seq<char>, pos: int, line: usize)
    requires
        0 <= pos <= s.len(),
    ensures
        next_token_spec(s, pos, line) matches Ok((t, p, l)) ==> pos <= p <= s.len() && (t.0
            != TokenView::Eof ==> pos < p),
    decreases s.len() - pos,
{
    let (p, l) = skip_space(s, pos, line);
    lemma_skip_space_forward(s, pos, line);
    if p >= s.len() {
    } else if s[p] == '/' && has(s, p + 1, '/') {
        lemma_line_end_forward(s, p + 2);
        lemma_next_token_forward(s, line_end(s, p + 2), l);
    } else if s[p] == '/' && has(s, p + 1, '*') {
        lemma_comment_end_forward(s, p + 2, l);
        match comment_end(s, p + 2, l) {
            None => {},
            Some((p2, l2)) => {
                lemma_next_token_forward(s, p2, l2);
            },
        }
    } else {
        lemma_token_at_forward(s, p, l);
    }
}

/// The parts of a number lie in order, within the input, and the number
/// is not empty.
pub proof fn lemma_number_shape(s: Seq<char>, p: int)
    requires
        number_starts(s, p),
    ensures
        ({
            let n = number_shape(s, p);
            &&& p <= n.int_end <= n.frac_start <= n.frac_end <= s.len()
            &&& n.frac_end <= n.exp_start
            &&& n.exp_start <= s.len() ==> n.exp_start <= n.exp_end <= s.len()
            &&& !n.has_exp ==> n.exp_end <= s.len()
            &&& p < n.frac_end
            &&& n.frac_start <= n.int_end + 1
        }),
{
    let n = number_shape(s, p);
    lemma_digits_end_forward(s, p);
    if n.has_dot {
        lemma_digits_end_forward(s, n.frac_start);
    }
    if n.has_exp && n.exp_start <= s.len() {
        lemma_digits_end_forward(s, n.exp_start);
    }
}

/// A token ends after the position it starts at, and within the input.
pub proof fn lemma_token_at_forward(s: Seq<char>, p: int, line: usize)
    requires
        0 <= p < s.len(),
    ensures
        token_at(s, p, line) matches Ok((t, p2)) ==> p < p2 <= s.len(),
{
    if number_starts(s, p) {
        lemma_number_shape(s, p);
    } else if is_ident_start(s[p]) {
        lemma_ident_end_forward(s, p + 1);
    }
}

/// All tokens from `pos` on, added to `acc`; the last is the end of input.
pub open spec fn tokenize_from(s: Seq<char>, acc: Toks, pos: int, line: usize) -> Result<
    Toks,
    CompilerErrorView,
>
    decreases s.len() - pos,
{
    if 0 <= pos <= s.len() {
        match next_token_spec(s, pos, line) {
            Err(e) => Err(e),
            Ok((t, p, l)) => if t.0 == TokenView::Eof {
                Ok(acc.push(t))
            } else {
                proof {
                    lemma_next_token_forward(s, pos, line);
                }
                tokenize_from(s, acc.push(t), p, l)
            },
        }
    } else {
        Ok(acc.push((TokenView::Eof, line)))
    }
}

/// Whether the end of input is the last token, and no other.
pub open spec fn ends_with_eof(ts: Toks) -> bool {
    &&& ts.len() > 0
    &&& ts.last().0 == TokenView::Eof
    &&& forall|i: int| 0 <= i < ts.len() - 1 ==> (#[trigger] ts[i]).0 != TokenView::Eof
}

/// What `tokenize_from` adds to `acc` ends with the end of input, which
/// it adds nowhere else.
pub proof fn lemma_tokenize_from_ends_with_eof(s: Seq<char>, acc: Toks, pos: int, line: usize)
    requires
        forall|i: int| 0 <= i < acc.len() ==> (#[trigger] acc[i]).0 != TokenView::Eof,
        tokenize_from(s, acc, pos, line) is Ok,
    ensures
        ends_with_eof(tokenize_from(s, acc, pos, line)->Ok_0),
    decreases s.len() - pos,
{
    if 0 <= pos <= s.len() {
        match next_token_spec(s, pos, line) {
            Err(e) => {},
            Ok((t, p, l)) => {
                if t.0 != TokenView::Eof {
                    lemma_next_token_forward(s, pos, line);
                    lemma_tokenize_from_ends_with_eof(s, acc.push(t), p, l);
                }
            },
        }
    }
}

/// A token stream ends with the end of input, which stands nowhere else
/// in it.
pub proof fn lemma_tokens_end_with_eof(s: Seq<char>)
    requires
        tokenize_spec(s) is Ok,
    ensures
        ends_with_eof(tokenize_spec(s)->Ok_0),
{
    lemma_tokenize_from_ends_with_eof(s, Seq::empty(), 0, 1);
}

/// The tokens of a source text.
pub open spec fn tokenize_spec(s: Seq<char>) -> Result<Toks, CompilerErrorView> {
    tokenize_from(s, Seq::empty(), 0, 1)
}


/// Whether `res`, with the lexer left at `pos`, is what `spec` gives.
pub open spec fn lexed_ok(spec: Lexed, res: Result<Token, CompilerError>, pos: int) -> bool {
    match spec {
        Ok((t, p)) => res is Ok && res->Ok_0@ == t && pos == p,
        Err(e) => res is Err && res->Err_0@ == e,
    }
}

/// Whether `res`, with the lexer left at `pos` on `line`, is what `spec` gives.
pub open spec fn step_ok(
    spec: Step,
    res: Result<(Token, usize), CompilerError>,
    pos: int,
    line: usize,
) -> bool {
    match spec {
        Ok((t, p, l)) => res is Ok && res->Ok_0.0@ == t.0 && res->Ok_0.1 == t.1 && pos == p && line
            == l,
        Err(e) => res is Err && res->Err_0@ == e,
    }
}

/// Whether `res` is the token stream that `spec` gives.
pub open spec fn tokens_ok(
    spec: Result<Toks, CompilerErrorView>,
    res: Result<Vec<(Token, usize)>, CompilerError>,
) -> bool {
    match spec {
        Ok(ts) => res is Ok && tokens_view(res->Ok_0@) == ts,
        Err(e) => res is Err && res->Err_0@ == e,
    }
}

fn char_is_digit(c: char) -> (r: bool)
    ensures
        r == is_digit(c),
{
    '0' <= c && c <= '9'
}

fn char_is_ident_start(c: char) -> (r: bool)
    ensures
        r == is_ident_start(c),
{
    ('a' <= c && c <= 'z') || ('A' <= c && c <= 'Z') || c == '_'
}

fn char_is_space(c: char) -> (r: bool)
    ensures
        r == is_space(c),
{
    ('\u{9}' <= c && c <= '\u{D}') || c == ' ' || c == '\u{85}' || c == '\u{A0}' || c
        == '\u{1680}' || ('\u{2000}' <= c && c <= '\u{200A}') || c == '\u{2028}' || c
        == '\u{2029}' || c == '\u{202F}' || c == '\u{205F}' || c == '\u{3000}'
}

/// The token that a word is: a keyword, or else an identifier.
fn word_to_token(word: String) -> (t: Token)
    ensures
        t@ == word_token(word@),
{
    if word == String::from_str("let") {
        Token::Let
    } else if word == String::from_str("const") {
        Token::Const
    } else if word == String::from_str("function") {
        Token::Function
    } else if word == String::from_str("if") {
        Token::If
    } else if word == String::from_str("else") {
        Token::Else
    } else if word == String::from_str("while") {
        Token::While
    } else if word == String::from_str("for") {
        Token::For
    } else if word == String::from_str("return") {
        Token::Return
    } else if word == String::from_str("break") {
        Token::Break
    } else if word == String::from_str("continue") {
        Token::Continue
    } else {
        Token::Identifier(word)
    }
}

fn literal_error(line: usize, message: &str) -> (e: CompilerError)
    ensures
        e@ == lexer_error(line, message@),
{
    CompilerError::lexer(line, String::from_str(message))
}

/// A lexer over the characters of a source text, with the position and
/// line it has read up to.
pub struct Lexer {
    input: Vec<char>,
    pos: usize,
    line: usize,
}

impl Lexer {
    /// The characters that this lexer reads.
    pub closed spec fn source(&self) -> Seq<char> {
        self.input@
    }

    /// The index of the next character to read.
    pub closed spec fn position(&self) -> int {
        self.pos as int
    }

    /// The line of the next character to read, counted from 1.
    pub closed spec fn line(&self) -> usize {
        self.line
    }

    /// The position lies within the input.
    pub closed spec fn wf(&self) -> bool {
        self.pos <= self.input.len()
    }

    /// A lexer at the start of `input`, on line 1.
    pub fn new(input: &str) -> (l: Lexer)
        ensures
            l.wf(),
            l.source() == input@,
            l.position() == 0,
            l.line() == 1,
    {
        let mut chars: Vec<char> = Vec::new();
        for c in it: input.chars()
            invariant
                chars@ == it.seq().take(it.index() as int),
                it.seq() == input@,
        {
            chars.push(c);
        }
        Lexer { input: chars, pos: 0, line: 1 }
    }

    /// Whether the character `offset` places ahead is `c`.
    fn has(&self, offset: usize, c: char) -> (r: bool)
        requires
            self.wf(),
        ensures
            r == has(self.source(), self.position() + offset, c),
    {
        offset < self.input.len() - self.pos && self.input[self.pos + offset] == c
    }

    /// Steps over one character.
    fn advance(&mut self) -> (c: char)
        requires
            old(self).wf(),
            old(self).position() < old(self).source().len(),
        ensures
            final(self).wf(),
            final(self).source() == old(self).source(),
            c == old(self).source()[old(self).position()],
            final(self).position() == old(self).position() + 1,
            final(self).line() == line_after(c, old(self).line()),
    {
        let c = self.input[self.pos];
        self.pos = self.pos + 1;
        if c == '\n' && self.line < usize::MAX {
            self.line = self.line + 1;
        }
        c
    }

    fn skip_whitespace(&mut self)
        requires
            old(self).wf(),
        ensures
            final(self).wf(),
            final(self).source() == old(self).source(),
            (final(self).position(), final(self).line()) == skip_space(
                old(self).source(),
                old(self).position(),
                old(self).line(),
            ),
    {
        while self.pos < self.input.len() && char_is_space(self.input[self.pos])
            invariant
                self.wf(),
                self.source() == old(self).source(),
                skip_space(self.source(), self.position(), self.line()) == skip_space(
                    old(self).source(),
                    old(self).position(),
                    old(self).line(),
                ),
            decreases self.input.len() - self.pos,
        {
            self.advance();
        }
    }

    /// Steps to the end of the line.
    fn skip_line_comment(&mut self)
        requires
            old(self).wf(),
        ensures
            final(self).wf(),
            final(self).source() == old(self).source(),
            final(self).line() == old(self).line(),
            final(self).position() == line_end(old(self).source(), old(self).position()),
    {
        while self.pos < self.input.len() && self.input[self.pos] != '\n'
            invariant
                self.wf(),
                self.source() == old(self).source(),
                self.line() == old(self).line(),
                line_end(self.source(), self.position()) == line_end(
                    old(self).source(),
                    old(self).position(),
                ),
            decreases self.input.len() - self.pos,
        {
            self.pos = self.pos + 1;
        }
    }

    /// Steps over a block comment, from behind its opening `/*`.
    fn skip_block_comment(&mut self, start_line: usize) -> (res: Result<(), CompilerError>)
        requires
            old(self).wf(),
        ensures
            final(self).wf(),
            final(self).source() == old(self).source(),
            match comment_end(old(self).source(), old(self).position(), old(self).line()) {
                Some((p, l)) => res is Ok && final(self).position() == p && final(self).line() == l,
                None => res is Err && res->Err_0@ == lexer_error(
                    start_line,
                    "Unterminated block comment"@,
                ),
            },
    {
        loop
            invariant
                self.wf(),
                self.source() == old(self).source(),
                comment_end(self.source(), self.position(), self.line()) == comment_end(
                    old(self).source(),
                    old(self).position(),
                    old(self).line(),
                ),
            decreases self.input.len() - self.pos,
        {
            if self.pos >= self.input.len() {
                return Err(literal_error(start_line, "Unterminated block comment"));
            }
            if self.has(0, '*') && self.has(1, '/') {
                self.pos = self.pos + 2;
                return Ok(());
            }
            self.advance();
        }
    }

    /// Steps over digits.
    fn skip_digits(&mut self)
        requires
            old(self).wf(),
        ensures
            final(self).wf(),
            final(self).source() == old(self).source(),
            final(self).line() == old(self).line(),
            final(self).position() == digits_end(old(self).source(), old(self).position()),
    {
        while self.pos < self.input.len() && char_is_digit(self.input[self.pos])
            invariant
                self.wf(),
                self.source() == old(self).source(),
                self.line() == old(self).line(),
                digits_end(self.source(), self.position()) == digits_end(
                    old(self).source(),
                    old(self).position(),
                ),
            decreases self.input.len() - self.pos,
        {
            self.pos = self.pos + 1;
        }
    }

    /// Whether a `.` that belongs to the number stands here.
    fn at_dot_of_number(&self) -> (r: bool)
        requires
            self.wf(),
        ensures
            r == takes_dot(self.source(), self.position()),
    {
        if !self.has(0, '.') {
            return false;
        }
        if self.input.len() - self.pos <= 1 {
            return true;
        }
        let d = self.input[self.pos + 1];
        char_is_digit(d) || d == 'e' || d == 'E' || !char_is_ident_start(d)
    }

    /// Reads the number that starts here.
    fn read_number(&mut self) -> (res: Result<Token, CompilerError>)
        requires
            old(self).wf(),
            number_starts(old(self).source(), old(self).position()),
        ensures
            final(self).wf(),
            final(self).source() == old(self).source(),
            final(self).line() == old(self).line(),
            lexed_ok(
                number_at(old(self).source(), old(self).position(), old(self).line()),
                res,
                final(self).position(),
            ),
    {
        let ghost s = self.source();
        let ghost shape = number_shape(s, self.position());
        proof {
            lemma_number_shape(s, self.position());
        }
        let line = self.line;
        let start = self.pos;
        self.skip_digits();
        let int_end = self.pos;
        let has_dot = self.at_dot_of_number();
        if has_dot {
            self.pos = self.pos + 1;
        }
        let frac_start = self.pos;
        if has_dot {
            self.skip_digits();
        }
        let frac_end = self.pos;
        let has_exp = self.has(0, 'e') || self.has(0, 'E');
        if !has_dot && !has_exp {
            let value = Natural::from_numeral(&self.input, start, int_end).to_u128();
            proof {
                crate::natural::lemma_pow10_30();
            }
            return match value {
                Some(v) => if v <= 2147483647 {
                    Ok(Token::Number(v as i32))
                } else {
                    Err(literal_error(line, "Integer literal out of range"))
                },
                None => Err(literal_error(line, "Integer literal out of range")),
            };
        }
        let mut exp_negative = false;
        if has_exp {
            if self.has(1, '-') {
                exp_negative = true;
                self.pos = self.pos + 2;
            } else if self.has(1, '+') {
                self.pos = self.pos + 2;
            } else {
                self.pos = self.pos + 1;
            }
        }
        let exp_start = self.pos;
        if has_exp {
            self.skip_digits();
        }
        let exp_end = self.pos;
        if has_exp && exp_end == exp_start {
            return Err(literal_error(line, "Missing digits in exponent"));
        }
        let digits = Natural::from_numeral_pair(&self.input, start, int_end, frac_start, frac_end);
        let exp = Natural::from_numeral(&self.input, exp_start, exp_end);
        match Float::from_literal(&digits, frac_end - frac_start, exp_negative, &exp) {
            Some(f) => Ok(Token::Float(f)),
            None => Err(literal_error(line, "Float literal out of range")),
        }
    }

    /// Reads the letters, digits and `_` that start here.
    fn read_identifier(&mut self) -> (word: String)
        requires
            old(self).wf(),
        ensures
            final(self).wf(),
            final(self).source() == old(self).source(),
            final(self).line() == old(self).line(),
            final(self).position() == ident_end(old(self).source(), old(self).position()),
            word@ == old(self).source().subrange(old(self).position(), final(self).position()),
    {
        let mut word = String::new();
        while self.pos < self.input.len() && (char_is_ident_start(self.input[self.pos])
            || char_is_digit(self.input[self.pos]))
            invariant
                self.wf(),
                self.source() == old(self).source(),
                self.line() == old(self).line(),
                old(self).position() <= self.position(),
                ident_end(self.source(), self.position()) == ident_end(
                    old(self).source(),
                    old(self).position(),
                ),
                word@ == self.source().subrange(old(self).position(), self.position()),
            decreases self.input.len() - self.pos,
        {
            word.push(self.input[self.pos]);
            self.pos = self.pos + 1;
            assert(word@ =~= self.source().subrange(old(self).position(), self.position()));
        }
        assert(word@ =~= self.source().subrange(old(self).position(), self.position()));
        word
    }

    /// Reads the operator or delimiter that starts here.
    fn read_operator(&mut self) -> (res: Result<Token, CompilerError>)
        requires
            old(self).wf(),
            old(self).position() < old(self).source().len(),
        ensures
            final(self).wf(),
            final(self).source() == old(self).source(),
            final(self).line() == old(self).line(),
            lexed_ok(
                operator_at(old(self).source(), old(self).position(), old(self).line()),
                res,
                final(self).position(),
            ),
    {
        let c = self.input[self.pos];
        let eq = self.has(1, '=');
        let (tok, width): (Token, usize) = if c == '+' {
            (Token::Plus, 1)
        } else if c == '-' {
            (Token::Minus, 1)
        } else if c == '*' {
            (Token::Star, 1)
        } else if c == '/' {
            (Token::Slash, 1)
        } else if c == '%' {
            (Token::Percent, 1)
        } else if c == '(' {
            (Token::LParen, 1)
        } else if c == ')' {
            (Token::RParen, 1)
        } else if c == '{' {
            (Token::LBrace, 1)
        } else if c == '}' {
            (Token::RBrace, 1)
        } else if c == ',' {
            (Token::Comma, 1)
        } else if c == ';' {
            (Token::Semicolon, 1)
        } else if c == '.' {
            (Token::Dot, 1)
        } else if c == '!' {
            if eq {
                (Token::BangEq, 2)
            } else {
                (Token::Bang, 1)
            }
        } else if c == '=' {
            if eq {
                (Token::EqEq, 2)
            } else {
                (Token::Eq, 1)
            }
        } else if c == '<' {
            if eq {
                (Token::LtEq, 2)
            } else {
                (Token::Lt, 1)
            }
        } else if c == '>' {
            if eq {
                (Token::GtEq, 2)
            } else {
                (Token::Gt, 1)
            }
        } else if c == '&' && self.has(1, '&') {
            (Token::AndAnd, 2)
        } else if c == '|' && self.has(1, '|') {
            (Token::OrOr, 2)
        } else {
            let mut msg = String::new();
            push_text(&mut msg, "Unexpected character: ");
            msg.push(c);
            assert(msg@ =~= unexpected_character(c));
            return Err(CompilerError::lexer(self.line, msg));
        };
        self.pos = self.pos + width;
        Ok(tok)
    }

    /// Reads the token that starts here, where neither white space nor a
    /// comment does.
    fn read_token(&mut self) -> (res: Result<Token, CompilerError>)
        requires
            old(self).wf(),
            old(self).position() < old(self).source().len(),
        ensures
            final(self).wf(),
            final(self).source() == old(self).source(),
            final(self).line() == old(self).line(),
            lexed_ok(
                token_at(old(self).source(), old(self).position(), old(self).line()),
                res,
                final(self).position(),
            ),
    {
        let c = self.input[self.pos];
        let starts_number = char_is_digit(c) || (c == '.' && self.input.len() - self.pos > 1
            && char_is_digit(self.input[self.pos + 1]));
        if starts_number {
            self.read_number()
        } else if char_is_ident_start(c) {
            Ok(word_to_token(self.read_identifier()))
        } else {
            self.read_operator()
        }
    }

    /// The next token and the line it starts on; at the end of input, and
    /// from then on, `Token::Eof`.
    pub fn next_token(&mut self) -> (res: Result<(Token, usize), CompilerError>)
        requires
            old(self).wf(),
        ensures
            final(self).wf(),
            final(self).source() == old(self).source(),
            step_ok(
                next_token_spec(old(self).source(), old(self).position(), old(self).line()),
                res,
                final(self).position(),
                final(self).line(),
            ),
    {
        loop
            invariant
                self.wf(),
                self.source() == old(self).source(),
                next_token_spec(self.source(), self.position(), self.line()) == next_token_spec(
                    old(self).source(),
                    old(self).position(),
                    old(self).line(),
                ),
            decreases self.input.len() - self.pos,
        {
            proof {
                lemma_skip_space_forward(self.source(), self.position(), self.line());
            }
            self.skip_whitespace();
            if self.pos >= self.input.len() {
                return Ok((Token::Eof, self.line));
            }
            if self.has(0, '/') && self.has(1, '/') {
                self.pos = self.pos + 2;
                proof {
                    lemma_line_end_forward(self.source(), self.position());
                }
                self.skip_line_comment();
            } else if self.has(0, '/') && self.has(1, '*') {
                let start_line = self.line;
                self.pos = self.pos + 2;
                proof {
                    lemma_comment_end_forward(self.source(), self.position(), self.line());
                }
                self.skip_block_comment(start_line)?;
            } else {
                let line = self.line;
                let tok = self.read_token()?;
                return Ok((tok, line));
            }
        }
    }

    /// All tokens up to the end of input, each with the line it starts on.
    /// The last is `Token::Eof`.
    pub fn tokenize(&mut self) -> (res: Result<Vec<(Token, usize)>, CompilerError>)
        requires
            old(self).wf(),
        ensures
            final(self).wf(),
            final(self).source() == old(self).source(),
            tokens_ok(
                tokenize_from(
                    old(self).source(),
                    Seq::empty(),
                    old(self).position(),
                    old(self).line(),
                ),
                res,
            ),
    {
        let mut tokens: Vec<(Token, usize)> = Vec::new();
        assert(tokens_view(tokens@) =~= Seq::empty());
        loop
            invariant
                self.wf(),
                self.source() == old(self).source(),
                tokenize_from(self.source(), tokens_view(tokens@), self.position(), self.line())
                    == tokenize_from(
                    old(self).source(),
                    Seq::empty(),
                    old(self).position(),
                    old(self).line(),
                ),
            decreases self.input.len() - self.pos,
        {
            proof {
                lemma_next_token_forward(self.source(), self.position(), self.line());
            }
            let (tok, line) = self.next_token()?;
            let is_eof = tok.same(&Token::Eof);
            proof {
                lemma_tokens_view_push(tokens@, (tok, line));
            }
            tokens.push((tok, line));
            if is_eof {
                return Ok(tokens);
            }
        }
    }
}

} // verus!
