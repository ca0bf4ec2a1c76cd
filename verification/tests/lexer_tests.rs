use scriptc::ast::Float;
use scriptc::error::ErrorType;
use scriptc::lexer::Lexer;
use scriptc::token::Token;

fn tokens(source: &str) -> Vec<(Token, usize)> {
    Lexer::new(source).tokenize().unwrap()
}

fn kinds(source: &str) -> Vec<Token> {
    tokens(source).into_iter().map(|(t, _)| t).collect()
}

fn ident(name: &str) -> Token {
    Token::Identifier(name.to_string())
}

fn float(value: f32) -> Token {
    Token::Float(Float { bits: value.to_bits() })
}

fn lex_error(source: &str) -> (usize, String) {
    let e = Lexer::new(source).tokenize().unwrap_err();
    assert_eq!(e.error_type, ErrorType::LexerError);
    (e.line, e.message)
}

#[test]
fn empty_input_is_end_of_input() {
    assert_eq!(tokens(""), vec![(Token::Eof, 1)]);
    assert_eq!(tokens("  \n\t\r\n "), vec![(Token::Eof, 3)]);
}

#[test]
fn end_of_input_repeats() {
    let mut lexer = Lexer::new("x");
    assert_eq!(lexer.next_token().unwrap(), (ident("x"), 1));
    assert_eq!(lexer.next_token().unwrap(), (Token::Eof, 1));
    assert_eq!(lexer.next_token().unwrap(), (Token::Eof, 1));
}

#[test]
fn keywords_and_identifiers() {
    assert_eq!(
        kinds("let const function if else while for return break continue"),
        vec![
            Token::Let,
            Token::Const,
            Token::Function,
            Token::If,
            Token::Else,
            Token::While,
            Token::For,
            Token::Return,
            Token::Break,
            Token::Continue,
            Token::Eof
        ]
    );
    assert_eq!(
        kinds("lets _x x1 If forx a_b_9"),
        vec![ident("lets"), ident("_x"), ident("x1"), ident("If"), ident("forx"), ident("a_b_9"), Token::Eof]
    );
}

#[test]
fn operators_take_the_longest_match() {
    assert_eq!(
        kinds("+ - * / % ! == != < > <= >= = && || ( ) { } , ; ."),
        vec![
            Token::Plus,
            Token::Minus,
            Token::Star,
            Token::Slash,
            Token::Percent,
            Token::Bang,
            Token::EqEq,
            Token::BangEq,
            Token::Lt,
            Token::Gt,
            Token::LtEq,
            Token::GtEq,
            Token::Eq,
            Token::AndAnd,
            Token::OrOr,
            Token::LParen,
            Token::RParen,
            Token::LBrace,
            Token::RBrace,
            Token::Comma,
            Token::Semicolon,
            Token::Dot,
            Token::Eof
        ]
    );
    assert_eq!(kinds("a<=b"), vec![ident("a"), Token::LtEq, ident("b"), Token::Eof]);
    assert_eq!(kinds("==="), vec![Token::EqEq, Token::Eq, Token::Eof]);
    assert_eq!(kinds("!!="), vec![Token::Bang, Token::BangEq, Token::Eof]);
    assert_eq!(kinds("<<="), vec![Token::Lt, Token::LtEq, Token::Eof]);
}

#[test]
fn stray_ampersand_or_bar_fails() {
    assert_eq!(lex_error("a & b"), (1, "Unexpected character: &".to_string()));
    assert_eq!(lex_error("\na | b"), (2, "Unexpected character: |".to_string()));
    assert_eq!(lex_error("a &| b").0, 1);
}

#[test]
fn unexpected_character_fails_with_its_line() {
    assert_eq!(lex_error("x\n\n#"), (3, "Unexpected character: #".to_string()));
    assert_eq!(lex_error("\u{e9}"), (1, "Unexpected character: \u{e9}".to_string()));
    assert_eq!(lex_error("a\0b").0, 1);
}

#[test]
fn comments_are_skipped() {
    assert_eq!(tokens("// nothing"), vec![(Token::Eof, 1)]);
    assert_eq!(
        tokens("a // one\nb /* two\nlines */ c"),
        vec![(ident("a"), 1), (ident("b"), 2), (ident("c"), 3), (Token::Eof, 3)]
    );
    assert_eq!(kinds("a/**/b"), vec![ident("a"), ident("b"), Token::Eof]);
    assert_eq!(kinds("a /* * / */ b"), vec![ident("a"), ident("b"), Token::Eof]);
    assert_eq!(kinds("a / b"), vec![ident("a"), Token::Slash, ident("b"), Token::Eof]);
}

#[test]
fn unterminated_comment_reports_the_line_it_began_on() {
    assert_eq!(lex_error("/*"), (1, "Unterminated block comment".to_string()));
    assert_eq!(lex_error("a\n\n /* b\n\n\n"), (3, "Unterminated block comment".to_string()));
    assert_eq!(lex_error("/*/").0, 1);
}

#[test]
fn token_line_is_the_line_of_its_first_character() {
    assert_eq!(
        tokens("let\n\nx =\n 1;"),
        vec![
            (Token::Let, 1),
            (ident("x"), 3),
            (Token::Eq, 3),
            (Token::Number(1), 4),
            (Token::Semicolon, 4),
            (Token::Eof, 4)
        ]
    );
}

#[test]
fn integer_literals() {
    assert_eq!(kinds("0 7 42 2147483647"), vec![
        Token::Number(0),
        Token::Number(7),
        Token::Number(42),
        Token::Number(2147483647),
        Token::Eof
    ]);
    assert_eq!(kinds("000012"), vec![Token::Number(12), Token::Eof]);
    assert_eq!(
        kinds("0000000000000000000000000000000000000000000000000000000000007"),
        vec![Token::Number(7), Token::Eof]
    );
}

#[test]
fn integer_literal_out_of_range_fails() {
    assert_eq!(lex_error("2147483648"), (1, "Integer literal out of range".to_string()));
    assert_eq!(lex_error("\n99999999999999999999999999999999999999999999").0, 2);
}

#[test]
fn float_literals() {
    assert_eq!(kinds("1.5"), vec![float(1.5), Token::Eof]);
    assert_eq!(kinds("3."), vec![float(3.0), Token::Eof]);
    assert_eq!(kinds(".25"), vec![float(0.25), Token::Eof]);
    assert_eq!(kinds("1e3"), vec![float(1000.0), Token::Eof]);
    assert_eq!(kinds("1E3"), vec![float(1000.0), Token::Eof]);
    assert_eq!(kinds("1.e3"), vec![float(1000.0), Token::Eof]);
    assert_eq!(kinds("2.5e-1"), vec![float(0.25), Token::Eof]);
    assert_eq!(kinds("2.5e+1"), vec![float(25.0), Token::Eof]);
    assert_eq!(kinds("1.5;"), vec![float(1.5), Token::Semicolon, Token::Eof]);
    assert_eq!(kinds("3.+1"), vec![float(3.0), Token::Plus, Token::Number(1), Token::Eof]);
    assert_eq!(kinds("1.5.5"), vec![float(1.5), float(0.5), Token::Eof]);
}

#[test]
fn dot_before_a_letter_is_left_alone() {
    assert_eq!(kinds("3.foo"), vec![Token::Number(3), Token::Dot, ident("foo"), Token::Eof]);
    assert_eq!(kinds("3._"), vec![Token::Number(3), Token::Dot, ident("_"), Token::Eof]);
    assert_eq!(kinds("3.x5"), vec![Token::Number(3), Token::Dot, ident("x5"), Token::Eof]);
    assert_eq!(kinds(".x"), vec![Token::Dot, ident("x"), Token::Eof]);
}

#[test]
fn missing_exponent_digits_fail() {
    assert_eq!(lex_error("1e"), (1, "Missing digits in exponent".to_string()));
    assert_eq!(lex_error("1e+"), (1, "Missing digits in exponent".to_string()));
    assert_eq!(lex_error("\n1.5e-x").0, 2);
    assert_eq!(lex_error("3else").0, 1);
}

#[test]
fn float_literal_out_of_range_fails() {
    assert_eq!(lex_error("1e39"), (1, "Float literal out of range".to_string()));
    assert_eq!(lex_error("3.5e38").0, 1);
    assert_eq!(kinds("3.4e38"), vec![float(3.4e38), Token::Eof]);
}

#[test]
fn number_then_identifier() {
    assert_eq!(kinds("3foo"), vec![Token::Number(3), ident("foo"), Token::Eof]);
    assert_eq!(kinds("0x10"), vec![Token::Number(0), ident("x10"), Token::Eof]);
}

#[test]
fn token_kinds_have_names() {
    assert_eq!(Token::Semicolon.kind(), "Semicolon");
    assert_eq!(ident("x").kind(), "Identifier");
    assert_eq!(Token::Number(1).kind(), "Number");
    assert_eq!(float(1.0).kind(), "Float");
    assert_eq!(Token::Eof.kind(), "Eof");
    assert!(ident("x").same(&ident("x")));
    assert!(!ident("x").same(&ident("y")));
    assert!(!Token::Lt.same(&Token::LtEq));
    assert_eq!(ident("abc").clone(), ident("abc"));
}

#[test]
fn white_space_is_what_the_standard_library_calls_so() {
    for code in 0..=0x10FFFFu32 {
        let c = match char::from_u32(code) {
            Some(c) => c,
            None => continue,
        };
        if c.is_whitespace() {
            let line = if c == '\n' { 2 } else { 1 };
            assert_eq!(tokens(&c.to_string()), vec![(Token::Eof, line)], "U+{:04X}", code);
        } else if code < 0x3100 || code % 257 == 0 {
            let first = Lexer::new(&c.to_string()).next_token();
            assert_ne!(first, Ok((Token::Eof, 1)), "U+{:04X}", code);
        }
    }
    assert_eq!(
        kinds("a\u{85}b\u{A0}c\u{2028}d\u{3000}e\u{B}f\u{C}g"),
        vec![ident("a"), ident("b"), ident("c"), ident("d"), ident("e"), ident("f"), ident("g"), Token::Eof]
    );
}
