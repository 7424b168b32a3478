use infix_calc::lexer::{tokenize, LexError};
use infix_calc::token::{Token, TokenKind};

fn texts(tokens: &[Token]) -> Vec<String> {
    tokens.iter().map(|t| t.text.clone()).collect()
}

fn kinds(tokens: &[Token]) -> Vec<TokenKind> {
    tokens.iter().map(|t| t.kind).collect()
}

#[test]
fn tokenize_empty_input_is_empty() {
    let tokens = tokenize("").unwrap();
    assert!(tokens.is_empty());
}

#[test]
fn tokenize_classifies_mixed_expression() {
    let tokens = tokenize("(12+ab)*3.5").unwrap();
    assert_eq!(texts(&tokens), vec!["(", "12", "+", "ab", ")", "*", "3.5"]);
    assert_eq!(
        kinds(&tokens),
        vec![
            TokenKind::LeftParen,
            TokenKind::Number,
            TokenKind::Operator,
            TokenKind::Identifier,
            TokenKind::RightParen,
            TokenKind::Operator,
            TokenKind::Number,
        ]
    );
}

#[test]
fn tokenize_skips_whitespace() {
    let tokens = tokenize(" 1 +\t2 ").unwrap();
    assert_eq!(texts(&tokens), vec!["1", "+", "2"]);
}

#[test]
fn tokenize_rejects_unexpected_symbol() {
    let err = tokenize("1+@").unwrap_err();
    assert_eq!(err, LexError::UnexpectedSymbol { symbol: '@' });
}

#[test]
fn tokenize_accepts_identifier() {
    let tokens = tokenize("1+a").unwrap();
    assert_eq!(texts(&tokens), vec!["1", "+", "a"]);
    assert_eq!(tokens[2].kind, TokenKind::Identifier);
}

#[test]
fn tokenize_defers_malformed_number() {
    let tokens = tokenize("1.2.3").unwrap();
    assert_eq!(texts(&tokens), vec!["1.2.3"]);
    assert_eq!(tokens[0].kind, TokenKind::Number);
}

#[test]
fn tokenize_identifier_continues_past_ascii() {
    // U+00E9 is alphanumeric, so it stays inside the identifier; were it
    // not consumed there, it could start no token and lexing would fail.
    let tokens = tokenize("a\u{00E9}+1").unwrap();
    assert_eq!(texts(&tokens), vec!["a\u{00E9}", "+", "1"]);
}

#[test]
fn tokenize_skips_unicode_whitespace() {
    // U+00A0 (no-break space) has the White_Space property.
    let tokens = tokenize("1\u{00A0}+\u{00A0}2").unwrap();
    assert_eq!(texts(&tokens), vec!["1", "+", "2"]);
}

#[test]
fn tokenize_all_operators() {
    let tokens = tokenize("+-*/^").unwrap();
    assert_eq!(texts(&tokens), vec!["+", "-", "*", "/", "^"]);
    assert!(kinds(&tokens).iter().all(|k| *k == TokenKind::Operator));
}
