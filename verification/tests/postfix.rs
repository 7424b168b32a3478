use infix_calc::lexer::tokenize;
use infix_calc::postfix::{precedence, shunting_yard};
use infix_calc::token::{Token, TokenKind};

fn postfix_texts(input: &str) -> Vec<String> {
    let tokens = tokenize(input).unwrap();
    shunting_yard(&tokens).iter().map(|t| t.text.clone()).collect()
}

#[test]
fn precedence_table() {
    let operator = |text: &str| Token {
        text: text.to_string(),
        kind: TokenKind::Operator,
    };
    assert_eq!(precedence(&operator("^")), 2);
    assert_eq!(precedence(&operator("*")), 1);
    assert_eq!(precedence(&operator("/")), 1);
    assert_eq!(precedence(&operator("+")), 0);
    assert_eq!(precedence(&operator("-")), 0);
    let paren = Token {
        text: "(".to_string(),
        kind: TokenKind::LeftParen,
    };
    assert_eq!(precedence(&paren), 0);
}

#[test]
fn shunting_yard_orders_by_precedence() {
    assert_eq!(postfix_texts("1+2*3"), vec!["1", "2", "3", "*", "+"]);
}

#[test]
fn shunting_yard_parentheses_group() {
    assert_eq!(postfix_texts("(1+2)*3"), vec!["1", "2", "+", "3", "*"]);
}

#[test]
fn shunting_yard_pops_greater_precedence() {
    assert_eq!(postfix_texts("10/2-3"), vec!["10", "2", "/", "3", "-"]);
}

#[test]
fn shunting_yard_equal_precedence_stays_stacked() {
    // Equal precedence is not popped (the comparison is strictly greater),
    // so chains of one precedence level group to the right.
    assert_eq!(postfix_texts("2^3^2"), vec!["2", "3", "2", "^", "^"]);
    assert_eq!(postfix_texts("8-3-2"), vec!["8", "3", "2", "-", "-"]);
}

#[test]
fn shunting_yard_tolerates_unbalanced_parentheses() {
    assert_eq!(postfix_texts("1+2)"), vec!["1", "2", "+"]);
    assert_eq!(postfix_texts("(1+2"), vec!["1", "2", "+", "("]);
}

#[test]
fn shunting_yard_empty_is_empty() {
    assert!(postfix_texts("").is_empty());
}
