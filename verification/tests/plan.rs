use infix_calc::pipeline::{plan_expression, ExprError};
use infix_calc::plan::{eval_plan, EvalError, EvalStep, Op};
use infix_calc::token::{Token, TokenKind};

#[test]
fn plan_simple_sum() {
    let plan = plan_expression("1+2").unwrap();
    assert_eq!(
        plan,
        vec![
            EvalStep::PushNumber("1".to_string()),
            EvalStep::PushNumber("2".to_string()),
            EvalStep::Apply(Op::Add),
        ]
    );
}

#[test]
fn plan_empty_is_structural_error() {
    let err = plan_expression("").unwrap_err();
    assert_eq!(err, ExprError::Eval(EvalError::MalformedExpression));
}

#[test]
fn plan_identifier_starves_operator() {
    // "1+a" lexes, but the identifier is passed over by the evaluator, so
    // the operator finds only one operand.
    let err = plan_expression("1+a").unwrap_err();
    assert_eq!(err, ExprError::Eval(EvalError::StackUnderflow));
}

#[test]
fn plan_trailing_operator_underflows() {
    let err = plan_expression("1+").unwrap_err();
    assert_eq!(err, ExprError::Eval(EvalError::StackUnderflow));
}

#[test]
fn plan_two_values_is_structural_error() {
    let err = plan_expression("1 2").unwrap_err();
    assert_eq!(err, ExprError::Eval(EvalError::MalformedExpression));
}

#[test]
fn plan_lone_parenthesis_is_structural_error() {
    let err = plan_expression("(").unwrap_err();
    assert_eq!(err, ExprError::Eval(EvalError::MalformedExpression));
}

#[test]
fn plan_unknown_operator() {
    // The lexer never produces such a token; handing the planner one
    // directly reaches the error.
    let one = Token {
        text: "1".to_string(),
        kind: TokenKind::Number,
    };
    let two = Token {
        text: "2".to_string(),
        kind: TokenKind::Number,
    };
    let odd = Token {
        text: "%".to_string(),
        kind: TokenKind::Operator,
    };
    let postfix = vec![&one, &two, &odd];
    let err = eval_plan(&postfix).unwrap_err();
    assert_eq!(err, EvalError::UnknownOperator("%".to_string()));
}
