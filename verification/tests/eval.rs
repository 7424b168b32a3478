//! End-to-end evaluation: the verified pipeline plans the expression, and a
//! plain stack runner does the floating-point arithmetic the plan calls for.

use infix_calc::pipeline::plan_expression;
use infix_calc::plan::{EvalStep, Op};

fn evaluate(input: &str) -> Result<f64, String> {
    let plan = plan_expression(input).map_err(|e| format!("{:?}", e))?;
    let mut stack: Vec<f64> = Vec::new();
    for step in plan {
        match step {
            EvalStep::PushNumber(text) => {
                let value = text
                    .parse::<f64>()
                    .map_err(|e| format!("Error parsing number {}: {}", text, e))?;
                stack.push(value);
            }
            EvalStep::Apply(op) => {
                let rhs = stack.pop().expect("the plan never underflows");
                let lhs = stack.pop().expect("the plan never underflows");
                stack.push(match op {
                    Op::Add => lhs + rhs,
                    Op::Sub => lhs - rhs,
                    Op::Mul => lhs * rhs,
                    Op::Div => lhs / rhs,
                    Op::Pow => lhs.powf(rhs),
                });
            }
        }
    }
    Ok(stack.pop().expect("the plan leaves exactly one value"))
}

#[test]
fn eval_respects_precedence() {
    assert_eq!(evaluate("1+2*3").unwrap(), 7.0);
}

#[test]
fn eval_parentheses_group() {
    assert_eq!(evaluate("(1+2)*3").unwrap(), 9.0);
}

#[test]
fn eval_division_then_subtraction() {
    assert_eq!(evaluate("10/2-3").unwrap(), 2.0);
}

#[test]
fn eval_power_chain_groups_right() {
    // Equal precedence is never popped early, so chained `^` groups to the
    // right: 2^(3^2) = 512, not (2^3)^2 = 64.
    assert_eq!(evaluate("2^3^2").unwrap(), 512.0);
}

#[test]
fn eval_equal_precedence_groups_right() {
    // The same grouping holds for every operator of one precedence level.
    assert_eq!(evaluate("8-3-2").unwrap(), 7.0);
}

#[test]
fn eval_mixed_precedence_chains() {
    assert_eq!(evaluate("2*3+4").unwrap(), 10.0);
    assert_eq!(evaluate("7-2*3").unwrap(), 1.0);
}

#[test]
fn eval_single_number() {
    assert_eq!(evaluate("42").unwrap(), 42.0);
}

#[test]
fn eval_decimal_numbers() {
    assert_eq!(evaluate("1.5*4").unwrap(), 6.0);
}

#[test]
fn eval_skips_whitespace() {
    assert_eq!(evaluate(" 1 + 2 ").unwrap(), 3.0);
}

#[test]
fn eval_same_input_twice_gives_same_result() {
    let first = evaluate("(4+5)*2^2").unwrap();
    let second = evaluate("(4+5)*2^2").unwrap();
    assert_eq!(first, second);
    assert_eq!(first, 36.0);
}

#[test]
fn eval_malformed_number_fails_at_parse() {
    let err = evaluate("1.2.3+1").unwrap_err();
    assert!(err.contains("parsing number 1.2.3"));
}

#[test]
fn eval_unbalanced_parentheses_tolerated() {
    assert_eq!(evaluate("1+2)").unwrap(), 3.0);
}
