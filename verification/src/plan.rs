//! The evaluation planner: the single pass over the postfix token sequence
//! that decides everything the evaluator decides — which numbers are pushed,
//! which operator is applied when, and every structural error — leaving only
//! the numeric arithmetic itself to the caller. Running the plan on a value
//! stack is the postfix evaluation: each push step parses one number token's
//! text and pushes the value; each apply step pops the right operand, then
//! the left, and pushes the operation's result; the one value left is the
//! expression's result. A plan never underflows its stack and leaves exactly
//! one value on it.

use vstd::prelude::*;

use crate::token::{Token, TokenKind, TokenModel, token_ref_models};

verus! {

/// The five arithmetic operations of the evaluator.
#[derive(Clone, Copy, Debug, PartialEq, Eq, Structural)]
pub enum Op {
    Add,
    Sub,
    Mul,
    Div,
    Pow,
}

/// One step of a postfix evaluation: push the value a number token's text
/// names, or apply an operation to the two topmost values.
#[derive(Debug, PartialEq, Eq)]
pub enum EvalStep {
    PushNumber(String),
    Apply(Op),
}

/// The mathematical model of a step.
pub enum StepModel {
    PushNumber(Seq<char>),
    Apply(Op),
}

impl View for EvalStep {
    type V = StepModel;

    open spec fn view(&self) -> StepModel {
        match self {
            EvalStep::PushNumber(text) => StepModel::PushNumber(text@),
            EvalStep::Apply(op) => StepModel::Apply(*op),
        }
    }
}

/// The models of a sequence of steps.
pub open spec fn step_models(steps: Seq<EvalStep>) -> Seq<StepModel> {
    steps.map_values(|s: EvalStep| s@)
}

/// The planner's errors: an operator reached with fewer than two operands
/// available; an operator token whose text names no operation; a postfix
/// sequence that would leave anything but exactly one value on the stack.
#[derive(Debug, PartialEq, Eq)]
pub enum EvalError {
    StackUnderflow,
    UnknownOperator(String),
    MalformedExpression,
}

/// The mathematical model of a planner error.
pub enum EvalErrorModel {
    StackUnderflow,
    UnknownOperator(Seq<char>),
    MalformedExpression,
}

impl View for EvalError {
    type V = EvalErrorModel;

    open spec fn view(&self) -> EvalErrorModel {
        match self {
            EvalError::StackUnderflow => EvalErrorModel::StackUnderflow,
            EvalError::UnknownOperator(text) => EvalErrorModel::UnknownOperator(text@),
            EvalError::MalformedExpression => EvalErrorModel::MalformedExpression,
        }
    }
}

/// The operation an operator token's text names, if any.
pub open spec fn op_of(text: Seq<char>) -> Option<Op> {
    if text == seq!['+'] {
        Some(Op::Add)
    } else if text == seq!['-'] {
        Some(Op::Sub)
    } else if text == seq!['*'] {
        Some(Op::Mul)
    } else if text == seq!['/'] {
        Some(Op::Div)
    } else if text == seq!['^'] {
        Some(Op::Pow)
    } else {
        None
    }
}

/// The operation an operator token names.
fn op_of_text(text: &str) -> (r: Option<Op>)
    ensures
        r == op_of(text@),
{
    proof {
        assert(seq!['+'].len() == 1 && seq!['+'][0] == '+');
        assert(seq!['-'].len() == 1 && seq!['-'][0] == '-');
        assert(seq!['*'].len() == 1 && seq!['*'][0] == '*');
        assert(seq!['/'].len() == 1 && seq!['/'][0] == '/');
        assert(seq!['^'].len() == 1 && seq!['^'][0] == '^');
    }
    if text.unicode_len() == 1 {
        let c = text.get_char(0);
        if c == '+' {
            proof {
                assert(text@ =~= seq!['+']);
            }
            Some(Op::Add)
        } else if c == '-' {
            proof {
                assert(text@ =~= seq!['-']);
            }
            Some(Op::Sub)
        } else if c == '*' {
            proof {
                assert(text@ =~= seq!['*']);
            }
            Some(Op::Mul)
        } else if c == '/' {
            proof {
                assert(text@ =~= seq!['/']);
            }
            Some(Op::Div)
        } else if c == '^' {
            proof {
                assert(text@ =~= seq!['^']);
            }
            Some(Op::Pow)
        } else {
            None
        }
    } else {
        None
    }
}

/// The planner's meaning from position `i` on, with `depth` values already
/// due on the evaluation stack and the steps in `acc` already planned:
/// - a number token becomes a push step and deepens the stack;
/// - an operator token with fewer than two values available is a stack
///   underflow; with an unknown text it is an unknown operator, named; else
///   it becomes an apply step, consuming two values and yielding one;
/// - identifier and parenthesis tokens are passed over silently;
/// - at the end, the stack must hold exactly one value — the result — and
///   any other count is a malformed expression.
pub open spec fn plan_from(
    ts: Seq<TokenModel>,
    i: int,
    depth: int,
    acc: Seq<StepModel>,
) -> Result<Seq<StepModel>, EvalErrorModel>
    decreases ts.len() - i,
{
    if i < 0 || i >= ts.len() {
        if depth == 1 {
            Ok(acc)
        } else {
            Err(EvalErrorModel::MalformedExpression)
        }
    } else {
        let t = ts[i];
        match t.kind {
            TokenKind::Number => plan_from(
                ts,
                i + 1,
                depth + 1,
                acc.push(StepModel::PushNumber(t.text)),
            ),
            TokenKind::Operator => if depth < 2 {
                Err(EvalErrorModel::StackUnderflow)
            } else {
                match op_of(t.text) {
                    Some(op) => plan_from(ts, i + 1, depth - 1, acc.push(StepModel::Apply(op))),
                    None => Err(EvalErrorModel::UnknownOperator(t.text)),
                }
            },
            _ => plan_from(ts, i + 1, depth, acc),
        }
    }
}

/// The planner's meaning: the step sequence of the whole postfix sequence,
/// or its first error.
pub open spec fn spec_eval_plan(ts: Seq<TokenModel>) -> Result<Seq<StepModel>, EvalErrorModel> {
    plan_from(ts, 0, 0, Seq::empty())
}

/// Whether a run of the steps from position `i` on, with `depth` values on
/// the stack, keeps the stack deep enough for every application and ends
/// with exactly one value.
pub open spec fn steps_balanced_from(steps: Seq<StepModel>, i: int, depth: int) -> bool
    decreases steps.len() - i,
{
    if i < 0 || i >= steps.len() {
        depth == 1
    } else {
        match steps[i] {
            StepModel::PushNumber(_) => steps_balanced_from(steps, i + 1, depth + 1),
            StepModel::Apply(_) => depth >= 2 && steps_balanced_from(steps, i + 1, depth - 1),
        }
    }
}

/// Whether running the steps on an empty stack finds two operands for every
/// application and leaves exactly one value: what a runner of the plan needs
/// to pop without checking.
pub open spec fn steps_balanced(steps: Seq<StepModel>) -> bool {
    steps_balanced_from(steps, 0, 0)
}

/// The projection of a postfix token sequence onto evaluation steps: each
/// number token a push of its text, each operator token naming an operation
/// an application of it, everything else nothing.
pub open spec fn step_projection(ts: Seq<TokenModel>) -> Seq<StepModel>
    decreases ts.len(),
{
    if ts.len() == 0 {
        Seq::empty()
    } else {
        let first: Seq<StepModel> = match ts[0].kind {
            TokenKind::Number => seq![StepModel::PushNumber(ts[0].text)],
            TokenKind::Operator => match op_of(ts[0].text) {
                Some(o) => seq![StepModel::Apply(o)],
                None => Seq::empty(),
            },
            _ => Seq::empty(),
        };
        first + step_projection(ts.drop_first())
    }
}

/// Turns a postfix token sequence into the evaluation steps it calls for,
/// or its first error: the whole single-pass stack evaluation except the
/// arithmetic, which the returned plan leaves to its runner.
pub fn eval_plan(tokens: &Vec<&Token>) -> (r: Result<Vec<EvalStep>, EvalError>)
    ensures
        match r {
            Ok(steps) => spec_eval_plan(token_ref_models(tokens@)) == Ok::<_, EvalErrorModel>(
                step_models(steps@),
            ),
            Err(e) => spec_eval_plan(token_ref_models(tokens@)) == Err::<Seq<StepModel>, _>(e@),
        },
{
    let ghost all = token_ref_models(tokens@);
    let mut steps: Vec<EvalStep> = Vec::new();
    let mut depth: usize = 0;
    let n: usize = tokens.len();
    proof {
        assert(step_models(steps@) =~= Seq::<StepModel>::empty());
    }
    let mut i: usize = 0;
    while i < n
        invariant
            n == tokens@.len(),
            i <= n,
            depth <= i,
            all == token_ref_models(tokens@),
            spec_eval_plan(all) == plan_from(all, i as int, depth as int, step_models(steps@)),
        decreases n - i,
    {
        let token: &Token = tokens[i];
        proof {
            assert(token@ == all[i as int]);
        }
        match token.kind {
            TokenKind::Number => {
                let ghost acc = step_models(steps@);
                steps.push(EvalStep::PushNumber(token.text.clone()));
                proof {
                    assert(step_models(steps@) =~= acc.push(
                        StepModel::PushNumber(all[i as int].text),
                    ));
                }
                depth = depth + 1;
                i = i + 1;
            },
            TokenKind::Operator => {
                if depth < 2 {
                    return Err(EvalError::StackUnderflow);
                }
                match op_of_text(token.text.as_str()) {
                    Some(op) => {
                        let ghost acc = step_models(steps@);
                        steps.push(EvalStep::Apply(op));
                        proof {
                            assert(step_models(steps@) =~= acc.push(StepModel::Apply(op)));
                        }
                        depth = depth - 1;
                        i = i + 1;
                    },
                    None => {
                        return Err(EvalError::UnknownOperator(token.text.clone()));
                    },
                }
            },
            _ => {
                i = i + 1;
            },
        }
    }
    if depth == 1 {
        Ok(steps)
    } else {
        Err(EvalError::MalformedExpression)
    }
}

} // verus!
