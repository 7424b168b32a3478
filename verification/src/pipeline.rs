//! The whole pipeline short of arithmetic: lex the input text, reorder the
//! tokens to postfix, and plan the postfix evaluation. Every error of every
//! stage comes back as a value; nothing aborts.

use vstd::prelude::*;

use crate::lexer::{spec_tokenize, tokenize, LexError};
use crate::plan::{
    eval_plan, spec_eval_plan, step_models, EvalError, EvalErrorModel, EvalStep, StepModel,
};
use crate::postfix::{shunting_yard, spec_shunting_yard};

verus! {

/// Any error of the pipeline: the lexer's or the planner's.
#[derive(Debug, PartialEq, Eq)]
pub enum ExprError {
    Lex(LexError),
    Eval(EvalError),
}

/// The mathematical model of a pipeline error.
pub enum ExprErrorModel {
    Lex(LexError),
    Eval(EvalErrorModel),
}

impl View for ExprError {
    type V = ExprErrorModel;

    open spec fn view(&self) -> ExprErrorModel {
        match self {
            ExprError::Lex(e) => ExprErrorModel::Lex(*e),
            ExprError::Eval(e) => ExprErrorModel::Eval(e@),
        }
    }
}

/// The pipeline's meaning: the evaluation steps of the input expression, or
/// the first error on the way to them.
pub open spec fn spec_plan_expression(s: Seq<char>) -> Result<Seq<StepModel>, ExprErrorModel> {
    match spec_tokenize(s) {
        Ok(ts) => match spec_eval_plan(spec_shunting_yard(ts)) {
            Ok(steps) => Ok(steps),
            Err(e) => Err(ExprErrorModel::Eval(e)),
        },
        Err(e) => Err(ExprErrorModel::Lex(e)),
    }
}

/// Evaluates one expression as far as the arithmetic: lexes the input,
/// reorders it to postfix, and returns the checked evaluation steps, or the
/// first error. Running the returned plan on a value stack yields the
/// expression's one result.
pub fn plan_expression(input: &str) -> (r: Result<Vec<EvalStep>, ExprError>)
    ensures
        match r {
            Ok(steps) => spec_plan_expression(input@) == Ok::<_, ExprErrorModel>(
                step_models(steps@),
            ),
            Err(e) => spec_plan_expression(input@) == Err::<Seq<StepModel>, _>(e@),
        },
{
    let tokens = match tokenize(input) {
        Ok(tokens) => tokens,
        Err(e) => {
            return Err(ExprError::Lex(e));
        },
    };
    let postfix = shunting_yard(&tokens);
    match eval_plan(&postfix) {
        Ok(steps) => Ok(steps),
        Err(e) => Err(ExprError::Eval(e)),
    }
}

} // verus!
