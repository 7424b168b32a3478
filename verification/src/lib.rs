//! An evaluator for infix arithmetic expressions, in three verified stages:
//! a lexer that turns text into tokens, a shunting-yard reorderer that turns
//! tokens into postfix order, and a planner that turns the postfix order into
//! a checked sequence of stack operations. Arithmetic itself runs outside the
//! library, on the plan the library proves well formed.

pub mod laws;
pub mod lexer;
pub mod pipeline;
pub mod plan;
pub mod postfix;
pub mod token;
