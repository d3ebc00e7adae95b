//! A verified engine for tabletop-dice arithmetic expressions.
//!
//! An input line such as `2d6+3` or `(1d4+2)*3` is tokenized, every dice
//! group in the token sequence is resolved to a constant with fresh
//! randomness, and the resulting constant/operator sequence is reduced to a
//! single integer honoring parentheses and the usual precedence rules.
//!
//! All arithmetic is on `i32` and checked: an intermediate value outside the
//! `i32` range is reported as an error rather than wrapped or saturated.

use vstd::prelude::*;

pub mod dice;
pub mod eval;
pub mod lexer;
pub mod resolver;
pub mod token;

pub use dice::RollOutcome;
pub use eval::evaluate;
pub use lexer::match_sub;
pub use lexer::tokenize;
pub use resolver::roll_expr;
pub use resolver::tokens_wf;
pub use resolver::RollLog;
pub use token::Dice;
pub use token::EvalError;
pub use token::LexError;
pub use token::Token;
pub use token::Variant;

verus! {

} // verus!
