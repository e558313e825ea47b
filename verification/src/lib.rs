//! Exact evaluation of arithmetic expressions.
//!
//! An expression such as `-3++1-+-+5` or `(|-37|*4.8)` is split into tokens,
//! optionally repaired, checked, and then reduced operation by operation to a
//! single exact rational number:
//!
//! ```text
//! text --parse_tokens--> tokens --fix_tokens--> tokens --check_rules--> tokens --solve--> value
//! ```
//!
//! Each stage is a function with a contract over the tokens as mathematical
//! values; `expression::laws` states what holds of the stages together. The
//! arithmetic on the numbers themselves is done by the `fraction` crate.

pub mod common;
pub mod expression;
pub mod shell;
pub mod types;

pub use crate::common::{convert, fmt};
pub use crate::expression::error::{CheckErr, Error, ParseErr, SolveErr};
pub use crate::expression::solver::{parse, resolve, solve, CheckRules, FixRules};
pub use crate::expression::token::{
    BinaryOp, EndBlock, StartBlock, Token, TokenType, UnaryOpLeft, UnaryOpRight,
};
pub use crate::types::rational::Rational;
