//! Tokens, errors and the stages that turn a string into a number.

pub mod error;
pub mod fixer;
pub mod laws;
pub mod reducer;
pub mod tokenizer;
pub mod validator;
pub mod solver;
pub mod token;
