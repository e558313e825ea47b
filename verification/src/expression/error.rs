//! What can go wrong, stage by stage.

use crate::common::{fmt, joined, push_char, texts, Text};
use crate::expression::solver::CheckRules;
use crate::expression::token::{Token, TokenType, TokenView};
use vstd::prelude::*;
use vstd::string::StringExecFns;

verus! {

/// The failure of one evaluation: that of the first stage that met a problem.
#[derive(Debug, Clone, PartialEq, Eq)]
pub enum Error {
    Parse(ParseErr),
    Check(CheckErr),
    Solve(SolveErr),
}

/// A failure of the tokenizer.
#[derive(Debug, Clone, PartialEq, Eq)]
pub enum ParseErr {
    /// The literal writes no number.
    InvalidNumber(String),
    /// The character belongs to no token.
    InvalidToken(char),
}

/// A failure of the validator.
#[derive(Debug, Clone, PartialEq, Eq)]
pub enum CheckErr {
    /// A block is closed that is not open, or left open at the end. Holds the
    /// closing token, or the opening tokens left over.
    UnbalancedBlocks(Vec<Token>),
    /// The tokens do not make up one expression. Holds the variants that
    /// could not be collapsed any further.
    ExprWithNoResult(Vec<TokenType>),
    /// The tokens hold what the rule denies.
    BrokenCheckRule(CheckRules),
}

/// A failure of the reducer.
#[derive(Debug, Clone, PartialEq, Eq)]
pub enum SolveErr {
    /// No operation can be carried out, and the tokens are not one number.
    ExprWithNoResult(Vec<Token>),
    /// An operator met operands it has no result for. Holds the operation.
    OperIllegalValues(Vec<Token>),
}

/// An `Error` as the contracts see it.
pub enum ErrorView {
    Parse(ParseErrView),
    Check(CheckErrView),
    Solve(SolveErrView),
}

/// A `ParseErr` as the contracts see it.
pub enum ParseErrView {
    InvalidNumber(Seq<char>),
    InvalidToken(char),
}

/// A `CheckErr` as the contracts see it.
pub enum CheckErrView {
    UnbalancedBlocks(Seq<TokenView>),
    ExprWithNoResult(Seq<TokenType>),
    BrokenCheckRule(CheckRules),
}

/// A `SolveErr` as the contracts see it.
pub enum SolveErrView {
    ExprWithNoResult(Seq<TokenView>),
    OperIllegalValues(Seq<TokenView>),
}

impl View for ParseErr {
    type V = ParseErrView;

    open spec fn view(&self) -> ParseErrView {
        match self {
            ParseErr::InvalidNumber(lit) => ParseErrView::InvalidNumber(lit@),
            ParseErr::InvalidToken(c) => ParseErrView::InvalidToken(*c),
        }
    }
}

impl View for CheckErr {
    type V = CheckErrView;

    open spec fn view(&self) -> CheckErrView {
        match self {
            CheckErr::UnbalancedBlocks(tokens) => CheckErrView::UnbalancedBlocks(
                tokens.deep_view(),
            ),
            CheckErr::ExprWithNoResult(types) => CheckErrView::ExprWithNoResult(types@),
            CheckErr::BrokenCheckRule(rule) => CheckErrView::BrokenCheckRule(*rule),
        }
    }
}

impl View for SolveErr {
    type V = SolveErrView;

    open spec fn view(&self) -> SolveErrView {
        match self {
            SolveErr::ExprWithNoResult(tokens) => SolveErrView::ExprWithNoResult(
                tokens.deep_view(),
            ),
            SolveErr::OperIllegalValues(tokens) => SolveErrView::OperIllegalValues(
                tokens.deep_view(),
            ),
        }
    }
}

impl View for Error {
    type V = ErrorView;

    open spec fn view(&self) -> ErrorView {
        match self {
            Error::Parse(e) => ErrorView::Parse(e@),
            Error::Check(e) => ErrorView::Check(e@),
            Error::Solve(e) => ErrorView::Solve(e@),
        }
    }
}

/// What the tokens write, one space between each two of them.
pub open spec fn tokens_text(tokens: Seq<Token>) -> Seq<char> {
    joined(texts(tokens), " "@)
}

impl Text for ParseErr {
    open spec fn text(&self) -> Seq<char> {
        match self {
            ParseErr::InvalidNumber(num) => "invalid number '"@ + num@ + "'"@,
            ParseErr::InvalidToken(tok) => "invalid token '"@.push(*tok) + "'"@,
        }
    }

    fn to_string(&self) -> (s: String) {
        match self {
            ParseErr::InvalidNumber(num) => {
                let mut s = String::from_str("invalid number '");
                s.append(num.as_str());
                s.append("'");
                s
            },
            ParseErr::InvalidToken(tok) => {
                let mut s = String::from_str("invalid token '");
                push_char(&mut s, *tok);
                s.append("'");
                s
            },
        }
    }
}

impl Text for CheckErr {
    open spec fn text(&self) -> Seq<char> {
        match self {
            CheckErr::UnbalancedBlocks(blocks) => "unbalanced blocks '"@ + tokens_text(blocks@)
                + "'"@,
            CheckErr::ExprWithNoResult(types) => "expression has no results '"@ + joined(
                texts(types@),
                " "@,
            ) + "'"@,
            CheckErr::BrokenCheckRule(rule) => "broken check rule '"@ + rule.text() + "'"@,
        }
    }

    fn to_string(&self) -> (s: String) {
        match self {
            CheckErr::UnbalancedBlocks(blocks) => {
                let mut s = String::from_str("unbalanced blocks '");
                s.append(fmt(blocks.as_slice(), None).as_str());
                s.append("'");
                s
            },
            CheckErr::ExprWithNoResult(types) => {
                let mut s = String::from_str("expression has no results '");
                s.append(fmt(types.as_slice(), None).as_str());
                s.append("'");
                s
            },
            CheckErr::BrokenCheckRule(rule) => {
                let mut s = String::from_str("broken check rule '");
                s.append(rule.to_string().as_str());
                s.append("'");
                s
            },
        }
    }
}

impl Text for SolveErr {
    open spec fn text(&self) -> Seq<char> {
        match self {
            SolveErr::OperIllegalValues(tokens) => "invalid operation '"@ + tokens_text(tokens@)
                + "'"@,
            SolveErr::ExprWithNoResult(tokens) => "expression has no results '"@ + tokens_text(
                tokens@,
            ) + "'"@,
        }
    }

    fn to_string(&self) -> (s: String) {
        match self {
            SolveErr::OperIllegalValues(tokens) => {
                let mut s = String::from_str("invalid operation '");
                s.append(fmt(tokens.as_slice(), None).as_str());
                s.append("'");
                s
            },
            SolveErr::ExprWithNoResult(tokens) => {
                let mut s = String::from_str("expression has no results '");
                s.append(fmt(tokens.as_slice(), None).as_str());
                s.append("'");
                s
            },
        }
    }
}

impl Text for Error {
    open spec fn text(&self) -> Seq<char> {
        match self {
            Error::Parse(err) => "ParseErr: "@ + err.text(),
            Error::Check(err) => "CheckErr: "@ + err.text(),
            Error::Solve(err) => "SolveErr: "@ + err.text(),
        }
    }

    fn to_string(&self) -> (s: String) {
        match self {
            Error::Parse(err) => {
                let mut s = String::from_str("ParseErr: ");
                s.append(err.to_string().as_str());
                s
            },
            Error::Check(err) => {
                let mut s = String::from_str("CheckErr: ");
                s.append(err.to_string().as_str());
                s
            },
            Error::Solve(err) => {
                let mut s = String::from_str("SolveErr: ");
                s.append(err.to_string().as_str());
                s
            },
        }
    }
}

} // verus!
