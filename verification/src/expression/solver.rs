//! From a string to its value: tokenize, repair, check, reduce.

use crate::expression::error::{Error, ErrorView};
use crate::expression::fixer::fixed;
use crate::expression::laws::lemma_evaluation_outcomes;
pub use crate::expression::fixer::fix_tokens;
use crate::expression::reducer::reduce;
pub use crate::expression::reducer::{calculate, next_operation, solve, solve_next};
use crate::expression::token::{Token, TokenView};
use crate::expression::tokenizer::tokenize;
pub use crate::expression::tokenizer::parse_tokens;
use crate::expression::validator::validate;
pub use crate::expression::validator::check_rules;
use crate::types::frac::Frac;
use crate::types::rational::Rational;
use crate::common::Text;
use vstd::prelude::*;
use vstd::string::StringExecFns;

verus! {

/// A repair of the token sequence that the caller may ask for.
#[derive(Debug, Clone, Copy, PartialEq, Eq, Structural)]
pub enum FixRules {
    /// `(expr) (expr)` becomes `(expr) * (expr)`.
    BlockProduct,
    /// `(|(` becomes `(|()|)`.
    CloseBlocks,
}

/// A restriction on the token sequence that the caller may ask for.
#[derive(Debug, Clone, Copy, PartialEq, Eq, Structural)]
pub enum CheckRules {
    /// Denies `++expr` and `-+-+expr`, allows `expr+-expr` and `expr--expr`.
    DenyMultipleSign,
    /// Denies `++expr`, `-+-+expr`, `expr+-expr` and `expr--expr`.
    DenyAllMultipleSign,
    /// Denies `expr / expr`.
    DenyDivision,
    /// Denies `expr % expr`.
    DenyModule,
    /// Denies `expr ^ expr`.
    DenyExponent,
    /// Denies `expr !`.
    DenyFactorial,
    /// Denies `! expr`. No token stands for a derangement, so no token
    /// sequence breaks this rule.
    DenyDerangement,
}

impl Text for CheckRules {
    /// The name of the rule.
    open spec fn text(&self) -> Seq<char> {
        match self {
            CheckRules::DenyMultipleSign => "DenyMultipleSign"@,
            CheckRules::DenyAllMultipleSign => "DenyAllMultipleSign"@,
            CheckRules::DenyDivision => "DenyDivision"@,
            CheckRules::DenyModule => "DenyModule"@,
            CheckRules::DenyExponent => "DenyExponent"@,
            CheckRules::DenyFactorial => "DenyFactorial"@,
            CheckRules::DenyDerangement => "DenyDerangement"@,
        }
    }

    fn to_string(&self) -> (s: String) {
        match self {
            CheckRules::DenyMultipleSign => String::from_str("DenyMultipleSign"),
            CheckRules::DenyAllMultipleSign => String::from_str("DenyAllMultipleSign"),
            CheckRules::DenyDivision => String::from_str("DenyDivision"),
            CheckRules::DenyModule => String::from_str("DenyModule"),
            CheckRules::DenyExponent => String::from_str("DenyExponent"),
            CheckRules::DenyFactorial => String::from_str("DenyFactorial"),
            CheckRules::DenyDerangement => String::from_str("DenyDerangement"),
        }
    }
}

impl Text for FixRules {
    /// The name of the rule.
    open spec fn text(&self) -> Seq<char> {
        match self {
            FixRules::BlockProduct => "BlockProduct"@,
            FixRules::CloseBlocks => "CloseBlocks"@,
        }
    }

    fn to_string(&self) -> (s: String) {
        match self {
            FixRules::BlockProduct => String::from_str("BlockProduct"),
            FixRules::CloseBlocks => String::from_str("CloseBlocks"),
        }
    }
}

impl FixRules {
    /// Every repair.
    pub const ALL: [Self; 2] = [Self::BlockProduct, Self::CloseBlocks];
}

impl CheckRules {
    /// Every restriction.
    pub const ALL: [Self; 7] = [
        Self::DenyMultipleSign,
        Self::DenyAllMultipleSign,
        Self::DenyDivision,
        Self::DenyModule,
        Self::DenyExponent,
        Self::DenyFactorial,
        Self::DenyDerangement,
    ];

    /// The restrictions on operators.
    pub const DENY_OP: [Self; 5] = [
        Self::DenyDivision,
        Self::DenyModule,
        Self::DenyExponent,
        Self::DenyFactorial,
        Self::DenyDerangement,
    ];

    /// The restrictions on signs.
    pub const DENY_SIGN: [Self; 2] = [Self::DenyMultipleSign, Self::DenyAllMultipleSign];
}

/// The tokens of `text`, repaired as `fixes` ask and checked under `checks`,
/// or the failure of the first stage that fails.
pub open spec fn parsed(text: Seq<char>, fixes: Seq<FixRules>, checks: Seq<CheckRules>) -> Result<
    Seq<TokenView>,
    ErrorView,
> {
    match tokenize(text) {
        Err(e) => Err(ErrorView::Parse(e)),
        Ok(tokens) => {
            let repaired = fixed(tokens, fixes);
            match validate(repaired, checks) {
                Err(e) => Err(ErrorView::Check(e)),
                Ok(()) => Ok(repaired),
            }
        },
    }
}

/// The value of the expression `text`, or the failure of the first stage
/// that fails.
pub open spec fn evaluated(text: Seq<char>, fixes: Seq<FixRules>, checks: Seq<CheckRules>) -> Result<
    Frac,
    ErrorView,
> {
    match parsed(text, fixes, checks) {
        Err(e) => Err(e),
        Ok(tokens) => match reduce(tokens) {
            Err(e) => Err(ErrorView::Solve(e)),
            Ok(value) => Ok(value),
        },
    }
}

/// Tokenizes `str`, repairs the tokens as `fixes` ask and checks them under
/// `checks`.
pub fn parse(str: &str, fixes: &[FixRules], checks: &[CheckRules]) -> (res: Result<
    Vec<Token>,
    Error,
>)
    ensures
        match parsed(str@, fixes@, checks@) {
            Ok(tokens) => res matches Ok(v) && v.deep_view() == tokens,
            Err(e) => res matches Err(err) && err@ == e,
        },
{
    let mut tokens = parse_tokens(str)?;
    fix_tokens(&mut tokens, fixes);
    check_rules(tokens.as_slice(), checks)?;
    Ok(tokens)
}

/// Evaluates the expression `str`.
///
/// Fails with the failure of the first stage that fails. The reducer fails
/// only where an operation has no value: what has passed the checks is never
/// left without a result for want of an operation to carry out.
pub fn resolve(str: &str, fixes: &[FixRules], checks: &[CheckRules]) -> (res: Result<
    Rational,
    Error,
>)
    ensures
        match evaluated(str@, fixes@, checks@) {
            Ok(value) => res matches Ok(r) && r@ == value,
            Err(e) => res matches Err(err) && err@ == e,
        },
        res matches Err(Error::Solve(e)) ==> e is OperIllegalValues,
{
    proof {
        lemma_evaluation_outcomes(str@, fixes@, checks@);
    }
    let mut tokens = parse(str, fixes, checks)?;
    solve(&mut tokens)
}

} // verus!
