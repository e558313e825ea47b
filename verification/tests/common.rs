use calculator::common::{color, convert, disp_small, fmt, is_integer, Color, Text};
use calculator::expression::error::{CheckErr, Error, ParseErr, SolveErr};
use calculator::expression::solver::{parse_tokens, CheckRules};
use calculator::expression::token::{BinaryOp, StartBlock, Token, TokenType};
use calculator::types::big_uint::BigUInt;
use calculator::types::rational::Rational;

#[test]
fn test_product_small() {
    let actual1 = disp_small(4u64, 6u64);
    let expected1 = BigUInt::from(vec![120]);
    assert_eq!(actual1, expected1);
}

#[test]
fn test_is_integer() {
    let int = Rational::from_str("34/2").unwrap();
    let rat = Rational::from_str("34.3").unwrap();
    assert!(is_integer(&int));
    assert!(!is_integer(&rat));
    // Values that are no numbers cannot be built at all.
    assert!(Rational::from_str("0/0").is_none());
    assert!(Rational::from_str("1/0").is_none());
}

#[test]
fn fmt_joins_with_spaces_by_default() {
    let tokens = parse_tokens("1 -5 *-(|-37|*4.8)").unwrap();
    assert_eq!(fmt(&tokens, None), "1 - 5 * - ( | - 37 | * 24/5 )");
    assert_eq!(fmt(&tokens[..3], Some(", ")), "1, -, 5");
    let none: Vec<Token> = Vec::new();
    assert_eq!(fmt(&none, None), "");
}

#[test]
fn convert_wraps_each_item() {
    let blocks = [StartBlock::Bracket, StartBlock::Abs];
    let tokens: Vec<Token> = convert(&blocks);
    assert_eq!(
        tokens,
        vec![Token::StartBlock(StartBlock::Bracket), Token::StartBlock(StartBlock::Abs)]
    );
}

#[test]
fn color_wraps_text_for_a_terminal_only() {
    assert_eq!(color(&Color::SUC, "ok", true), "\x1b[1;32mok\x1b[0m");
    assert_eq!(color(&Color::FAI, "no", true), "\x1b[1;31mno\x1b[0m");
    assert_eq!(color(&Color::TIT, "t", true), "\x1b[1;34mt\x1b[0m");
    assert_eq!(color(&Color::SUB, "s", true), "\x1b[1;36ms\x1b[0m");
    assert_eq!(color(&Color::OTH, "o", true), "\x1b[1;33mo\x1b[0m");
    assert_eq!(color(&Color::SUC, "ok", false), "ok");
}

#[test]
fn numbers_are_written_as_fractions() {
    assert_eq!(Rational::from_i64(0).to_string(), "0");
    assert_eq!(Rational::from_i64(-12).to_string(), "-12");
    assert_eq!(Rational::from_str("4.8").unwrap().to_string(), "24/5");
    assert_eq!(Rational::from_str("-0.125").unwrap().to_string(), "-1/8");
    assert_eq!(
        Rational::from_str("123456789012345678901234567890").unwrap().to_string(),
        "123456789012345678901234567890"
    );
    assert_eq!(Rational::from_i64(0).neg().to_string(), "0");
}

#[test]
fn errors_are_written_out() {
    let parse = Error::Parse(ParseErr::InvalidToken('x'));
    assert_eq!(parse.to_string(), "ParseErr: invalid token 'x'");
    let number = Error::Parse(ParseErr::InvalidNumber(String::from("1..2")));
    assert_eq!(number.to_string(), "ParseErr: invalid number '1..2'");
    let rule = Error::Check(CheckErr::BrokenCheckRule(CheckRules::DenyDivision));
    assert_eq!(rule.to_string(), "CheckErr: broken check rule 'DenyDivision'");
    let blocks = Error::Check(CheckErr::UnbalancedBlocks(vec![
        Token::StartBlock(StartBlock::Bracket),
        Token::StartBlock(StartBlock::Abs),
    ]));
    assert_eq!(blocks.to_string(), "CheckErr: unbalanced blocks '( |'");
    let shape = Error::Check(CheckErr::ExprWithNoResult(vec![
        TokenType::Number,
        TokenType::BinaryOperator,
    ]));
    assert_eq!(shape.to_string(), "CheckErr: expression has no results 'Number BinaryOperator'");
    let zero = Error::Solve(SolveErr::OperIllegalValues(vec![
        Token::from(Rational::from_i64(4)),
        Token::from(BinaryOp::Div),
        Token::from(Rational::from_i64(0)),
    ]));
    assert_eq!(zero.to_string(), "SolveErr: invalid operation '4 / 0'");
    let stuck = Error::Solve(SolveErr::ExprWithNoResult(vec![]));
    assert_eq!(stuck.to_string(), "SolveErr: expression has no results ''");
}

#[test]
fn test_product() {
    let actual1 = disp_small(4u64, 6u64);
    let expected1 = BigUInt::from_u64(120u64);
    assert_eq!(actual1, expected1);
}
