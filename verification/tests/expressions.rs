use calculator::expression::error::{CheckErr, Error};
use calculator::expression::solver::{check_rules, parse_tokens, resolve};
use calculator::expression::token::TokenType;
use calculator::expression::validator::collapse_expression;
use calculator::types::rational::Rational;

const NUM: TokenType = TokenType::Number;
const BIN: TokenType = TokenType::BinaryOperator;
const UNL: TokenType = TokenType::UnaryOperatorLeft;
const UNR: TokenType = TokenType::UnaryOperatorRight;
const STA: TokenType = TokenType::StartBlock;
const END: TokenType = TokenType::EndBlock;

#[test]
fn check_expressions() {
    let expression_valid1 = &parse_tokens("1 * 2 + 4").unwrap();
    let expression_valid2 = &parse_tokens("-1 * 2 + -4").unwrap();
    let expression_valid3 = &parse_tokens("1 + (12 * (2 + 3) + (3 + 4) + 3)").unwrap();
    let expression_signs = &parse_tokens("-1 * 2 + --4").unwrap();
    let expression_invalid2 = &parse_tokens("( ) * )").unwrap();
    assert!(check_rules(expression_valid1, &[]).is_ok());
    assert!(check_rules(expression_valid2, &[]).is_ok());
    assert!(check_rules(expression_valid3, &[]).is_ok());
    // A sign in front of a signed number is a sign in front of a number.
    assert!(check_rules(expression_signs, &[]).is_ok());
    assert!(check_rules(expression_invalid2, &[]).is_err());
}

#[test]
fn test_check_expressions() -> Result<(), Error> {
    let expression_valid1 = &parse_tokens("1 * 2 + 4")?;
    let expression_valid2 = &parse_tokens("-1 * 2 + -4")?;
    let expression_valid3 = &parse_tokens("1 + (12 * (2 + 3) + (3 + 4) + 3)")?;
    let expression_signs = &parse_tokens("-1 * 2 + --4")?;
    let expression_invalid2 = &parse_tokens("( ) * )")?;
    assert!(check_rules(expression_valid1, &[]).is_ok());
    assert!(check_rules(expression_valid2, &[]).is_ok());
    assert!(check_rules(expression_valid3, &[]).is_ok());
    // A sign in front of a signed number is a sign in front of a number.
    assert!(check_rules(expression_signs, &[]).is_ok());
    assert!(check_rules(expression_invalid2, &[]).is_err());
    Ok(())
}

#[test]
fn test_solve_expr() -> Result<(), Error> {
    let actual_result1 = resolve("10 % 9 + 3 * 5 * 2 / 5 - -6", &[], &[])?;
    let actual_result2 = resolve("10 % (6 / (9 - 3) * 3) * 5 * 3 / 5 - -6", &[], &[])?;
    let actual_result3 = resolve("10 % (6 / |9 - 15| * 3) * 5 * 3 / 5 - -6", &[], &[])?;
    let expected_result1 = Rational::from_i64(13);
    // 10 % 3 is 1, times 5 times 3 over 5 is 3, and 3 less -6 is 9.
    let expected_result2 = Rational::from_i64(9);
    let expected_result3 = Rational::from_i64(9);
    assert_eq!(actual_result1, expected_result1);
    assert_eq!(actual_result2, expected_result2);
    assert_eq!(actual_result3, expected_result3);
    Ok(())
}

fn collapsed_once(stack: &[TokenType]) -> Option<Vec<TokenType>> {
    let mut stack = stack.to_vec();
    if collapse_expression(&mut stack) {
        Some(stack)
    } else {
        None
    }
}

#[test]
fn each_pattern_collapses_in_one_step() {
    assert_eq!(collapsed_once(&[NUM, BIN, NUM]), Some(vec![NUM]));
    assert_eq!(collapsed_once(&[UNL, NUM]), Some(vec![NUM]));
    assert_eq!(collapsed_once(&[STA, UNL, NUM]), Some(vec![STA, NUM]));
    assert_eq!(collapsed_once(&[NUM, BIN, UNL, NUM]), Some(vec![NUM]));
    assert_eq!(collapsed_once(&[STA, NUM, END]), Some(vec![NUM]));
    assert_eq!(collapsed_once(&[NUM, UNR]), Some(vec![NUM]));
}

#[test]
fn collapse_touches_the_top_only() {
    assert_eq!(collapsed_once(&[END, END, NUM, BIN, UNL, NUM]), Some(vec![END, END, NUM]));
    assert_eq!(collapsed_once(&[BIN, UNL, NUM]), Some(vec![BIN, NUM]));
    assert_eq!(collapsed_once(&[UNL, UNL, NUM]), Some(vec![UNL, NUM]));
    assert_eq!(collapsed_once(&[NUM, BIN, NUM, BIN]), None);
    assert_eq!(collapsed_once(&[STA, END]), None);
    assert_eq!(collapsed_once(&[NUM]), None);
    assert_eq!(collapsed_once(&[]), None);
}

#[test]
fn what_is_left_uncollapsed_is_reported() {
    let tokens = parse_tokens("1+*2").unwrap();
    assert_eq!(
        check_rules(&tokens, &[]),
        Err(Error::Check(CheckErr::ExprWithNoResult(vec![NUM, BIN, BIN, NUM])))
    );
}
