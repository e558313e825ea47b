use calculator::expression::error::Error;
use calculator::expression::solver;
use calculator::expression::token::{BinaryOp, EndBlock, StartBlock, Token, UnaryOpLeft};
use calculator::types::rational::Rational;

fn number(n: i64) -> Token {
    Token::Number(Rational::from_i64(n))
}

#[test]
fn parse_tokens() {
    let expr = "12*3-(-7)";
    let expected_expr_tokens = vec![
        number(12),
        Token::from(BinaryOp::Mul),
        number(3),
        Token::from(BinaryOp::Sub),
        Token::from(StartBlock::Bracket),
        Token::from(UnaryOpLeft::Neg),
        number(7),
        Token::from(EndBlock::Bracket),
    ];
    let actual_expr_tokens = solver::parse_tokens(expr).unwrap();
    assert_eq!(expected_expr_tokens, actual_expr_tokens);
}

#[test]
fn test_parse_tokens() -> Result<(), Error> {
    let expr1 = "12*3-(-7)";
    let expected_expr_tokens1 = vec![
        number(12),
        Token::from(BinaryOp::Mul),
        number(3),
        Token::from(BinaryOp::Sub),
        Token::from(StartBlock::Bracket),
        Token::from(UnaryOpLeft::Neg),
        number(7),
        Token::from(EndBlock::Bracket),
    ];
    let actual_expr_tokens1 = solver::parse_tokens(expr1)?;
    let expr2 = "|(||)|||";
    let expected_expr_tokens2 = vec![
        Token::from(StartBlock::Abs),
        Token::from(StartBlock::Bracket),
        Token::from(StartBlock::Abs),
        Token::from(EndBlock::Abs),
        Token::from(EndBlock::Bracket),
        Token::from(EndBlock::Abs),
        Token::from(StartBlock::Abs),
        Token::from(EndBlock::Abs),
    ];
    let actual_expr_tokens2 = solver::parse_tokens(expr2)?;
    assert_eq!(expected_expr_tokens1, actual_expr_tokens1);
    assert_eq!(expected_expr_tokens2, actual_expr_tokens2);
    Ok(())
}

#[test]
fn test_next_op_index() -> Result<(), Error> {
    let expr1 = solver::parse_tokens("1 + 2 * 4")?;
    let expr2 = solver::parse_tokens("1")?;
    assert_eq!(solver::next_operation(&expr1), Some(3));
    assert_eq!(solver::next_operation(&expr2), None);
    Ok(())
}

#[test]
fn next_operation_takes_the_leftmost_of_equal_rank() {
    let tokens = solver::parse_tokens("1*2/3%4").unwrap();
    assert_eq!(solver::next_operation(&tokens), Some(1));
    let tokens = solver::parse_tokens("1+2^3^4").unwrap();
    assert_eq!(solver::next_operation(&tokens), Some(3));
    let tokens = solver::parse_tokens("-(1)+|2|").unwrap();
    assert_eq!(solver::next_operation(&tokens), Some(1));
    let tokens = solver::parse_tokens("1+(2*3)").unwrap();
    assert_eq!(solver::next_operation(&tokens), Some(4));
    let tokens = solver::parse_tokens("(+)").unwrap();
    assert_eq!(solver::next_operation(&tokens), None);
}
