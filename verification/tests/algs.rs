use calculator::common::algs::{derang, disp, exp, fact, to_i32, to_u64};
use calculator::expression::error::{Error, SolveErr};
use calculator::expression::token::{BinaryOp, Token, UnaryOpRight};
use calculator::types::big_uint::BigUInt;
use calculator::types::rational::Rational;

#[test]
fn test_disp() {
    let actual1 = disp(4u64, 6u64);
    let expected1 = BigUInt::from_u64(120u64);
    assert_eq!(actual1, expected1);
}

#[test]
fn test_exp() -> Result<(), Error> {
    let actual1 = exp(&Rational::from_str("2.5").unwrap(), &Rational::from_i64(4))?;
    let expected1 = Rational::from_str("39.0625").unwrap();
    assert_eq!(actual1, expected1);
    Ok(())
}

#[test]
fn test_fact() -> Result<(), Error> {
    let actual1 = fact(&Rational::from_i64(10))?;
    let expected1 = Rational::from_i64(3628800);
    assert_eq!(actual1, expected1);
    Ok(())
}

#[test]
fn derangement_of_ten() {
    let actual = derang(&Rational::from_i64(10)).unwrap();
    assert_eq!(actual, Rational::from_i64(1334961));
}

#[test]
fn derangements_of_small_numbers() {
    let expected = [1i64, 0, 1, 2, 9, 44, 265];
    for (n, d) in expected.iter().enumerate() {
        assert_eq!(derang(&Rational::from_i64(n as i64)).unwrap(), Rational::from_i64(*d));
    }
}

#[test]
fn derangement_needs_a_whole_number() {
    let half = Rational::from_str("0.5").unwrap();
    assert_eq!(
        derang(&half),
        Err(Error::Solve(SolveErr::OperIllegalValues(vec![Token::from(half.clone())])))
    );
    assert!(derang(&Rational::from_i64(-1)).is_err());
}

#[test]
fn factorial_of_zero_and_one() {
    assert_eq!(fact(&Rational::from_i64(0)).unwrap(), Rational::from_i64(1));
    assert_eq!(fact(&Rational::from_i64(1)).unwrap(), Rational::from_i64(1));
}

#[test]
fn factorial_of_twenty_five_is_exact() {
    let expected = Rational::from_str("15511210043330985984000000").unwrap();
    assert_eq!(fact(&Rational::from_i64(25)).unwrap(), expected);
}

#[test]
fn factorial_needs_a_whole_number_from_zero() {
    let minus = Rational::from_i64(-3);
    assert_eq!(
        fact(&minus),
        Err(Error::Solve(SolveErr::OperIllegalValues(vec![
            Token::from(minus.clone()),
            Token::from(UnaryOpRight::Fact),
        ])))
    );
    assert!(fact(&Rational::from_str("2.5").unwrap()).is_err());
}

#[test]
fn power_signs() {
    let minus_two = Rational::from_i64(-2);
    assert_eq!(exp(&minus_two, &Rational::from_i64(3)).unwrap(), Rational::from_i64(-8));
    assert_eq!(exp(&minus_two, &Rational::from_i64(4)).unwrap(), Rational::from_i64(16));
    assert_eq!(
        exp(&minus_two, &Rational::from_i64(-3)).unwrap(),
        Rational::from_str("-0.125").unwrap()
    );
    assert_eq!(
        exp(&minus_two, &Rational::from_i64(-2)).unwrap(),
        Rational::from_str("0.25").unwrap()
    );
    assert_eq!(exp(&minus_two, &Rational::from_i64(0)).unwrap(), Rational::from_i64(1));
    assert_eq!(exp(&Rational::from_i64(0), &Rational::from_i64(5)).unwrap(), Rational::from_i64(0));
}

#[test]
fn power_without_value() {
    let two = Rational::from_i64(2);
    let half = Rational::from_str("0.5").unwrap();
    assert_eq!(
        exp(&two, &half),
        Err(Error::Solve(SolveErr::OperIllegalValues(vec![
            Token::from(two.clone()),
            Token::from(BinaryOp::Exp),
            Token::from(half.clone()),
        ])))
    );
    assert!(exp(&two, &Rational::from_i64(1 << 31)).is_err());
    assert!(exp(&two, &Rational::from_i64(-(1 << 31) - 1)).is_err());
    assert!(exp(&Rational::from_i64(0), &Rational::from_i64(-1)).is_err());
    assert!(exp(&Rational::from_i64(0), &Rational::from_i64(i32::MIN as i64)).is_err());
}

#[test]
fn power_with_the_least_exponent() {
    let least = Rational::from_i64(i32::MIN as i64);
    let greatest = Rational::from_i64(i32::MAX as i64);
    assert_eq!(exp(&Rational::from_i64(1), &least), Ok(Rational::from_i64(1)));
    assert_eq!(exp(&Rational::from_i64(-1), &least), Ok(Rational::from_i64(1)));
    assert_eq!(exp(&Rational::from_i64(-1), &greatest), Ok(Rational::from_i64(-1)));
}

#[test]
fn conversions_to_machine_numbers() {
    assert_eq!(to_i32(&Rational::from_i64(-7)), Some(-7));
    assert_eq!(to_i32(&Rational::from_i64(i32::MAX as i64)), Some(i32::MAX));
    assert_eq!(to_i32(&Rational::from_i64(i32::MAX as i64 + 1)), None);
    assert_eq!(to_i32(&Rational::from_i64(i32::MIN as i64)), Some(i32::MIN));
    assert_eq!(to_i32(&Rational::from_i64(i32::MIN as i64 + 1)), Some(i32::MIN + 1));
    assert_eq!(to_i32(&Rational::from_i64(i32::MIN as i64 - 1)), None);
    assert_eq!(to_i32(&Rational::from_i64(0)), Some(0));
    assert_eq!(to_i32(&Rational::from_str("1.5").unwrap()), None);
    assert_eq!(to_u64(&Rational::from_u64(u64::MAX)), Some(u64::MAX));
    assert_eq!(to_u64(&Rational::from_i64(-1)), None);
    assert_eq!(to_u64(&Rational::from_str("18446744073709551616").unwrap()), None);
    assert_eq!(to_u64(&Rational::from_str("0.5").unwrap()), None);
}

#[test]
fn product_of_a_single_number() {
    assert_eq!(disp(7, 7), BigUInt::from_u64(7));
    assert_eq!(disp(0, 3), BigUInt::from_u64(0));
}
