use calculator::expression::error::{Error, ParseErr};
use calculator::expression::token::Token;
use calculator::types::big_uint::BigUInt;
use calculator::types::rational::Rational;

fn r(text: &str) -> Rational {
    Rational::from_str(text).unwrap()
}

#[test]
fn sum_difference_product() {
    assert_eq!(r("1/2").add(&r("1/3")), r("5/6"));
    assert_eq!(r("1/2").sub(&r("1/3")), r("1/6"));
    assert_eq!(r("1/3").sub(&r("1/2")), r("-1/6"));
    assert_eq!(r("2/3").mul(&r("-3/4")), r("-1/2"));
    assert_eq!(r("-1").add(&r("1")), r("0"));
}

#[test]
fn quotient_and_remainder() {
    assert_eq!(r("1/2").div(&r("-1/4")), Some(r("-2")));
    assert_eq!(r("7").rem(&r("3")), Some(r("1")));
    assert_eq!(r("-7").rem(&r("3")), Some(r("-1")));
    assert_eq!(r("7").rem(&r("-3")), Some(r("1")));
    assert_eq!(r("7/2").rem(&r("3/2")), Some(r("1/2")));
    assert_eq!(r("-6").rem(&r("3")), Some(r("0")));
    assert_eq!(r("5").div(&r("0")), None);
    assert_eq!(r("5").rem(&r("0")), None);
}

#[test]
fn remainder_zero_has_no_sign() {
    let zero = r("-6").rem(&r("3")).unwrap();
    assert!(!zero.is_negative());
    assert!(zero.is_zero());
    assert_eq!(zero.to_string(), "0");
}

#[test]
fn powers_of_the_size() {
    assert_eq!(r("-2/3").abs_pow(2), Some(r("4/9")));
    assert_eq!(r("-2/3").abs_pow(-3), Some(r("27/8")));
    assert_eq!(r("5").abs_pow(0), Some(r("1")));
    assert_eq!(r("0").abs_pow(-1), None);
    assert_eq!(r("0").abs_pow(0), Some(r("1")));
}

#[test]
fn sign_and_size() {
    assert_eq!(r("3/4").neg(), r("-3/4"));
    assert_eq!(r("-3/4").neg(), r("3/4"));
    assert_eq!(r("-3/4").abs(), r("3/4"));
    assert_eq!(r("0").neg(), r("0"));
    assert!(r("-3/4").is_negative());
    assert!(!r("3/4").is_negative());
    assert_eq!(*r("-6/8").numer(), BigUInt::from_u64(3));
    assert_eq!(*r("-6/8").denom(), BigUInt::from_u64(4));
}

#[test]
fn whole_numbers() {
    assert_eq!(Rational::from_i64(-5), r("-5"));
    assert_eq!(Rational::from_u64(u64::MAX), r("18446744073709551615"));
    assert_eq!(Rational::from_i64(i64::MIN), r("-9223372036854775808"));
    assert_eq!(Rational::from_biguint(BigUInt::from(vec![0, 1])), r("256"));
    assert!(r("34/2").is_integer());
    assert!(!r("34.3").is_integer());
}

#[test]
fn literals_in_plain_decimal_notation() {
    assert_eq!(r("007"), Rational::from_i64(7));
    assert_eq!(r("4.8"), r("24/5"));
    assert_eq!(r("1."), Rational::from_i64(1));
    assert_eq!(r("1.50"), r("3/2"));
    assert_eq!(r("0.000"), Rational::from_i64(0));
    assert_eq!(r("39.0625"), r("625/16"));
}

#[test]
fn literals_read_and_written_again() {
    assert_eq!(r("007").to_string(), "7");
    assert_eq!(r("000").to_string(), "0");
    assert_eq!(r("120").to_string(), "120");
    assert_eq!(r("4.8").to_string(), "24/5");
    assert_eq!(r(&Rational::from_i64(1542).to_string()), Rational::from_i64(1542));
}

#[test]
fn texts_that_write_no_number() {
    assert!(Rational::from_str("").is_none());
    assert!(Rational::from_str(".5").is_none());
    assert!(Rational::from_str("1..2").is_none());
    assert!(Rational::from_str("1.2.3").is_none());
    assert!(Rational::from_str("_1").is_none());
    assert!(Rational::from_str("abc").is_none());
    assert!(Rational::from_str("1/0").is_none());
    assert!(Rational::from_str("0/0").is_none());
}

#[test]
fn parse_num_hands_the_literal_back() {
    assert_eq!(
        Token::parse_num("1.2.3"),
        Err(Error::Parse(ParseErr::InvalidNumber(String::from("1.2.3"))))
    );
    assert_eq!(Token::parse_num("12"), Ok(Token::Number(Rational::from_i64(12))));
}

#[test]
fn clones_are_equal() {
    let a = r("-22/7");
    assert_eq!(a.clone(), a);
    let t = Token::Number(a);
    assert_eq!(t.clone(), t);
}

#[test]
fn separators_group_digits() {
    assert_eq!(r("1_000"), Rational::from_i64(1000));
    assert_eq!(
        Token::parse_num("1_000_000"),
        Ok(Token::Number(Rational::from_i64(1_000_000)))
    );
}
