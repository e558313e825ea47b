//! Powers, factorials and derangements of exact numbers.

use crate::expression::error::{Error, ErrorView, SolveErr, SolveErrView};
use crate::expression::token::{BinaryOp, Token, TokenView, UnaryOpRight};
use crate::types::big_uint::BigUInt;
use crate::types::frac::{lemma_pow_neg, lemma_whole_arithmetic, magnitude, Frac};
use crate::types::rational::{biguint_mul, Rational};
use vstd::arithmetic::power::{lemma_pow_positive, pow};
use vstd::prelude::*;

verus! {

/// The product of the whole numbers from `first` to `last`, both included.
pub open spec fn product_of(first: nat, last: nat) -> nat
    decreases last,
{
    if first > last {
        1
    } else if last == 0 {
        0
    } else {
        last * product_of(first, (last - 1) as nat)
    }
}

/// The factorial of `n`.
pub open spec fn factorial(n: nat) -> nat {
    product_of(1, n)
}

/// A range of factors may be cut in two.
pub proof fn lemma_product_split(first: nat, mid: nat, last: nat)
    requires
        first <= mid <= last,
    ensures
        product_of(first, last) == product_of(first, mid) * product_of(mid + 1, last),
    decreases last,
{
    if mid == last {
        assert(product_of(mid + 1, last) == 1);
    } else {
        lemma_product_split(first, mid, (last - 1) as nat);
        let a = product_of(first, mid);
        let b = product_of(mid + 1, (last - 1) as nat);
        assert(last * (a * b) == a * (last * b)) by (nonlinear_arith);
    }
}

/// The product of the whole numbers from `first` to `last`, found by halving
/// the range.
pub fn disp(first: u64, last: u64) -> (res: BigUInt)
    requires
        first <= last,
    ensures
        res@ == product_of(first as nat, last as nat),
    decreases last - first,
{
    if first == last {
        proof {
            if last > 0 {
                assert(product_of(first as nat, (last - 1) as nat) == 1);
            }
        }
        return BigUInt::from_u64(first);
    }
    let mid = first + (last - first) / 2;
    proof {
        lemma_product_split(first as nat, mid as nat, last as nat);
    }
    biguint_mul(&disp(first, mid), &disp(mid + 1, last))
}

/// The number as an `i32`: for whole numbers from `i32::MIN` to `i32::MAX`.
pub fn to_i32(num: &Rational) -> (res: Option<i32>)
    ensures
        match res {
            Some(n) => num@ == Frac::from_int(n as int),
            None => !(num@.is_integer() && i32::MIN <= num@.num <= i32::MAX),
        },
{
    if !num.is_integer() {
        return None;
    }
    match num.numer().to_u64() {
        Some(size) => {
            if num.is_negative() {
                if size > 0x8000_0000u64 {
                    None
                } else if size == 0x8000_0000u64 {
                    Some(i32::MIN)
                } else {
                    Some(-(size as i32))
                }
            } else if size > i32::MAX as u64 {
                None
            } else {
                Some(size as i32)
            }
        },
        None => None,
    }
}

/// The number as a `u64`: for whole numbers from zero to `u64::MAX`.
pub fn to_u64(num: &Rational) -> (res: Option<u64>)
    ensures
        match res {
            Some(n) => num@ == Frac::from_int(n as int),
            None => !(num@.is_integer() && 0 <= num@.num <= u64::MAX),
        },
{
    if !num.is_integer() {
        return None;
    }
    if num.is_negative() {
        return None;
    }
    num.numer().to_u64()
}

/// The power `base ^ exp`, where it has a value: for a whole exponent from
/// `i32::MIN` to `i32::MAX`, and not for a negative power of zero.
pub open spec fn exp_value(base: Frac, exp: Frac) -> Option<Frac> {
    if exp.is_integer() && i32::MIN <= exp.num <= i32::MAX && !(base.is_zero() && exp.num < 0) {
        Some(base.pow(exp.num))
    } else {
        None
    }
}

/// The tokens `left op right`.
pub open spec fn binary_operation(left: Frac, op: BinaryOp, right: Frac) -> Seq<TokenView> {
    seq![TokenView::Number(left), TokenView::BinaryOperator(op), TokenView::Number(right)]
}

fn binary_tokens(left: &Rational, op: BinaryOp, right: &Rational) -> (tokens: Vec<Token>)
    ensures
        tokens.deep_view() == binary_operation(left@, op, right@),
{
    let mut tokens: Vec<Token> = Vec::new();
    tokens.push(Token::Number(left.clone()));
    tokens.push(Token::BinaryOperator(op));
    tokens.push(Token::Number(right.clone()));
    assert(tokens.deep_view() =~= binary_operation(left@, op, right@));
    tokens
}

/// Raises `base` to the power `power`, a whole number that an `i32` holds.
///
/// The result of a negative base is negative for odd exponents. Fails with
/// `OperIllegalValues`, which holds the operation, where the power has no
/// value.
pub fn exp(base: &Rational, power: &Rational) -> (res: Result<Rational, Error>)
    ensures
        match exp_value(base@, power@) {
            Some(q) => res matches Ok(r) && r@ == q,
            None => res matches Err(e) && e@ == ErrorView::Solve(
                SolveErrView::OperIllegalValues(binary_operation(base@, BinaryOp::Exp, power@)),
            ),
        },
{
    let e = match to_i32(power) {
        Some(e) => e,
        None => {
            return Err(
                Error::Solve(SolveErr::OperIllegalValues(binary_tokens(base, BinaryOp::Exp, power))),
            );
        },
    };
    let size = match base.abs_pow(e) {
        Some(size) => size,
        None => {
            return Err(
                Error::Solve(SolveErr::OperIllegalValues(binary_tokens(base, BinaryOp::Exp, power))),
            );
        },
    };
    let odd = power.numer().is_odd();
    proof {
        let k = magnitude(e as int);
        lemma_pow_neg(magnitude(base@.num) as int, k);
        if base@.num != 0 {
            lemma_pow_positive(magnitude(base@.num) as int, k);
        }
    }
    if base.is_negative() && odd {
        Ok(size.neg())
    } else {
        Ok(size)
    }
}

/// The factorial of `num`, where it has a value: for whole numbers from zero
/// to `u64::MAX`.
pub open spec fn fact_value(num: Frac) -> Option<Frac> {
    if num.is_integer() && 0 <= num.num <= u64::MAX {
        Some(Frac::from_int(factorial(num.num as nat) as int))
    } else {
        None
    }
}

/// The tokens `num !`.
pub open spec fn factorial_operation(num: Frac) -> Seq<TokenView> {
    seq![TokenView::Number(num), TokenView::UnaryOperatorRight(UnaryOpRight::Fact)]
}

/// The factorial of `num`.
///
/// Fails with `OperIllegalValues`, which holds the operation, where `num` is
/// negative, no whole number, or above `u64::MAX`.
pub fn fact(num: &Rational) -> (res: Result<Rational, Error>)
    ensures
        match fact_value(num@) {
            Some(q) => res matches Ok(r) && r@ == q,
            None => res matches Err(e) && e@ == ErrorView::Solve(
                SolveErrView::OperIllegalValues(factorial_operation(num@)),
            ),
        },
{
    match to_u64(num) {
        Some(n) => {
            if n == 0 {
                Ok(Rational::from_u64(1))
            } else {
                Ok(Rational::from_biguint(disp(1, n)))
            }
        },
        None => {
            let mut tokens: Vec<Token> = Vec::new();
            tokens.push(Token::Number(num.clone()));
            tokens.push(Token::UnaryOperatorRight(UnaryOpRight::Fact));
            assert(tokens.deep_view() =~= factorial_operation(num@));
            Err(Error::Solve(SolveErr::OperIllegalValues(tokens)))
        },
    }
}

/// In how many ways `n` things can be put in a row so that none stands where
/// it stood.
pub open spec fn derangements(n: nat) -> nat
    decreases n,
{
    if n == 0 {
        1
    } else if n == 1 {
        0
    } else {
        ((n - 1) * (derangements((n - 1) as nat) + derangements((n - 2) as nat))) as nat
    }
}

/// `n!` times the alternating sum of the `1/i!` up to `i = n`, as the sum
/// grows term by term: each step multiplies by `n` and adds or takes one.
pub open spec fn alternating_sum(n: nat) -> int
    decreases n,
{
    if n == 0 {
        1
    } else if n % 2 == 0 {
        n * alternating_sum((n - 1) as nat) + 1
    } else {
        n * alternating_sum((n - 1) as nat) - 1
    }
}

/// The alternating sum counts the derangements.
pub proof fn lemma_alternating_sum(n: nat)
    ensures
        alternating_sum(n) == derangements(n),
    decreases n,
{
    if n >= 2 {
        lemma_alternating_sum((n - 1) as nat);
        lemma_alternating_sum((n - 2) as nat);
        let a = alternating_sum((n - 1) as nat);
        let b = alternating_sum((n - 2) as nat);
        assert(n * a == (n - 1) * a + a) by (nonlinear_arith);
        assert((n - 1) * (a + b) == (n - 1) * a + (n - 1) * b) by (nonlinear_arith);
    } else if n == 1 {
        assert(alternating_sum(0) == 1);
    }
}

/// The number of derangements of `num` things, where it has a value: for
/// whole numbers from zero to `u64::MAX`.
pub open spec fn derang_value(num: Frac) -> Option<Frac> {
    if num.is_integer() && 0 <= num.num <= u64::MAX {
        Some(Frac::from_int(derangements(num.num as nat) as int))
    } else {
        None
    }
}

/// The number of derangements of `num` things.
///
/// Fails with `OperIllegalValues`, which holds `num`, where `num` is
/// negative, no whole number, or above `u64::MAX`.
pub fn derang(num: &Rational) -> (res: Result<Rational, Error>)
    ensures
        match derang_value(num@) {
            Some(q) => res matches Ok(r) && r@ == q,
            None => res matches Err(e) && e@ == ErrorView::Solve(
                SolveErrView::OperIllegalValues(seq![TokenView::Number(num@)]),
            ),
        },
{
    let n = match to_u64(num) {
        Some(n) => n,
        None => {
            let mut tokens: Vec<Token> = Vec::new();
            tokens.push(Token::Number(num.clone()));
            assert(tokens.deep_view() =~= seq![TokenView::Number(num@)]);
            return Err(Error::Solve(SolveErr::OperIllegalValues(tokens)));
        },
    };
    let one = Rational::from_u64(1);
    let mut sum = Rational::from_u64(1);
    let mut i: u64 = 0;
    while i < n
        invariant
            i <= n,
            one@ == Frac::from_int(1),
            sum@ == Frac::from_int(alternating_sum(i as nat)),
        decreases n - i,
    {
        i += 1;
        let grown = sum.mul(&Rational::from_u64(i));
        proof {
            let before = alternating_sum((i - 1) as nat);
            lemma_whole_arithmetic(before, i as int);
            lemma_whole_arithmetic(before * i, 1);
            assert(before * i == i * before) by (nonlinear_arith);
        }
        sum = if i % 2 == 0 {
            grown.add(&one)
        } else {
            grown.sub(&one)
        };
    }
    proof {
        lemma_alternating_sum(n as nat);
    }
    Ok(sum)
}

} // verus!
