//! Exact rational numbers of any size.
//!
//! A `Rational` keeps a sign and two naturals in lowest terms. Its arithmetic is
//! done by the `fraction` crate; what that crate hands back is taken over as
//! plain digits.

use crate::types::big_uint::BigUInt;
use crate::types::decimal::{decimal_value, is_plain_decimal, rational_text};
use crate::types::frac::{
    lemma_coprime_with_one, lemma_lowest_terms, lemma_pow_reduced, magnitude, signum, Frac,
};
use crate::types::gcd::coprime;
use fraction::{BigFraction, BigUint, GenericFraction, Ratio, Sign};
use std::str::FromStr;
use vstd::prelude::*;
use vstd::std_specs::cmp::PartialEqSpecImpl;

verus! {

/// A sign and two naturals, as they come back from a computation.
struct RawRatio {
    pub negative: bool,
    pub numer: BigUInt,
    pub denom: BigUInt,
}

impl RawRatio {
    /// The fraction that the parts write.
    spec fn value(&self) -> Frac {
        Frac {
            num: if self.negative {
                -(self.numer@ as int)
            } else {
                self.numer@ as int
            },
            den: self.denom@ as int,
        }
    }
}

/// An exact rational number.
///
/// The denominator is positive, numerator and denominator share no divisor,
/// and zero carries no sign.
#[derive(Debug)]
pub struct Rational {
    negative: bool,
    numer: BigUInt,
    denom: BigUInt,
}

impl View for Rational {
    type V = Frac;

    closed spec fn view(&self) -> Frac {
        Frac {
            num: if self.negative {
                -(self.numer@ as int)
            } else {
                self.numer@ as int
            },
            den: self.denom@ as int,
        }
    }
}

impl DeepView for Rational {
    type V = Frac;

    open spec fn deep_view(&self) -> Frac {
        self@
    }
}

impl Clone for Rational {
    fn clone(&self) -> (res: Self)
        ensures
            res@ == self@,
    {
        proof {
            use_type_invariant(self);
        }
        Rational {
            negative: self.negative,
            numer: self.numer.clone(),
            denom: self.denom.clone(),
        }
    }
}

impl PartialEq for Rational {
    fn eq(&self, other: &Self) -> (same: bool) {
        proof {
            use_type_invariant(self);
            use_type_invariant(other);
        }
        self.negative == other.negative && self.numer.eq(&other.numer) && self.denom.eq(
            &other.denom,
        )
    }
}

impl PartialEqSpecImpl for Rational {
    open spec fn obeys_eq_spec() -> bool {
        true
    }

    open spec fn eq_spec(&self, other: &Self) -> bool {
        self@ == other@
    }
}

impl Eq for Rational {

}

impl Rational {
    #[verifier::type_invariant]
    closed spec fn well_formed(&self) -> bool {
        &&& self.denom@ > 0
        &&& coprime(self.numer@, self.denom@)
        &&& self.numer@ == 0 ==> !self.negative
    }

    /// The number that the parts write, for parts in lowest terms.
    fn from_raw(raw: RawRatio) -> (res: Self)
        requires
            raw.value().is_reduced(),
        ensures
            res@ == raw.value(),
    {
        let zero = raw.numer.is_zero();
        Rational { negative: raw.negative && !zero, numer: raw.numer, denom: raw.denom }
    }

    /// The whole number `n`.
    pub fn from_u64(n: u64) -> (res: Self)
        ensures
            res@ == Frac::from_int(n as int),
    {
        let numer = BigUInt::from_u64(n);
        let denom = BigUInt::from_u64(1);
        proof {
            lemma_coprime_with_one(numer@);
        }
        Rational { negative: false, numer, denom }
    }

    /// The whole number `n`.
    pub fn from_i64(n: i64) -> (res: Self)
        ensures
            res@ == Frac::from_int(n as int),
    {
        let size: u64 = if n >= 0 {
            n as u64
        } else if n == i64::MIN {
            0x8000_0000_0000_0000u64
        } else {
            (-n) as u64
        };
        let numer = BigUInt::from_u64(size);
        let denom = BigUInt::from_u64(1);
        proof {
            lemma_coprime_with_one(numer@);
        }
        Rational { negative: n < 0, numer, denom }
    }

    /// The whole number `n`.
    pub fn from_biguint(n: BigUInt) -> (res: Self)
        ensures
            res@ == Frac::from_int(n@ as int),
    {
        let denom = BigUInt::from_u64(1);
        proof {
            lemma_coprime_with_one(n@);
        }
        Rational { negative: false, numer: n, denom }
    }

    /// The size of the numerator.
    pub fn numer(&self) -> (n: &BigUInt)
        ensures
            n@ == magnitude(self@.num),
    {
        &self.numer
    }

    /// The denominator.
    pub fn denom(&self) -> (d: &BigUInt)
        ensures
            d@ == self@.den,
    {
        &self.denom
    }

    pub fn is_zero(&self) -> (b: bool)
        ensures
            b == self@.is_zero(),
    {
        self.numer.is_zero()
    }

    pub fn is_negative(&self) -> (b: bool)
        ensures
            b == self@.is_negative(),
    {
        proof {
            use_type_invariant(self);
        }
        self.negative
    }

    /// Whether the number is a whole number.
    pub fn is_integer(&self) -> (b: bool)
        ensures
            b == self@.is_integer(),
            self@.is_reduced(),
    {
        proof {
            use_type_invariant(self);
        }
        self.denom.is_one()
    }

    /// The number with the opposite sign.
    pub fn neg(&self) -> (res: Self)
        ensures
            res@ == self@.neg(),
    {
        proof {
            use_type_invariant(self);
        }
        let zero = self.numer.is_zero();
        Rational {
            negative: !self.negative && !zero,
            numer: self.numer.clone(),
            denom: self.denom.clone(),
        }
    }

    /// The number without its sign.
    pub fn abs(&self) -> (res: Self)
        ensures
            res@ == self@.abs(),
    {
        proof {
            use_type_invariant(self);
        }
        Rational { negative: false, numer: self.numer.clone(), denom: self.denom.clone() }
    }
}

/// The number that the `fraction` crate reads in a piece of text, where it
/// reads a finite one.
pub uninterp spec fn fraction_read(text: Seq<char>) -> Option<Frac>;

/// The number that a piece of text writes: for plain decimal notation the
/// number of that notation, for any other text what the `fraction` crate
/// reads in it.
pub open spec fn literal_value(text: Seq<char>) -> Option<Frac> {
    if is_plain_decimal(text) {
        Some(decimal_value(text))
    } else {
        fraction_read(text)
    }
}

/// `BigFraction::from_str` of the `fraction` crate. The parts of the number it
/// reads are in lowest terms. It reads plain decimal notation as such. It
/// reads no number where the crate refuses the text or where the text names
/// no finite number (`1/0`, `0/0`).
#[verifier::external_body]
fn fraction_from_str(text: &str) -> (res: Option<RawRatio>)
    ensures
        res is Some <==> fraction_read(text@) is Some,
        res matches Some(raw) ==> raw.value().is_reduced() && fraction_read(text@) == Some(
            raw.value(),
        ),
        match res {
            Some(raw) => is_plain_decimal(text@) ==> raw.value() == decimal_value(text@),
            None => !is_plain_decimal(text@),
        },
{
    match BigFraction::from_str(text) {
        Ok(GenericFraction::Rational(sign, q)) => Some(
            RawRatio {
                negative: sign == Sign::Minus,
                numer: BigUInt { num: q.numer().to_bytes_le() },
                denom: BigUInt { num: q.denom().to_bytes_le() },
            },
        ),
        _ => None,
    }
}

/// `+` on two `BigFraction`s of the `fraction` crate: the sum, in lowest terms.
#[verifier::external_body]
fn fraction_add(a: &Rational, b: &Rational) -> (res: RawRatio)
    ensures
        res.value() == a@.add(b@),
{
    let (an, ad) = (BigUint::from_bytes_le(&a.numer.num), BigUint::from_bytes_le(&a.denom.num));
    let (bn, bd) = (BigUint::from_bytes_le(&b.numer.num), BigUint::from_bytes_le(&b.denom.num));
    let x = BigFraction::new_raw_signed(if a.negative { Sign::Minus } else { Sign::Plus }, an, ad);
    let y = BigFraction::new_raw_signed(if b.negative { Sign::Minus } else { Sign::Plus }, bn, bd);
    let z = &x + &y;
    let (n, d) = (z.numer().unwrap().to_bytes_le(), z.denom().unwrap().to_bytes_le());
    RawRatio { negative: z.is_sign_negative(), numer: BigUInt { num: n }, denom: BigUInt { num: d } }
}

/// `-` on two `BigFraction`s of the `fraction` crate: the difference, in lowest
/// terms.
#[verifier::external_body]
fn fraction_sub(a: &Rational, b: &Rational) -> (res: RawRatio)
    ensures
        res.value() == a@.sub(b@),
{
    let (an, ad) = (BigUint::from_bytes_le(&a.numer.num), BigUint::from_bytes_le(&a.denom.num));
    let (bn, bd) = (BigUint::from_bytes_le(&b.numer.num), BigUint::from_bytes_le(&b.denom.num));
    let x = BigFraction::new_raw_signed(if a.negative { Sign::Minus } else { Sign::Plus }, an, ad);
    let y = BigFraction::new_raw_signed(if b.negative { Sign::Minus } else { Sign::Plus }, bn, bd);
    let z = &x - &y;
    let (n, d) = (z.numer().unwrap().to_bytes_le(), z.denom().unwrap().to_bytes_le());
    RawRatio { negative: z.is_sign_negative(), numer: BigUInt { num: n }, denom: BigUInt { num: d } }
}

/// `*` on two `BigFraction`s of the `fraction` crate: the product, in lowest
/// terms.
#[verifier::external_body]
fn fraction_mul(a: &Rational, b: &Rational) -> (res: RawRatio)
    ensures
        res.value() == a@.mul(b@),
{
    let (an, ad) = (BigUint::from_bytes_le(&a.numer.num), BigUint::from_bytes_le(&a.denom.num));
    let (bn, bd) = (BigUint::from_bytes_le(&b.numer.num), BigUint::from_bytes_le(&b.denom.num));
    let x = BigFraction::new_raw_signed(if a.negative { Sign::Minus } else { Sign::Plus }, an, ad);
    let y = BigFraction::new_raw_signed(if b.negative { Sign::Minus } else { Sign::Plus }, bn, bd);
    let z = &x * &y;
    let (n, d) = (z.numer().unwrap().to_bytes_le(), z.denom().unwrap().to_bytes_le());
    RawRatio { negative: z.is_sign_negative(), numer: BigUInt { num: n }, denom: BigUInt { num: d } }
}

/// `/` on two `BigFraction`s of the `fraction` crate: the quotient, in lowest
/// terms. The crate answers a division by zero with a value that is no
/// number, so the divisor may not be zero.
#[verifier::external_body]
fn fraction_div(a: &Rational, b: &Rational) -> (res: RawRatio)
    requires
        !b@.is_zero(),
    ensures
        res.value() == a@.div(b@),
{
    let (an, ad) = (BigUint::from_bytes_le(&a.numer.num), BigUint::from_bytes_le(&a.denom.num));
    let (bn, bd) = (BigUint::from_bytes_le(&b.numer.num), BigUint::from_bytes_le(&b.denom.num));
    let x = BigFraction::new_raw_signed(if a.negative { Sign::Minus } else { Sign::Plus }, an, ad);
    let y = BigFraction::new_raw_signed(if b.negative { Sign::Minus } else { Sign::Plus }, bn, bd);
    let z = &x / &y;
    let (n, d) = (z.numer().unwrap().to_bytes_le(), z.denom().unwrap().to_bytes_le());
    RawRatio { negative: z.is_sign_negative(), numer: BigUInt { num: n }, denom: BigUInt { num: d } }
}

/// `%` on two `BigFraction`s of the `fraction` crate: the remainder of the
/// sizes, with the sign of the dividend, in lowest terms. The divisor may not
/// be zero.
#[verifier::external_body]
fn fraction_rem(a: &Rational, b: &Rational) -> (res: RawRatio)
    requires
        !b@.is_zero(),
    ensures
        res.value() == a@.rem(b@),
{
    let (an, ad) = (BigUint::from_bytes_le(&a.numer.num), BigUint::from_bytes_le(&a.denom.num));
    let (bn, bd) = (BigUint::from_bytes_le(&b.numer.num), BigUint::from_bytes_le(&b.denom.num));
    let x = BigFraction::new_raw_signed(if a.negative { Sign::Minus } else { Sign::Plus }, an, ad);
    let y = BigFraction::new_raw_signed(if b.negative { Sign::Minus } else { Sign::Plus }, bn, bd);
    let z = &x % &y;
    let (n, d) = (z.numer().unwrap().to_bytes_le(), z.denom().unwrap().to_bytes_le());
    RawRatio { negative: z.is_sign_negative(), numer: BigUInt { num: n }, denom: BigUInt { num: d } }
}

/// `Ratio::pow` of the `num` crates, as `fraction` hands it on, on the size of
/// `a`: numerator and denominator raised to the size of `e`, and exchanged
/// for a negative `e`. Zero has no negative power.
#[verifier::external_body]
fn ratio_pow(a: &Rational, e: i32) -> (res: RawRatio)
    requires
        e < 0 ==> !a@.is_zero(),
    ensures
        res.value() == a@.abs().pow(e as int),
{
    let q = Ratio::new_raw(
        BigUint::from_bytes_le(&a.numer.num),
        BigUint::from_bytes_le(&a.denom.num),
    );
    let z = q.pow(e);
    RawRatio {
        negative: false,
        numer: BigUInt { num: z.numer().to_bytes_le() },
        denom: BigUInt { num: z.denom().to_bytes_le() },
    }
}

/// `to_string` on a `BigFraction` of the `fraction` crate, which writes the
/// number as that crate displays it: a whole number by its decimal digits,
/// any other as numerator, `/` and denominator, a negative one behind `-`.
#[verifier::external_body]
fn fraction_to_string(a: &Rational) -> (text: String)
    ensures
        text@ == rational_text(a@),
{
    let (n, d) = (BigUint::from_bytes_le(&a.numer.num), BigUint::from_bytes_le(&a.denom.num));
    BigFraction::new_raw_signed(if a.negative { Sign::Minus } else { Sign::Plus }, n, d).to_string()
}

/// What the `fraction` crate writes for the number `num / den` when it is
/// asked for a decimal number with `precision` places.
pub uninterp spec fn decimal_rendering(num: int, den: int, precision: nat) -> Seq<char>;

/// `format!` with a precision on a `BigFraction` of the `fraction` crate,
/// which writes the number as a decimal number with as many places at most.
#[verifier::external_body]
fn fraction_to_decimal(a: &Rational, precision: usize) -> (text: String)
    ensures
        text@ == decimal_rendering(a@.num, a@.den, precision as nat),
{
    let (n, d) = (BigUint::from_bytes_le(&a.numer.num), BigUint::from_bytes_le(&a.denom.num));
    let x = BigFraction::new_raw_signed(if a.negative { Sign::Minus } else { Sign::Plus }, n, d);
    format!("{:.*}", precision, x)
}

/// `*` on two `BigUint`s of the `num` crates, as `fraction` hands them on.
#[verifier::external_body]
pub(crate) fn biguint_mul(a: &BigUInt, b: &BigUInt) -> (res: BigUInt)
    ensures
        res@ == a@ * b@,
{
    let z = BigUint::from_bytes_le(&a.num) * BigUint::from_bytes_le(&b.num);
    BigUInt { num: z.to_bytes_le() }
}

impl Rational {
    /// The number that a piece of text writes, where it writes one.
    pub fn from_str(text: &str) -> (res: Option<Self>)
        ensures
            res is Some <==> literal_value(text@) is Some,
            res matches Some(r) ==> literal_value(text@) == Some(r@),
    {
        match fraction_from_str(text) {
            Some(raw) => Some(Self::from_raw(raw)),
            None => None,
        }
    }

    /// The number as text: a whole number by its digits, any other as
    /// numerator, `/` and denominator.
    pub fn to_string(&self) -> (text: String)
        ensures
            text@ == rational_text(self@),
    {
        fraction_to_string(self)
    }

    /// The number as a decimal number with `precision` places at most.
    pub fn to_decimal(&self, precision: usize) -> (text: String)
        ensures
            text@ == decimal_rendering(self@.num, self@.den, precision as nat),
    {
        fraction_to_decimal(self, precision)
    }

    /// The denominators of two numbers have a positive product.
    proof fn lemma_denominators(a: &Rational, b: &Rational)
        requires
            a.well_formed(),
            b.well_formed(),
        ensures
            a@.den > 0,
            b@.den > 0,
            a@.den * b@.den > 0,
            !b@.is_zero() ==> a@.den * magnitude(b@.num) > 0,
    {
        let x = a@.den;
        let y = b@.den;
        let z = magnitude(b@.num);
        assert(x * y > 0) by (nonlinear_arith)
            requires
                x > 0,
                y > 0,
        ;
        if z > 0 {
            assert(x * z > 0) by (nonlinear_arith)
                requires
                    x > 0,
                    z > 0,
            ;
        }
    }

    /// The sum, in lowest terms.
    pub fn add(&self, rhs: &Rational) -> (res: Rational)
        ensures
            res@ == self@.add(rhs@),
    {
        proof {
            use_type_invariant(self);
            use_type_invariant(rhs);
            Self::lemma_denominators(self, rhs);
            lemma_lowest_terms(
                self@.num * rhs@.den + rhs@.num * self@.den,
                self@.den * rhs@.den,
            );
        }
        Self::from_raw(fraction_add(self, rhs))
    }

    /// The difference, in lowest terms.
    pub fn sub(&self, rhs: &Rational) -> (res: Rational)
        ensures
            res@ == self@.sub(rhs@),
    {
        proof {
            use_type_invariant(self);
            use_type_invariant(rhs);
            Self::lemma_denominators(self, rhs);
            lemma_lowest_terms(
                self@.num * rhs@.den - rhs@.num * self@.den,
                self@.den * rhs@.den,
            );
        }
        Self::from_raw(fraction_sub(self, rhs))
    }

    /// The product, in lowest terms.
    pub fn mul(&self, rhs: &Rational) -> (res: Rational)
        ensures
            res@ == self@.mul(rhs@),
    {
        proof {
            use_type_invariant(self);
            use_type_invariant(rhs);
            Self::lemma_denominators(self, rhs);
            lemma_lowest_terms(self@.num * rhs@.num, self@.den * rhs@.den);
        }
        Self::from_raw(fraction_mul(self, rhs))
    }

    /// The quotient, in lowest terms; none for a divisor that is zero.
    pub fn div(&self, rhs: &Rational) -> (res: Option<Rational>)
        ensures
            res is None <==> rhs@.is_zero(),
            res matches Some(q) ==> q@ == self@.div(rhs@),
    {
        if rhs.is_zero() {
            None
        } else {
            proof {
                use_type_invariant(self);
                use_type_invariant(rhs);
                Self::lemma_denominators(self, rhs);
                lemma_lowest_terms(
                    self@.num * rhs@.den * signum(rhs@.num),
                    self@.den * magnitude(rhs@.num),
                );
            }
            Some(Self::from_raw(fraction_div(self, rhs)))
        }
    }

    /// The remainder, in lowest terms; none for a divisor that is zero.
    pub fn rem(&self, rhs: &Rational) -> (res: Option<Rational>)
        ensures
            res is None <==> rhs@.is_zero(),
            res matches Some(q) ==> q@ == self@.rem(rhs@),
    {
        if rhs.is_zero() {
            None
        } else {
            proof {
                use_type_invariant(self);
                use_type_invariant(rhs);
                Self::lemma_denominators(self, rhs);
                lemma_lowest_terms(
                    signum(self@.num) * ((magnitude(self@.num) * rhs@.den) % (magnitude(
                        rhs@.num,
                    ) * self@.den)),
                    self@.den * rhs@.den,
                );
            }
            Some(Self::from_raw(fraction_rem(self, rhs)))
        }
    }

    /// The size of the number, raised to the power `e`; none for a negative
    /// power of zero.
    pub fn abs_pow(&self, e: i32) -> (res: Option<Rational>)
        ensures
            res is None <==> self@.is_zero() && e < 0,
            res matches Some(q) ==> q@ == self@.abs().pow(e as int),
    {
        if e < 0 && self.is_zero() {
            None
        } else {
            proof {
                use_type_invariant(self);
                lemma_pow_reduced(self@.abs(), e as int);
            }
            Some(Self::from_raw(ratio_pow(self, e)))
        }
    }
}

} // verus!
