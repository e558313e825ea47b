//! Fractions of integers: the mathematical values that numbers stand for.

use crate::types::gcd::{
    coprime, divides, gcd, lemma_coprime_product, lemma_divide_each_other,
    lemma_divides_multiple, lemma_divides_other_factor, lemma_divides_quotient,
    lemma_gcd_divides, lemma_quotients_coprime,
};
use vstd::arithmetic::div_mod::{
    lemma_div_multiples_vanish, lemma_fundamental_div_mod_converse, lemma_small_mod,
};
use vstd::arithmetic::power::{lemma_pow_positive, pow};
use vstd::prelude::*;

verus! {

/// The distance of `x` from zero.
pub open spec fn magnitude(x: int) -> nat {
    if x < 0 {
        (-x) as nat
    } else {
        x as nat
    }
}

/// -1, 0 or 1 as `x` is below, at or above zero.
pub open spec fn signum(x: int) -> int {
    if x < 0 {
        -1
    } else if x == 0 {
        0
    } else {
        1
    }
}

/// The fraction `num / den`.
pub struct Frac {
    pub num: int,
    pub den: int,
}

impl Frac {
    /// The denominator is positive and shares no divisor with the numerator.
    pub open spec fn is_reduced(self) -> bool {
        self.den > 0 && coprime(magnitude(self.num), self.den as nat)
    }

    /// Both fractions stand for the same rational number.
    pub open spec fn same_value(self, other: Frac) -> bool {
        self.num * other.den == other.num * self.den
    }

    /// `num / den` in lowest terms, for a positive `den`: numerator and
    /// denominator, each divided by their greatest common divisor.
    pub open spec fn lowest_terms(num: int, den: int) -> Frac {
        let g = gcd(magnitude(num), den as nat) as int;
        Frac { num: num / g, den: den / g }
    }

    /// The whole number `n`.
    pub open spec fn from_int(n: int) -> Frac {
        Frac { num: n, den: 1 }
    }

    pub open spec fn is_zero(self) -> bool {
        self.num == 0
    }

    pub open spec fn is_negative(self) -> bool {
        self.num < 0
    }

    /// In lowest terms, a fraction is a whole number when its denominator is one.
    pub open spec fn is_integer(self) -> bool {
        self.den == 1
    }

    pub open spec fn neg(self) -> Frac {
        Frac { num: -self.num, den: self.den }
    }

    pub open spec fn abs(self) -> Frac {
        Frac { num: magnitude(self.num) as int, den: self.den }
    }

    pub open spec fn add(self, rhs: Frac) -> Frac {
        Self::lowest_terms(self.num * rhs.den + rhs.num * self.den, self.den * rhs.den)
    }

    pub open spec fn sub(self, rhs: Frac) -> Frac {
        Self::lowest_terms(self.num * rhs.den - rhs.num * self.den, self.den * rhs.den)
    }

    pub open spec fn mul(self, rhs: Frac) -> Frac {
        Self::lowest_terms(self.num * rhs.num, self.den * rhs.den)
    }

    /// The quotient, for a divisor other than zero.
    pub open spec fn div(self, rhs: Frac) -> Frac {
        Self::lowest_terms(
            self.num * rhs.den * signum(rhs.num),
            self.den * magnitude(rhs.num),
        )
    }

    /// The remainder of the division that rounds its quotient towards zero,
    /// for a divisor other than zero. It has the sign of the dividend:
    /// `7 rem 3 = 1`, `-7 rem 3 = -1`, `7/2 rem 3/2 = 1/2`.
    pub open spec fn rem(self, rhs: Frac) -> Frac {
        Self::lowest_terms(
            signum(self.num) * ((magnitude(self.num) * rhs.den) % (magnitude(rhs.num)
                * self.den)),
            self.den * rhs.den,
        )
    }

    /// The power with a whole exponent; a negative exponent asks for a base
    /// other than zero. Powers of a fraction in lowest terms are in lowest terms.
    pub open spec fn pow(self, e: int) -> Frac {
        if e >= 0 {
            Frac { num: pow(self.num, e as nat), den: pow(self.den, e as nat) }
        } else {
            let n = pow(self.num, (-e) as nat);
            let d = pow(self.den, (-e) as nat);
            if n < 0 {
                Frac { num: -d, den: -n }
            } else {
                Frac { num: d, den: n }
            }
        }
    }
}

/// One shares no divisor above one with any number.
pub proof fn lemma_coprime_with_one(a: nat)
    ensures
        coprime(a, 1),
{
    assert forall|k: nat| k > 1 implies !(#[trigger] divides(k, a) && divides(k, 1)) by {
        vstd::arithmetic::div_mod::lemma_small_mod(1, k);
    }
}

/// A fraction with a positive denominator is, in lowest terms, a fraction of
/// the same value whose numerator and denominator share no divisor.
pub proof fn lemma_lowest_terms(num: int, den: int)
    requires
        den > 0,
    ensures
        Frac::lowest_terms(num, den).is_reduced(),
        Frac::lowest_terms(num, den).same_value(Frac { num, den }),
{
    let a = magnitude(num);
    let b = den as nat;
    let g = gcd(a, b);
    let q = Frac::lowest_terms(num, den);
    lemma_quotients_coprime(a, b);
    lemma_gcd_divides(a, b);
    lemma_divides_quotient(g, a);
    lemma_divides_quotient(g, b);
    let x = a / g;
    let y = b / g;
    assert(y > 0) by (nonlinear_arith)
        requires
            b == g * y,
            b > 0,
            g > 0,
    ;
    if num < 0 {
        assert(num == (-(x as int)) * g + 0) by (nonlinear_arith)
            requires
                a == g * x,
                num == -(a as int),
        ;
        lemma_fundamental_div_mod_converse(num, g as int, -(x as int), 0);
        assert(q.num == -(x as int));
    } else {
        assert(q.num == x);
        assert(num == x * g) by (nonlinear_arith)
            requires
                a == g * x,
                num == a,
        ;
    }
    assert(magnitude(q.num) == x);
    assert(q.num * den == num * q.den) by (nonlinear_arith)
        requires
            q.den == y,
            den == g * y,
            num == q.num * g,
    ;
}

/// Two fractions in lowest terms that have the same value are the same.
pub proof fn lemma_reduced_unique(p: Frac, q: Frac)
    requires
        p.is_reduced(),
        q.is_reduced(),
        p.same_value(q),
    ensures
        p == q,
{
    let a = magnitude(p.num);
    let b = magnitude(q.num);
    let c = p.den as nat;
    let d = q.den as nat;
    assert(a * d == b * c && (p.num < 0 <==> q.num < 0)) by (nonlinear_arith)
        requires
            p.num * d == q.num * c,
            c > 0,
            d > 0,
            a == (if p.num < 0 {
                -p.num
            } else {
                p.num
            }),
            b == (if q.num < 0 {
                -q.num
            } else {
                q.num
            }),
    ;
    lemma_divides_multiple(d, a);
    assert(d * a == b * c) by (nonlinear_arith)
        requires
            a * d == b * c,
    ;
    lemma_divides_other_factor(b, d, c);
    lemma_divides_multiple(c, b);
    assert(c * b == a * d) by (nonlinear_arith)
        requires
            a * d == b * c,
    ;
    lemma_divides_other_factor(a, c, d);
    lemma_divide_each_other(c, d);
    assert(a == b) by (nonlinear_arith)
        requires
            a * d == b * c,
            c == d,
            d > 0,
    ;
}

/// The fraction in lowest terms of the value of `num / den` is
/// `lowest_terms(num, den)`, and no other.
pub proof fn lemma_lowest_terms_unique(num: int, den: int, q: Frac)
    requires
        den > 0,
        q.is_reduced(),
        q.same_value(Frac { num, den }),
    ensures
        q == Frac::lowest_terms(num, den),
{
    let p = Frac::lowest_terms(num, den);
    lemma_lowest_terms(num, den);
    assert(p.same_value(q)) by (nonlinear_arith)
        requires
            p.num * den == num * p.den,
            q.num * den == num * q.den,
            den > 0,
    ;
    lemma_reduced_unique(p, q);
}

/// A fraction whose numerator is a multiple of its denominator is, in lowest
/// terms, the whole number of that multiple.
pub proof fn lemma_lowest_terms_of_whole(m: int, d: int)
    requires
        d > 0,
    ensures
        Frac::lowest_terms(m * d, d) == Frac::from_int(m),
{
    let a = magnitude(m * d);
    assert(a == magnitude(m) * d) by (nonlinear_arith)
        requires
            d > 0,
            a == (if m * d < 0 {
                -(m * d)
            } else {
                m * d
            }),
            magnitude(m) == (if m < 0 {
                -m
            } else {
                m
            }),
    ;
    vstd::arithmetic::div_mod::lemma_mod_multiples_basic(magnitude(m) as int, d);
    assert(gcd(a, d as nat) == d) by {
        reveal_with_fuel(gcd, 3);
    }
    lemma_div_multiples_vanish(m, d);
    assert(m * d == d * m) by (nonlinear_arith);
    vstd::arithmetic::div_mod::lemma_div_basics_3(d);
}

/// In lowest terms, the sum, difference and product of whole numbers are the
/// whole numbers one expects.
pub proof fn lemma_whole_arithmetic(x: int, y: int)
    ensures
        Frac::from_int(x).add(Frac::from_int(y)) == Frac::from_int(x + y),
        Frac::from_int(x).sub(Frac::from_int(y)) == Frac::from_int(x - y),
        Frac::from_int(x).mul(Frac::from_int(y)) == Frac::from_int(x * y),
{
    lemma_lowest_terms_of_whole(x + y, 1);
    lemma_lowest_terms_of_whole(x - y, 1);
    lemma_lowest_terms_of_whole(x * y, 1);
}

/// Powers of numbers that share no divisor share none.
pub proof fn lemma_coprime_powers(a: nat, b: nat, e: nat)
    requires
        coprime(a, b),
    ensures
        pow(a as int, e) >= 0,
        pow(b as int, e) >= 0,
        coprime(pow(a as int, e) as nat, pow(b as int, e) as nat),
    decreases e,
{
    reveal(pow);
    if e == 0 {
        assert forall|k: nat| k > 1 implies !(#[trigger] divides(k, 1) && divides(k, 1)) by {
            lemma_small_mod(1, k);
        }
    } else {
        lemma_coprime_powers(a, b, (e - 1) as nat);
        let x = pow(a as int, (e - 1) as nat) as nat;
        let y = pow(b as int, (e - 1) as nat) as nat;
        assert(a * x >= 0 && b * y >= 0) by (nonlinear_arith);
        lemma_coprime_power_of_one(a, b, (e - 1) as nat);
        assert(coprime(b, a) && coprime(y, a) && coprime(y, x)) by {
            assert forall|k: nat| k > 1 implies !(#[trigger] divides(k, b) && divides(k, a)) by {}
            lemma_coprime_power_of_one(b, a, (e - 1) as nat);
            assert forall|k: nat| k > 1 implies !(#[trigger] divides(k, y) && divides(k, a)) by {}
            assert forall|k: nat| k > 1 implies !(#[trigger] divides(k, y) && divides(k, x)) by {}
        }
        lemma_coprime_product(b, y, a);
        lemma_coprime_product(b, y, x);
        assert(coprime(a, b * y) && coprime(x, b * y)) by {
            assert forall|k: nat| k > 1 implies !(#[trigger] divides(k, a) && divides(k, b * y)) by {}
            assert forall|k: nat| k > 1 implies !(#[trigger] divides(k, x) && divides(k, b * y)) by {}
        }
        lemma_coprime_product(a, x, b * y);
    }
}

/// A power of `a` shares no divisor with `b` where `a` shares none.
pub proof fn lemma_coprime_power_of_one(a: nat, b: nat, e: nat)
    requires
        coprime(a, b),
    ensures
        pow(a as int, e) >= 0,
        coprime(pow(a as int, e) as nat, b),
    decreases e,
{
    reveal(pow);
    if e == 0 {
        assert forall|k: nat| k > 1 implies !(#[trigger] divides(k, 1) && divides(k, b)) by {
            lemma_small_mod(1, k);
        }
    } else {
        lemma_coprime_power_of_one(a, b, (e - 1) as nat);
        let x = pow(a as int, (e - 1) as nat) as nat;
        assert(a * x >= 0) by (nonlinear_arith);
        lemma_coprime_product(a, x, b);
    }
}

/// The powers of a fraction in lowest terms that is not negative are in
/// lowest terms.
pub proof fn lemma_pow_reduced(q: Frac, e: int)
    requires
        q.is_reduced(),
        q.num >= 0,
        e < 0 ==> q.num > 0,
    ensures
        q.pow(e).is_reduced(),
{
    let k = magnitude(e);
    lemma_coprime_powers(q.num as nat, q.den as nat, k);
    lemma_pow_positive(q.den, k);
    if e < 0 {
        lemma_pow_positive(q.num, k);
        let n = pow(q.num, k) as nat;
        let d = pow(q.den, k) as nat;
        assert forall|j: nat| j > 1 implies !(#[trigger] divides(j, d) && divides(j, n)) by {}
    }
}

/// The power of a negated base: of the same size, negative for odd exponents.
pub proof fn lemma_pow_neg(b: int, e: nat)
    ensures
        pow(-b, e) == (if e % 2 == 0 {
            pow(b, e)
        } else {
            -pow(b, e)
        }),
    decreases e,
{
    reveal(pow);
    if e > 0 {
        lemma_pow_neg(b, (e - 1) as nat);
        let p = pow(b, (e - 1) as nat);
        assert((-b) * p == -(b * p)) by (nonlinear_arith);
        assert((-b) * (-p) == b * p) by (nonlinear_arith);
    }
}

} // verus!
