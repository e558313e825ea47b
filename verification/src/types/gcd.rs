//! Common divisors of natural numbers.

use vstd::arithmetic::div_mod::{
    lemma_fundamental_div_mod, lemma_mod_multiples_basic, lemma_small_mod,
};
use vstd::prelude::*;

verus! {

/// `k` divides `n`.
pub open spec fn divides(k: nat, n: nat) -> bool {
    k > 0 && n % k == 0
}

/// No number above one divides both `a` and `b`.
pub open spec fn coprime(a: nat, b: nat) -> bool {
    forall|k: nat| k > 1 ==> !(#[trigger] divides(k, a) && divides(k, b))
}

/// The greatest common divisor of `a` and `b`; of zero and zero, zero.
pub open spec fn gcd(a: nat, b: nat) -> nat
    decreases b,
{
    if b == 0 {
        a
    } else {
        gcd(b, a % b)
    }
}

/// Every multiple of `k` is divided by `k`.
pub proof fn lemma_divides_multiple(k: nat, m: nat)
    requires
        k > 0,
    ensures
        divides(k, k * m),
{
    lemma_mod_multiples_basic(m as int, k as int);
    assert(k * m == m * k) by (nonlinear_arith);
}

/// What `k` divides is `k` times the quotient.
pub proof fn lemma_divides_quotient(k: nat, n: nat)
    requires
        divides(k, n),
    ensures
        n == k * (n / k),
{
    lemma_fundamental_div_mod(n as int, k as int);
}

/// What divides two numbers divides the remainder of one by the other.
pub proof fn lemma_divides_remainder(k: nat, a: nat, b: nat)
    requires
        b > 0,
        divides(k, a),
        divides(k, b),
    ensures
        divides(k, a % b),
{
    lemma_divides_quotient(k, a);
    lemma_divides_quotient(k, b);
    lemma_fundamental_div_mod(a as int, b as int);
    let x = a / k;
    let y = b / k;
    let q = a / b;
    let r = a % b;
    assert(r == k * (x - y * q)) by (nonlinear_arith)
        requires
            a == k * x,
            b == k * y,
            a == b * q + r,
    ;
    assert(x - y * q >= 0) by (nonlinear_arith)
        requires
            r == k * (x - y * q),
            r >= 0,
            k > 0,
    ;
    lemma_divides_multiple(k, (x - y * q) as nat);
}

/// What divides a number and the remainder of another by it divides the other.
pub proof fn lemma_divides_dividend(k: nat, a: nat, b: nat)
    requires
        b > 0,
        divides(k, b),
        divides(k, a % b),
    ensures
        divides(k, a),
{
    lemma_divides_quotient(k, b);
    lemma_divides_quotient(k, a % b);
    lemma_fundamental_div_mod(a as int, b as int);
    let y = b / k;
    let z = (a % b) / k;
    let q = a / b;
    assert(a == k * (y * q + z)) by (nonlinear_arith)
        requires
            b == k * y,
            a % b == k * z,
            a == b * q + a % b,
    ;
    lemma_divides_multiple(k, y * q + z);
}

/// The greatest common divisor divides both numbers.
pub proof fn lemma_gcd_divides(a: nat, b: nat)
    requires
        a > 0 || b > 0,
    ensures
        divides(gcd(a, b), a),
        divides(gcd(a, b), b),
    decreases b,
{
    if b == 0 {
        vstd::arithmetic::div_mod::lemma_mod_self_0(a as int);
        lemma_small_mod(0, a);
    } else {
        lemma_gcd_divides(b, a % b);
        lemma_divides_dividend(gcd(a, b), a, b);
    }
}

/// What divides both numbers divides their greatest common divisor.
pub proof fn lemma_gcd_greatest(a: nat, b: nat, k: nat)
    requires
        divides(k, a),
        divides(k, b),
    ensures
        divides(k, gcd(a, b)),
    decreases b,
{
    if b > 0 {
        lemma_divides_remainder(k, a, b);
        lemma_gcd_greatest(b, a % b, k);
    }
}

/// Numbers are coprime exactly when their greatest common divisor is one.
pub proof fn lemma_coprime_is_gcd_one(a: nat, b: nat)
    requires
        a > 0 || b > 0,
    ensures
        coprime(a, b) <==> gcd(a, b) == 1,
{
    lemma_gcd_divides(a, b);
    if gcd(a, b) == 1 {
        assert forall|k: nat| k > 1 implies !(#[trigger] divides(k, a) && divides(k, b)) by {
            if divides(k, a) && divides(k, b) {
                lemma_gcd_greatest(a, b, k);
                lemma_small_mod(1, k);
            }
        }
    }
}

/// Two numbers, each divided by their greatest common divisor, are coprime.
pub proof fn lemma_quotients_coprime(a: nat, b: nat)
    requires
        a > 0 || b > 0,
    ensures
        gcd(a, b) > 0,
        coprime(a / gcd(a, b), b / gcd(a, b)),
{
    let g = gcd(a, b);
    lemma_gcd_divides(a, b);
    lemma_divides_quotient(g, a);
    lemma_divides_quotient(g, b);
    let x = a / g;
    let y = b / g;
    assert forall|k: nat| k > 1 implies !(#[trigger] divides(k, x) && divides(k, y)) by {
        if divides(k, x) && divides(k, y) {
            lemma_divides_quotient(k, x);
            lemma_divides_quotient(k, y);
            let kg = k * g;
            assert(a == kg * (x / k)) by (nonlinear_arith)
                requires
                    a == g * x,
                    x == k * (x / k),
                    kg == k * g,
            ;
            assert(b == kg * (y / k)) by (nonlinear_arith)
                requires
                    b == g * y,
                    y == k * (y / k),
                    kg == k * g,
            ;
            assert(kg > g) by (nonlinear_arith)
                requires
                    kg == k * g,
                    k > 1,
                    g > 0,
            ;
            lemma_divides_multiple(kg, x / k);
            lemma_divides_multiple(kg, y / k);
            lemma_gcd_greatest(a, b, kg);
            lemma_small_mod(g, kg);
        }
    }
}

/// A common factor of two numbers is a factor of their greatest common
/// divisor.
pub proof fn lemma_gcd_scale(c: nat, a: nat, b: nat)
    requires
        c > 0,
    ensures
        gcd(c * a, c * b) == c * gcd(a, b),
    decreases b,
{
    if b == 0 {
        assert(c * b == 0);
    } else {
        lemma_gcd_scale(c, b, a % b);
        vstd::arithmetic::div_mod::lemma_truncate_middle(a as int, c as int, b as int);
        assert(c * b > 0) by (nonlinear_arith)
            requires
                c > 0,
                b > 0,
        ;
    }
}

/// What divides a product and shares no divisor with one factor divides the
/// other.
pub proof fn lemma_divides_other_factor(a: nat, b: nat, c: nat)
    requires
        b > 0,
        coprime(a, b),
        divides(b, a * c),
    ensures
        divides(b, c),
{
    if c == 0 {
        lemma_small_mod(0, b);
    } else {
        lemma_coprime_is_gcd_one(a, b);
        lemma_gcd_scale(c, a, b);
        lemma_divides_multiple(b, c);
        assert(c * a == a * c && c * b == b * c) by (nonlinear_arith);
        lemma_gcd_greatest(c * a, c * b, b);
        assert(c * 1 == c);
    }
}

/// What divides a divisor of a number divides the number.
pub proof fn lemma_divides_transitive(j: nat, k: nat, n: nat)
    requires
        divides(j, k),
        divides(k, n),
    ensures
        divides(j, n),
{
    lemma_divides_quotient(j, k);
    lemma_divides_quotient(k, n);
    let x = k / j;
    let y = n / k;
    assert(n == j * (x * y)) by (nonlinear_arith)
        requires
            k == j * x,
            n == k * y,
    ;
    lemma_divides_multiple(j, x * y);
}

/// A product of two numbers that each share no divisor with `b` shares none
/// with it either.
pub proof fn lemma_coprime_product(a: nat, c: nat, b: nat)
    requires
        coprime(a, b),
        coprime(c, b),
    ensures
        coprime(a * c, b),
{
    assert forall|k: nat| k > 1 implies !(#[trigger] divides(k, a * c) && divides(k, b)) by {
        if divides(k, a * c) && divides(k, b) {
            assert forall|j: nat| j > 1 implies !(#[trigger] divides(j, a) && divides(j, k)) by {
                if divides(j, a) && divides(j, k) {
                    lemma_divides_transitive(j, k, b);
                }
            }
            lemma_divides_other_factor(a, k, c);
        }
    }
}

/// Of two positive numbers that divide each other, neither is the larger.
pub proof fn lemma_divide_each_other(a: nat, b: nat)
    requires
        divides(a, b),
        divides(b, a),
    ensures
        a == b,
{
    if a < b {
        lemma_small_mod(a, b);
    } else if b < a {
        lemma_small_mod(b, a);
    }
}

} // verus!
