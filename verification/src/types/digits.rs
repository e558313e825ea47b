//! The mathematics of little-endian base-256 digit strings.

use vstd::prelude::*;

verus! {

/// 256 to the power `n`.
pub open spec fn pow256(n: nat) -> nat
    decreases n,
{
    if n == 0 {
        1
    } else {
        256 * pow256((n - 1) as nat)
    }
}

/// The digit at position `i`, where every position past the end holds zero.
pub open spec fn digit_at(d: Seq<u8>, i: int) -> nat {
    if 0 <= i < d.len() {
        d[i] as nat
    } else {
        0
    }
}

/// The number written by the lowest `n` digits of `d`.
pub open spec fn low_value(d: Seq<u8>, n: nat) -> nat
    decreases n,
{
    if n == 0 {
        0
    } else {
        low_value(d, (n - 1) as nat) + digit_at(d, n - 1) * pow256((n - 1) as nat)
    }
}

/// The number that the digit string `d` writes, least significant digit first.
pub open spec fn digits_value(d: Seq<u8>) -> nat {
    low_value(d, d.len())
}

/// `d` without the zero digits at its most significant end, but never shorter
/// than one digit.
pub open spec fn stripped(d: Seq<u8>) -> Seq<u8>
    decreases d.len(),
{
    if d.len() > 1 && d.last() == 0 {
        stripped(d.drop_last())
    } else {
        d
    }
}

/// The bit at position `n` of the digit string: bit `n % 8` of digit `n / 8`.
pub open spec fn bit_at(d: Seq<u8>, n: nat) -> nat {
    (((digit_at(d, (n / 8) as int) as u8) >> ((n % 8) as u8)) & 1) as nat
}

/// Where a difference wraps around: 256 to the power of the longer of the two
/// digit counts.
pub open spec fn wrap_limit(a: Seq<u8>, b: Seq<u8>) -> nat {
    if a.len() >= b.len() {
        pow256(a.len())
    } else {
        pow256(b.len())
    }
}

/// A bit is zero or one.
pub proof fn lemma_bit_is_binary(d: Seq<u8>, n: nat)
    ensures
        bit_at(d, n) == 0 || bit_at(d, n) == 1,
{
    let x = digit_at(d, (n / 8) as int) as u8;
    let k = (n % 8) as u8;
    assert((x >> k) & 1 == 0 || (x >> k) & 1 == 1) by (bit_vector);
}

/// Two to the power `n`.
pub open spec fn pow2(n: nat) -> nat
    decreases n,
{
    if n == 0 {
        1
    } else {
        2 * pow2((n - 1) as nat)
    }
}

/// What the digits from position `e` up to position `n` write, taken as a
/// number of their own.
pub open spec fn high_value(d: Seq<u8>, e: nat, n: nat) -> nat
    decreases n,
{
    if n <= e {
        0
    } else {
        high_value(d, e, (n - 1) as nat) + digit_at(d, n - 1) * pow256((n - 1 - e) as nat)
    }
}

/// Powers of 256 multiply as their exponents add.
pub proof fn lemma_pow256_add(a: nat, b: nat)
    ensures
        pow256(a + b) == pow256(a) * pow256(b),
    decreases b,
{
    if b == 0 {
        assert(pow256(a) * 1 == pow256(a));
    } else {
        lemma_pow256_add(a, (b - 1) as nat);
        let x = pow256(a);
        let y = pow256((b - 1) as nat);
        assert(256 * (x * y) == x * (256 * y)) by (nonlinear_arith);
    }
}

/// A number is its digits below `e`, and 256 to the `e` times the rest.
pub proof fn lemma_value_split(d: Seq<u8>, e: nat, n: nat)
    requires
        e <= n,
    ensures
        low_value(d, n) == low_value(d, e) + pow256(e) * high_value(d, e, n),
    decreases n,
{
    if n == e {
        assert(pow256(e) * 0 == 0);
    } else {
        lemma_value_split(d, e, (n - 1) as nat);
        lemma_pow256_add(e, (n - 1 - e) as nat);
        let p = pow256(e);
        let q = pow256((n - 1 - e) as nat);
        let h = high_value(d, e, (n - 1) as nat);
        let x = digit_at(d, n - 1);
        assert(p * (h + x * q) == p * h + x * (p * q)) by (nonlinear_arith);
    }
}

/// The rest above `e` is the digit at `e`, and 256 times the rest above it.
pub proof fn lemma_high_value_first(d: Seq<u8>, e: nat, n: nat)
    requires
        e < n,
    ensures
        high_value(d, e, n) == digit_at(d, e as int) + 256 * high_value(d, e + 1, n),
    decreases n,
{
    if n == e + 1 {
        assert(high_value(d, e, e) == 0);
        assert(pow256(0) == 1);
        assert(digit_at(d, e as int) * pow256(0) == digit_at(d, e as int));
    } else {
        lemma_high_value_first(d, e, (n - 1) as nat);
        let q = pow256((n - 2 - e) as nat);
        let x = digit_at(d, n - 1);
        assert(pow256((n - 1 - e) as nat) == 256 * q);
        assert(256 * (x * q) == x * (256 * q)) by (nonlinear_arith);
    }
}

/// Eight more bits are one more digit.
pub proof fn lemma_pow2_of_digits(e: nat, k: nat)
    ensures
        pow2(8 * e + k) == pow256(e) * pow2(k),
    decreases e,
{
    if e == 0 {
        assert(1 * pow2(k) == pow2(k));
    } else {
        lemma_pow2_of_digits((e - 1) as nat, k);
        let m = 8 * (e - 1) + k;
        assert(pow2((m + 8) as nat) == 256 * pow2(m as nat)) by {
            reveal_with_fuel(pow2, 9);
        }
        let x = pow256((e - 1) as nat);
        let y = pow2(k);
        assert(256 * (x * y) == (256 * x) * y) by (nonlinear_arith);
    }
}

/// The powers of two up to the eighth.
pub proof fn lemma_pow2_values()
    ensures
        pow2(0) == 1,
        pow2(1) == 2,
        pow2(2) == 4,
        pow2(3) == 8,
        pow2(4) == 16,
        pow2(5) == 32,
        pow2(6) == 64,
        pow2(7) == 128,
        pow2(8) == 256,
{
    reveal_with_fuel(pow2, 9);
}

/// Bit `k` of a digit is the digit, halved `k` times, taken modulo two.
pub proof fn lemma_bit_of_digit(x: u8, k: nat)
    requires
        k < 8,
    ensures
        ((x >> (k as u8)) & 1) as nat == (x as nat / pow2(k)) % 2,
{
    lemma_pow2_values();
    if k == 0 {
        assert((x >> 0u8) & 1 == (x / 1) % 2) by (bit_vector);
    } else if k == 1 {
        assert((x >> 1u8) & 1 == (x / 2) % 2) by (bit_vector);
    } else if k == 2 {
        assert((x >> 2u8) & 1 == (x / 4) % 2) by (bit_vector);
    } else if k == 3 {
        assert((x >> 3u8) & 1 == (x / 8) % 2) by (bit_vector);
    } else if k == 4 {
        assert((x >> 4u8) & 1 == (x / 16) % 2) by (bit_vector);
    } else if k == 5 {
        assert((x >> 5u8) & 1 == (x / 32) % 2) by (bit_vector);
    } else if k == 6 {
        assert((x >> 6u8) & 1 == (x / 64) % 2) by (bit_vector);
    } else {
        assert((x >> 7u8) & 1 == (x / 128) % 2) by (bit_vector);
    }
}

/// The bit at position `n` of the digits is the bit at position `n` of the
/// number they write: the number, halved `n` times, taken modulo two.
pub proof fn lemma_bit_of_value(d: Seq<u8>, n: nat)
    ensures
        bit_at(d, n) == (digits_value(d) / pow2(n)) % 2,
{
    let e = n / 8;
    let k = n % 8;
    let top: nat = if d.len() > e {
        d.len()
    } else {
        e + 1
    };
    let v = digits_value(d);
    let p = pow256(e);
    let t = pow2(k);
    let low = low_value(d, e);
    let x = digit_at(d, e as int);
    let h = high_value(d, e + 1, top);
    let w = x + 256 * h;
    lemma_low_value_past_end(d, top);
    lemma_value_split(d, e, top);
    lemma_high_value_first(d, e, top);
    lemma_low_value_bound(d, e);
    lemma_pow256_positive(e);
    lemma_pow2_of_digits(e, k);
    assert(v == w * p + low) by (nonlinear_arith)
        requires
            v == low + p * w,
    ;
    vstd::arithmetic::div_mod::lemma_fundamental_div_mod_converse(
        v as int,
        p as int,
        w as int,
        low as int,
    );
    lemma_pow2_values();
    if k == 0 {
        assert(t == 1 && pow2((8 - k) as nat) == 256 && pow2((7 - k) as nat) == 128);
    } else if k == 1 {
        assert(t == 2 && pow2((8 - k) as nat) == 128 && pow2((7 - k) as nat) == 64);
    } else if k == 2 {
        assert(t == 4 && pow2((8 - k) as nat) == 64 && pow2((7 - k) as nat) == 32);
    } else if k == 3 {
        assert(t == 8 && pow2((8 - k) as nat) == 32 && pow2((7 - k) as nat) == 16);
    } else if k == 4 {
        assert(t == 16 && pow2((8 - k) as nat) == 16 && pow2((7 - k) as nat) == 8);
    } else if k == 5 {
        assert(t == 32 && pow2((8 - k) as nat) == 8 && pow2((7 - k) as nat) == 4);
    } else if k == 6 {
        assert(t == 64 && pow2((8 - k) as nat) == 4 && pow2((7 - k) as nat) == 2);
    } else if k == 7 {
        assert(t == 128 && pow2((8 - k) as nat) == 2 && pow2((7 - k) as nat) == 1);
    }
    assert(t > 0 && 256 == t * pow2((8 - k) as nat) && pow2((8 - k) as nat) == 2 * pow2(
        (7 - k) as nat,
    ));
    vstd::arithmetic::div_mod::lemma_div_denominator(v as int, p as int, t as int);
    let m = pow2((7 - k) as nat) * h;
    let q = x / t;
    let r = x % t;
    vstd::arithmetic::div_mod::lemma_fundamental_div_mod(x as int, t as int);
    assert(w == (q + 2 * m) * t + r) by (nonlinear_arith)
        requires
            w == x + 256 * h,
            x == t * q + r,
            256 == t * (2 * pow2((7 - k) as nat)),
            m == pow2((7 - k) as nat) * h,
    ;
    vstd::arithmetic::div_mod::lemma_fundamental_div_mod_converse(
        w as int,
        t as int,
        (q + 2 * m) as int,
        r as int,
    );
    assert(pow2(n) == p * t);
    assert((v / (p * t)) == q + 2 * m);
    vstd::arithmetic::div_mod::lemma_mod_multiples_vanish(m as int, q as int, 2);
    assert((q + 2 * m) % 2 == q % 2) by {
        assert(2 * m + q == q + 2 * m);
        assert(m * 2 == 2 * m);
    }
    lemma_bit_of_digit(x as u8, k);
}

/// `d` has at least one digit and no superfluous zero at its top.
pub open spec fn is_stripped(d: Seq<u8>) -> bool {
    d.len() >= 1 && (d.len() == 1 || d.last() != 0)
}

pub proof fn lemma_pow256_positive(n: nat)
    ensures
        pow256(n) >= 1,
    decreases n,
{
    if n > 0 {
        lemma_pow256_positive((n - 1) as nat);
    }
}

/// The lowest `n` digits write a number below `256^n`.
pub proof fn lemma_low_value_bound(d: Seq<u8>, n: nat)
    ensures
        low_value(d, n) < pow256(n),
    decreases n,
{
    if n > 0 {
        let m = (n - 1) as nat;
        lemma_low_value_bound(d, m);
        assert(digit_at(d, m as int) <= 255);
        assert(digit_at(d, m as int) * pow256(m) <= 255 * pow256(m)) by (nonlinear_arith)
            requires
                digit_at(d, m as int) <= 255,
        ;
    }
}

/// Digit strings that agree on their lowest `n` digits write the same number there.
pub proof fn lemma_low_value_agree(a: Seq<u8>, b: Seq<u8>, n: nat)
    requires
        forall|i: int| 0 <= i < n ==> digit_at(a, i) == digit_at(b, i),
    ensures
        low_value(a, n) == low_value(b, n),
    decreases n,
{
    if n > 0 {
        lemma_low_value_agree(a, b, (n - 1) as nat);
    }
}

/// Digits past the end do not count.
pub proof fn lemma_low_value_past_end(d: Seq<u8>, n: nat)
    requires
        n >= d.len(),
    ensures
        low_value(d, n) == digits_value(d),
    decreases n,
{
    if n > d.len() {
        lemma_low_value_past_end(d, (n - 1) as nat);
        assert(digit_at(d, n - 1) == 0);
        assert(0 * pow256((n - 1) as nat) == 0);
    }
}

/// Appending a digit adds it at the weight of its position.
pub proof fn lemma_value_push(d: Seq<u8>, x: u8)
    ensures
        digits_value(d.push(x)) == digits_value(d) + x * pow256(d.len()),
{
    let e = d.push(x);
    assert forall|i: int| 0 <= i < d.len() implies digit_at(e, i) == digit_at(d, i) by {}
    lemma_low_value_agree(e, d, d.len());
    assert(digit_at(e, d.len() as int) == x);
}

/// Cutting zero digits from the top keeps the number.
pub proof fn lemma_value_take_zeros(d: Seq<u8>, n: nat)
    requires
        n <= d.len(),
        forall|i: int| n <= i < d.len() ==> d[i] == 0,
    ensures
        digits_value(d.take(n as int)) == digits_value(d),
{
    let t = d.take(n as int);
    assert forall|i: int| 0 <= i < d.len() implies digit_at(t, i) == digit_at(d, i) by {}
    lemma_low_value_agree(t, d, d.len());
    lemma_low_value_past_end(t, d.len());
}

/// `stripped` cuts only zeros from the top, so the number stays.
pub proof fn lemma_stripped(d: Seq<u8>)
    ensures
        digits_value(stripped(d)) == digits_value(d),
        stripped(d).len() <= d.len(),
        stripped(d) == d.take(stripped(d).len() as int),
        d.len() >= 1 ==> is_stripped(stripped(d)),
        d.len() == 0 ==> stripped(d).len() == 0,
        forall|i: int| stripped(d).len() <= i < d.len() ==> d[i] == 0,
    decreases d.len(),
{
    if d.len() > 1 && d.last() == 0 {
        let e = d.drop_last();
        lemma_stripped(e);
        assert(stripped(d) == stripped(e));
        assert(stripped(e) == d.take(stripped(e).len() as int));
        lemma_value_take_zeros(d, (d.len() - 1) as nat);
        assert(d.take(d.len() - 1) == e);
        assert forall|i: int| stripped(d).len() <= i < d.len() implies d[i] == 0 by {
            if i < e.len() {
                assert(e[i] == 0);
            }
        }
    } else {
        assert(d.take(d.len() as int) == d);
    }
}

/// All digits but the lowest weigh a multiple of 256.
pub proof fn lemma_low_value_parity(d: Seq<u8>, n: nat)
    ensures
        low_value(d, n) % 2 == (if n == 0 {
            0
        } else {
            digit_at(d, 0) % 2
        }),
    decreases n,
{
    if n == 1 {
        assert(low_value(d, 0) == 0);
        assert(pow256(0) == 1);
    } else if n > 1 {
        lemma_low_value_parity(d, (n - 1) as nat);
        let m = (n - 1) as nat;
        let q = pow256((m - 1) as nat);
        let x = digit_at(d, m as int);
        assert(pow256(m) == 256 * q);
        assert(x * (256 * q) == 2 * (128 * x * q)) by (nonlinear_arith);
    }
}

/// A number is odd exactly when its lowest digit is.
pub proof fn lemma_value_parity(d: Seq<u8>)
    ensures
        digits_value(d) % 2 == digit_at(d, 0) % 2,
{
    lemma_low_value_parity(d, d.len());
}

/// Where two digit strings agree above position `k` and differ at `k`, the one
/// with the smaller digit there writes the smaller number.
pub proof fn lemma_first_difference(a: Seq<u8>, b: Seq<u8>, k: nat, n: nat)
    requires
        k < n,
        digit_at(a, k as int) < digit_at(b, k as int),
        forall|i: int| k < i < n ==> digit_at(a, i) == digit_at(b, i),
    ensures
        low_value(a, n) < low_value(b, n),
    decreases n,
{
    if n == k + 1 {
        lemma_low_value_bound(a, k);
        let da = digit_at(a, k as int);
        let db = digit_at(b, k as int);
        let p = pow256(k);
        assert(da * p + p <= db * p) by (nonlinear_arith)
            requires
                da + 1 <= db,
        ;
    } else {
        lemma_first_difference(a, b, k, (n - 1) as nat);
    }
}

} // verus!
