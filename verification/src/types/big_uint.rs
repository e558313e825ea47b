//! Natural numbers of any size, held as base-256 digits, least significant first.

use crate::types::digits::{
    bit_at, digit_at, digits_value, is_stripped, lemma_bit_is_binary, lemma_bit_of_value,
    lemma_first_difference, lemma_low_value_agree, lemma_low_value_bound,
    lemma_low_value_past_end, lemma_pow256_positive, lemma_stripped, lemma_value_parity,
    lemma_value_push, low_value, pow2, pow256, stripped, wrap_limit,
};
use std::cmp::Ordering;
use vstd::prelude::*;
use vstd::std_specs::cmp::{PartialEqSpecImpl, PartialOrdSpecImpl};

verus! {

/// How many bits one digit holds.
pub const BIT_PER_ELEM: usize = 8;

/// A natural number. `num` holds its base-256 digits, least significant first.
#[derive(Debug)]
pub struct BigUInt {
    pub num: Vec<u8>,
}

impl Clone for BigUInt {
    fn clone(&self) -> (res: Self)
        ensures
            res.num@ == self.num@,
    {
        Self { num: self.num.clone() }
    }
}

impl View for BigUInt {
    type V = nat;

    /// The number that the digits write.
    open spec fn view(&self) -> nat {
        digits_value(self.num@)
    }
}

impl PartialEq for BigUInt {
    fn eq(&self, other: &Self) -> (same: bool) {
        sign_of_difference(&self.num, &other.num) == 0
    }
}

impl PartialEqSpecImpl for BigUInt {
    open spec fn obeys_eq_spec() -> bool {
        true
    }

    open spec fn eq_spec(&self, other: &Self) -> bool {
        self@ == other@
    }
}

impl Eq for BigUInt {

}

impl PartialOrd for BigUInt {
    fn partial_cmp(&self, other: &Self) -> (order: Option<Ordering>) {
        Some(self.compare(other))
    }
}

impl PartialOrdSpecImpl for BigUInt {
    open spec fn obeys_partial_cmp_spec() -> bool {
        true
    }

    open spec fn partial_cmp_spec(&self, other: &Self) -> Option<Ordering> {
        Some(self.order_to(other))
    }
}

impl Default for BigUInt {
    fn default() -> (res: Self)
        ensures
            res@ == 0,
    {
        zero()
    }
}

impl std::ops::Add for BigUInt {
    type Output = BigUInt;

    fn add(self, rhs: Self) -> (res: BigUInt)
        ensures
            res@ == self@ + rhs@,
    {
        self.sum(&rhs)
    }
}

/// `+` promises a number, not a digit string: what it returns is stated by
/// `add` itself.
impl vstd::std_specs::ops::AddSpecImpl for BigUInt {
    open spec fn obeys_add_spec() -> bool {
        false
    }

    open spec fn add_req(self, rhs: Self) -> bool {
        true
    }

    open spec fn add_spec(self, rhs: Self) -> BigUInt {
        self
    }
}

/// `-` promises a number, not a digit string: what it returns is stated by
/// `sub` itself.
impl vstd::std_specs::ops::SubSpecImpl for BigUInt {
    open spec fn obeys_sub_spec() -> bool {
        false
    }

    open spec fn sub_req(self, rhs: Self) -> bool {
        true
    }

    open spec fn sub_spec(self, rhs: Self) -> BigUInt {
        self
    }
}

impl std::ops::Sub for BigUInt {
    type Output = BigUInt;

    fn sub(self, rhs: Self) -> (res: BigUInt)
        ensures
            self@ >= rhs@ ==> res@ == self@ - rhs@,
            self@ < rhs@ ==> res@ == wrap_limit(self.num@, rhs.num@) - (rhs@ - self@),
    {
        self.unsafe_sub(&rhs)
    }
}

/// The number zero.
fn zero() -> (res: BigUInt)
    ensures
        res@ == 0,
        is_stripped(res.num@),
{
    let digits: Vec<u8> = vec![0];
    proof {
        assert(digits@.len() == 1 && digits@[0] == 0);
        reveal_with_fuel(low_value, 2);
        assert(digit_at(digits@, 0) == 0);
        assert(0 * pow256(0) == 0);
    }
    BigUInt::from(digits)
}

/// The digit of `v` at position `i`, zero past the end.
fn digit(v: &Vec<u8>, i: usize) -> (d: u8)
    ensures
        d as nat == digit_at(v@, i as int),
{
    if i < v.len() {
        v[i]
    } else {
        0
    }
}

fn max_len(a: &Vec<u8>, b: &Vec<u8>) -> (n: usize)
    ensures
        n >= a.len(),
        n >= b.len(),
        n == a.len() || n == b.len(),
{
    if a.len() >= b.len() {
        a.len()
    } else {
        b.len()
    }
}

/// Cuts the zero digits from the top of `v`, down to one digit at most.
fn strip(v: &mut Vec<u8>)
    ensures
        final(v)@ == stripped(old(v)@),
{
    let mut i: usize = v.len();
    assert(v@.take(i as int) == v@);
    while i > 1 && v[i - 1] == 0
        invariant
            i <= v.len(),
            *v == *old(v),
            stripped(v@) == stripped(v@.take(i as int)),
        decreases i,
    {
        proof {
            let t = v@.take(i as int);
            assert(t.last() == 0);
            assert(t.drop_last() == v@.take(i - 1));
        }
        i -= 1;
    }
    proof {
        let t = v@.take(i as int);
        assert(stripped(t) == t);
    }
    v.truncate(i);
}

/// -1, 0 or 1 as the number that `a` writes is below, equal to or above that of `b`.
fn sign_of_difference(a: &Vec<u8>, b: &Vec<u8>) -> (s: i8)
    ensures
        s == -1 <==> digits_value(a@) < digits_value(b@),
        s == 0 <==> digits_value(a@) == digits_value(b@),
        s == 1 <==> digits_value(a@) > digits_value(b@),
{
    let n = max_len(a, b);
    let mut i: usize = n;
    proof {
        lemma_low_value_past_end(a@, n as nat);
        lemma_low_value_past_end(b@, n as nat);
    }
    while i > 0
        invariant
            i <= n,
            forall|j: int| i <= j < n ==> digit_at(a@, j) == digit_at(b@, j),
            low_value(a@, n as nat) == digits_value(a@),
            low_value(b@, n as nat) == digits_value(b@),
        decreases i,
    {
        let x = digit(a, i - 1);
        let y = digit(b, i - 1);
        if x < y {
            proof {
                lemma_first_difference(a@, b@, (i - 1) as nat, n as nat);
            }
            return -1;
        }
        if x > y {
            proof {
                lemma_first_difference(b@, a@, (i - 1) as nat, n as nat);
            }
            return 1;
        }
        i -= 1;
    }
    proof {
        lemma_low_value_agree(a@, b@, n as nat);
    }
    0
}

impl BigUInt {
    /// The number with the digits `num`, without the zeros at their top. No
    /// digits at all write zero.
    pub fn from(num: Vec<u8>) -> (res: Self)
        ensures
            res.num@ == (if num@.len() == 0 {
                seq![0u8]
            } else {
                stripped(num@)
            }),
            res@ == digits_value(num@),
            is_stripped(res.num@),
    {
        if num.len() == 0 {
            let res = Self { num: vec![0] };
            proof {
                assert(res.num@ =~= seq![0u8]);
                assert(res.num@.len() == 1 && res.num@[0] == 0);
                reveal_with_fuel(low_value, 2);
                assert(digit_at(res.num@, 0) == 0);
                assert(0 * pow256(0) == 0);
                assert(num@ =~= Seq::<u8>::empty());
            }
            return res;
        }
        let mut res = Self { num };
        proof {
            lemma_stripped(res.num@);
        }
        res.strip_leading_zeros();
        res
    }

    /// Cuts the zero digits from the top, down to one digit at most. The
    /// number stays what it was.
    pub fn strip_leading_zeros(&mut self)
        ensures
            final(self).num@ == stripped(old(self).num@),
            final(self)@ == old(self)@,
    {
        proof {
            lemma_stripped(self.num@);
        }
        strip(&mut self.num);
    }

    /// The number `n`.
    pub fn from_u64(n: u64) -> (res: Self)
        ensures
            res@ == n,
            is_stripped(res.num@),
    {
        let mut num: Vec<u8> = Vec::new();
        let mut rest: u64 = n;
        assert(digits_value(num@) == 0 && pow256(0) == 1);
        while rest > 0
            invariant
                digits_value(num@) + rest * pow256(num@.len()) == n,
                num@.len() > 0 ==> num@.last() != 0 || rest > 0,
            decreases rest,
        {
            let d: u8 = (rest % 256) as u8;
            proof {
                lemma_value_push(num@, d);
                let p = pow256(num@.len());
                assert(pow256((num@.len() + 1) as nat) == 256 * p);
                assert(d * p + (rest / 256) * (256 * p) == rest * p) by (nonlinear_arith)
                    requires
                        d + (rest / 256) * 256 == rest,
                ;
            }
            num.push(d);
            rest = rest / 256;
        }
        if num.len() == 0 {
            return Self::from(num);
        }
        Self { num }
    }

    /// The number as a `u64`, if it is small enough for one.
    pub fn to_u64(&self) -> (res: Option<u64>)
        ensures
            match res {
                Some(n) => n == self@,
                None => self@ > u64::MAX,
            },
    {
        let mut acc: u64 = 0;
        let mut i: usize = self.num.len();
        assert(pow256(0) == 1);
        proof {
            lemma_pow256_positive(i as nat);
        }
        while i > 0
            invariant
                i <= self.num.len(),
                acc * pow256(i as nat) + low_value(self.num@, i as nat) == self@,
            decreases i,
        {
            let d: u8 = self.num[i - 1];
            proof {
                let p = pow256((i - 1) as nat);
                lemma_pow256_positive((i - 1) as nat);
                assert(pow256(i as nat) == 256 * p);
                assert(acc * (256 * p) + d * p == (acc * 256 + d) * p) by (nonlinear_arith);
                assert((acc * 256 + d) * p >= acc * 256 + d) by (nonlinear_arith)
                    requires
                        p >= 1,
                ;
            }
            if acc > (u64::MAX - d as u64) / 256 {
                return None;
            }
            acc = acc * 256 + d as u64;
            i -= 1;
        }
        assert(acc * pow256(0) == acc);
        Some(acc)
    }

    /// Whether the number is odd.
    pub fn is_odd(&self) -> (odd: bool)
        ensures
            odd == (self@ % 2 == 1),
    {
        proof {
            lemma_value_parity(self.num@);
        }
        digit(&self.num, 0) % 2 == 1
    }

    /// Whether the number is zero.
    pub fn is_zero(&self) -> (b: bool)
        ensures
            b == (self@ == 0),
    {
        let zero = Self { num: Vec::new() };
        sign_of_difference(&self.num, &zero.num) == 0
    }

    /// Whether the number is one.
    pub fn is_one(&self) -> (b: bool)
        ensures
            b == (self@ == 1),
    {
        let one = Self::from_u64(1);
        sign_of_difference(&self.num, &one.num) == 0
    }

    /// The sum of the two numbers.
    pub fn sum(&self, adder: &BigUInt) -> (res: BigUInt)
        ensures
            res@ == self@ + adder@,
            is_stripped(res.num@),
    {
        let n = max_len(&self.num, &adder.num);
        let mut res: Vec<u8> = Vec::new();
        let mut carry: u8 = 0;
        let mut i: usize = 0;
        assert(digits_value(res@) == 0 && pow256(0) == 1);
        while i < n
            invariant
                i <= n,
                res.len() == i,
                carry <= 1,
                digits_value(res@) + carry * pow256(i as nat) == low_value(self.num@, i as nat)
                    + low_value(adder.num@, i as nat),
            decreases n - i,
        {
            let x = digit(&self.num, i);
            let y = digit(&adder.num, i);
            let s: u16 = x as u16 + y as u16 + carry as u16;
            let d: u8 = (s % 256) as u8;
            let up: u8 = (s / 256) as u8;
            proof {
                lemma_value_push(res@, d);
                let p = pow256(i as nat);
                assert(pow256((i + 1) as nat) == 256 * p);
                assert(d * p + up * (256 * p) == x * p + y * p + carry * p) by (nonlinear_arith)
                    requires
                        d + up * 256 == x + y + carry,
                ;
            }
            res.push(d);
            carry = up;
            i += 1;
        }
        proof {
            lemma_low_value_past_end(self.num@, n as nat);
            lemma_low_value_past_end(adder.num@, n as nat);
        }
        if carry > 0 {
            proof {
                lemma_value_push(res@, 1);
            }
            res.push(1);
        }
        BigUInt::from(res)
    }

    /// The distance between the two numbers.
    pub fn abs_sub(&self, sub: &BigUInt) -> (res: BigUInt)
        ensures
            self@ >= sub@ ==> res@ == self@ - sub@,
            self@ <= sub@ ==> res@ == sub@ - self@,
            is_stripped(res.num@),
    {
        match self.compare(sub) {
            Ordering::Equal => zero(),
            Ordering::Less => sub.unsafe_sub(self),
            Ordering::Greater => self.unsafe_sub(sub),
        }
    }

    /// The difference of the two numbers, where `sub` is not the larger.
    pub fn safe_sub(&self, sub: &BigUInt) -> (res: Option<BigUInt>)
        ensures
            match res {
                Some(difference) => self@ >= sub@ && difference@ == self@ - sub@ && is_stripped(
                    difference.num@,
                ),
                None => self@ < sub@,
            },
    {
        match self.compare(sub) {
            Ordering::Equal => Some(zero()),
            Ordering::Less => None,
            Ordering::Greater => Some(self.unsafe_sub(sub)),
        }
    }

    /// The difference of the two numbers. Where `sub` is the larger, the
    /// difference wraps around at 256 to the power of the longer digit count.
    pub fn unsafe_sub(&self, sub: &BigUInt) -> (res: BigUInt)
        ensures
            self@ >= sub@ ==> res@ == self@ - sub@,
            self@ < sub@ ==> res@ == wrap_limit(self.num@, sub.num@) - (sub@ - self@),
            is_stripped(res.num@),
    {
        let n = max_len(&self.num, &sub.num);
        let mut res: Vec<u8> = Vec::new();
        let mut borrow: u8 = 0;
        let mut i: usize = 0;
        assert(digits_value(res@) == 0 && pow256(0) == 1);
        while i < n
            invariant
                i <= n,
                res.len() == i,
                borrow <= 1,
                digits_value(res@) + low_value(sub.num@, i as nat) == low_value(
                    self.num@,
                    i as nat,
                ) + borrow * pow256(i as nat),
            decreases n - i,
        {
            let x: u16 = digit(&self.num, i) as u16;
            let y: u16 = digit(&sub.num, i) as u16 + borrow as u16;
            let d: u8 = if x >= y {
                (x - y) as u8
            } else {
                (x + 256 - y) as u8
            };
            let down: u8 = if x >= y {
                0
            } else {
                1
            };
            proof {
                lemma_value_push(res@, d);
                let p = pow256(i as nat);
                assert(pow256((i + 1) as nat) == 256 * p);
                assert(d * p + y * p == x * p + down * (256 * p)) by (nonlinear_arith)
                    requires
                        d + y == x + down * 256,
                ;
                assert(y * p == digit_at(sub.num@, i as int) * p + borrow * p)
                    by (nonlinear_arith)
                    requires
                        y == digit_at(sub.num@, i as int) + borrow,
                ;
            }
            res.push(d);
            borrow = down;
            i += 1;
        }
        proof {
            lemma_low_value_past_end(self.num@, n as nat);
            lemma_low_value_past_end(sub.num@, n as nat);
            lemma_low_value_bound(res@, n as nat);
            lemma_pow256_positive(n as nat);
        }
        BigUInt::from(res)
    }

    /// The bit of the number at position `nth`, counted from the least
    /// significant one: the number, halved `nth` times, taken modulo two.
    pub fn nth_bit(&self, nth: usize) -> (bit: usize)
        ensures
            bit == bit_at(self.num@, nth as nat),
            bit == (self@ / pow2(nth as nat)) % 2,
    {
        proof {
            lemma_bit_of_value(self.num@, nth as nat);
        }
        let nth_elem = nth / BIT_PER_ELEM;
        let nth_bit = nth % BIT_PER_ELEM;
        let d: u8 = digit(&self.num, nth_elem);
        let k: u8 = nth_bit as u8;
        assert((d & (1u8 << k)) >> k == (d >> k) & 1) by (bit_vector)
            requires
                k < 8,
        ;
        ((d & (1u8 << k)) >> k) as usize
    }

    /// The position of the lowest bit that is set, if any is.
    pub fn first_bit(&self) -> (res: Option<usize>)
        requires
            self.num.len() * 8 <= usize::MAX,
        ensures
            match res {
                Some(i) => i < self.num.len() * 8 && bit_at(self.num@, i as nat) == 1
                    && forall|j: nat| j < i ==> bit_at(self.num@, j) == 0,
                None => forall|j: nat| j < self.num.len() * 8 ==> bit_at(self.num@, j) == 0,
            },
    {
        let bit_len = self.num.len() * BIT_PER_ELEM;
        let mut i: usize = 0;
        while i < bit_len
            invariant
                i <= bit_len,
                bit_len == self.num.len() * 8,
                forall|j: nat| j < i ==> bit_at(self.num@, j) == 0,
            decreases bit_len - i,
        {
            if self.nth_bit(i) == 1 {
                return Some(i);
            }
            proof {
                lemma_bit_is_binary(self.num@, i as nat);
            }
            i += 1;
        }
        None
    }

    /// The position of the highest bit that is set, if any is.
    pub fn last_bit(&self) -> (res: Option<usize>)
        requires
            self.num.len() * 8 <= usize::MAX,
        ensures
            match res {
                Some(i) => i < self.num.len() * 8 && bit_at(self.num@, i as nat) == 1
                    && forall|j: nat|
                    i < j < self.num.len() * 8 ==> bit_at(self.num@, j) == 0,
                None => forall|j: nat| j < self.num.len() * 8 ==> bit_at(self.num@, j) == 0,
            },
    {
        let bit_len = self.num.len() * BIT_PER_ELEM;
        let mut i: usize = bit_len;
        while i > 0
            invariant
                i <= bit_len,
                bit_len == self.num.len() * 8,
                forall|j: nat| i <= j < bit_len ==> bit_at(self.num@, j) == 0,
            decreases i,
        {
            if self.nth_bit(i - 1) == 1 {
                return Some(i - 1);
            }
            proof {
                lemma_bit_is_binary(self.num@, (i - 1) as nat);
            }
            i -= 1;
        }
        None
    }

    /// Which of the two numbers is the larger.
    pub fn compare(&self, compared: &BigUInt) -> (order: Ordering)
        ensures
            order == self.order_to(compared),
    {
        let s = sign_of_difference(&self.num, &compared.num);
        if s < 0 {
            Ordering::Less
        } else if s == 0 {
            Ordering::Equal
        } else {
            Ordering::Greater
        }
    }

    /// The order of the two numbers, as a specification.
    pub open spec fn order_to(&self, compared: &BigUInt) -> Ordering {
        if self@ < compared@ {
            Ordering::Less
        } else if self@ == compared@ {
            Ordering::Equal
        } else {
            Ordering::Greater
        }
    }
}

} // verus!
