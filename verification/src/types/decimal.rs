//! Decimal notation: the numbers that digit strings write, and back.

use crate::types::frac::{magnitude, Frac};
use vstd::prelude::*;

verus! {

/// A decimal digit.
pub open spec fn is_digit(c: char) -> bool {
    '0' <= c <= '9'
}

/// The number from zero to nine that the digit `c` writes.
pub open spec fn digit_value(c: char) -> nat {
    (c as u32 - '0' as u32) as nat
}

/// The digit that writes `d`, a number from zero to nine.
pub open spec fn digit_char(d: nat) -> char {
    if d == 0 {
        '0'
    } else if d == 1 {
        '1'
    } else if d == 2 {
        '2'
    } else if d == 3 {
        '3'
    } else if d == 4 {
        '4'
    } else if d == 5 {
        '5'
    } else if d == 6 {
        '6'
    } else if d == 7 {
        '7'
    } else if d == 8 {
        '8'
    } else {
        '9'
    }
}

/// Every character of `s` is a digit.
pub open spec fn all_digits(s: Seq<char>) -> bool {
    forall|i: int| 0 <= i < s.len() ==> is_digit(#[trigger] s[i])
}

/// Ten to the power `n`.
pub open spec fn pow10(n: nat) -> nat
    decreases n,
{
    if n == 0 {
        1
    } else {
        10 * pow10((n - 1) as nat)
    }
}

/// The number that the digits `s` write in decimal notation.
pub open spec fn decimal_number(s: Seq<char>) -> nat
    decreases s.len(),
{
    if s.len() == 0 {
        0
    } else {
        10 * decimal_number(s.drop_last()) + digit_value(s.last())
    }
}

/// The digits of `n` in decimal notation, without zeros in front.
pub open spec fn decimal_text(n: nat) -> Seq<char>
    decreases n,
{
    if n < 10 {
        seq![digit_char(n)]
    } else {
        decimal_text(n / 10).push(digit_char(n % 10))
    }
}

/// Where the decimal point of `s` stands: digits before it, at least one,
/// and only digits behind it.
pub open spec fn is_point(s: Seq<char>, p: int) -> bool {
    0 < p < s.len() && s[p] == '.' && all_digits(s.take(p)) && all_digits(s.skip(p + 1))
}

/// A literal in plain decimal notation: digits, or digits with one point
/// behind the first of them; no separators, no sign.
pub open spec fn is_plain_decimal(s: Seq<char>) -> bool {
    (s.len() > 0 && all_digits(s)) || exists|p: int| is_point(s, p)
}

/// The number that a literal in plain decimal notation writes.
pub open spec fn decimal_value(s: Seq<char>) -> Frac {
    if all_digits(s) {
        Frac::from_int(decimal_number(s) as int)
    } else {
        let p = choose|p: int| is_point(s, p);
        let places = (s.len() - p - 1) as nat;
        Frac::lowest_terms(
            (decimal_number(s.take(p)) * pow10(places) + decimal_number(s.skip(p + 1))) as int,
            pow10(places) as int,
        )
    }
}

/// How a number in lowest terms is written: a whole number by its digits,
/// any other as numerator, `/` and denominator; a negative one behind `-`.
pub open spec fn rational_text(q: Frac) -> Seq<char> {
    let sign = if q.num < 0 {
        seq!['-']
    } else {
        Seq::<char>::empty()
    };
    let numer = decimal_text(magnitude(q.num));
    if q.den == 1 {
        sign + numer
    } else {
        sign + numer + seq!['/'] + decimal_text(q.den as nat)
    }
}

/// `s` without the zeros in front of its last digit.
pub open spec fn without_leading_zeros(s: Seq<char>) -> Seq<char>
    decreases s.len(),
{
    if s.len() > 1 && s[0] == '0' {
        without_leading_zeros(s.drop_first())
    } else {
        s
    }
}

/// A literal as the library writes its number: digits without zeros in
/// front, and a literal with a point as the fraction it stands for.
pub open spec fn normalized(literal: Seq<char>) -> Seq<char> {
    if all_digits(literal) {
        without_leading_zeros(literal)
    } else {
        rational_text(decimal_value(literal))
    }
}

/// Each digit writes the number it is the digit of.
pub proof fn lemma_digit_char(d: nat)
    requires
        d < 10,
    ensures
        is_digit(digit_char(d)),
        digit_value(digit_char(d)) == d,
{
}

/// Each number from zero to nine is written by its digit.
pub proof fn lemma_digit_value(c: char)
    requires
        is_digit(c),
    ensures
        digit_value(c) < 10,
        digit_char(digit_value(c)) == c,
        digit_value(c) == 0 <==> c == '0',
{
}

/// Writing a number and reading what was written gives the number back.
pub proof fn lemma_written_number_reads_back(n: nat)
    ensures
        decimal_text(n).len() > 0,
        all_digits(decimal_text(n)),
        decimal_number(decimal_text(n)) == n,
    decreases n,
{
    if n < 10 {
        lemma_digit_char(n);
        let s = seq![digit_char(n)];
        assert(s.drop_last() =~= Seq::<char>::empty());
        assert(decimal_number(s.drop_last()) == 0);
    } else {
        lemma_written_number_reads_back(n / 10);
        lemma_digit_char(n % 10);
        let head = decimal_text(n / 10);
        let s = head.push(digit_char(n % 10));
        assert(s.drop_last() =~= head);
    }
}

/// The first digit weighs ten to the power of the number of digits behind it.
pub proof fn lemma_first_digit(s: Seq<char>)
    requires
        s.len() > 0,
    ensures
        decimal_number(s) == digit_value(s[0]) * pow10((s.len() - 1) as nat) + decimal_number(
            s.drop_first(),
        ),
    decreases s.len(),
{
    let d = digit_value(s[0]);
    if s.len() == 1 {
        assert(s.drop_last() =~= Seq::<char>::empty());
        assert(s.drop_first() =~= Seq::<char>::empty());
        assert(decimal_number(Seq::<char>::empty()) == 0);
        assert(pow10(0) == 1);
        assert(s.last() == s[0]);
        assert(d * pow10(0) == d);
    } else {
        let front = s.drop_last();
        let back = s.drop_first();
        lemma_first_digit(front);
        assert(front[0] == s[0]);
        assert(front.drop_first() =~= back.drop_last());
        assert(back.last() == s.last());
        let p = pow10((s.len() - 2) as nat);
        assert(pow10((s.len() - 1) as nat) == 10 * p);
        assert(10 * (d * p) == d * (10 * p)) by (nonlinear_arith);
        assert(decimal_number(back) == 10 * decimal_number(back.drop_last()) + digit_value(
            back.last(),
        ));
        assert(decimal_number(front) == d * p + decimal_number(back.drop_last()));
    }
}

/// Ten to any power is at least one.
pub proof fn lemma_pow10_positive(n: nat)
    ensures
        pow10(n) >= 1,
    decreases n,
{
    if n > 0 {
        lemma_pow10_positive((n - 1) as nat);
    }
}

/// Behind zeros only, `c` alone is left; behind anything else, `c` is appended
/// to what is left of it.
proof fn lemma_without_leading_zeros_push(t: Seq<char>, c: char)
    requires
        t.len() > 0,
        all_digits(t),
    ensures
        without_leading_zeros(t.push(c)) == (if decimal_number(t) == 0 {
            seq![c]
        } else {
            without_leading_zeros(t).push(c)
        }),
    decreases t.len(),
{
    let s = t.push(c);
    lemma_first_digit(t);
    lemma_digit_value(t[0]);
    lemma_pow10_positive((t.len() - 1) as nat);
    let p = pow10((t.len() - 1) as nat);
    let d = digit_value(t[0]);
    assert(s[0] == t[0]);
    if t[0] == '0' {
        assert(d * p == 0) by (nonlinear_arith)
            requires
                d == 0,
        ;
        assert(without_leading_zeros(s) == without_leading_zeros(s.drop_first()));
        if t.len() == 1 {
            assert(s.drop_first() =~= seq![c]);
            assert(t.drop_first() =~= Seq::<char>::empty());
            assert(decimal_number(t.drop_first()) == 0);
            assert(without_leading_zeros(seq![c]) == seq![c]);
        } else {
            let rest = t.drop_first();
            assert(all_digits(rest)) by {
                assert forall|i: int| 0 <= i < rest.len() implies is_digit(#[trigger] rest[i]) by {
                    assert(rest[i] == t[i + 1]);
                }
            }
            lemma_without_leading_zeros_push(rest, c);
            assert(s.drop_first() =~= rest.push(c));
            assert(without_leading_zeros(t) == without_leading_zeros(rest));
        }
    } else {
        assert(d * p >= 1) by (nonlinear_arith)
            requires
                d >= 1,
                p >= 1,
        ;
        assert(without_leading_zeros(s) == s);
        assert(without_leading_zeros(t) == t);
    }
}

/// Reading digits and writing their number gives the digits back, without
/// the zeros in front.
pub proof fn lemma_read_number_writes_back(s: Seq<char>)
    requires
        s.len() > 0,
        all_digits(s),
    ensures
        decimal_text(decimal_number(s)) == without_leading_zeros(s),
    decreases s.len(),
{
    let t = s.drop_last();
    let c = s.last();
    lemma_digit_value(c);
    assert(s =~= t.push(c));
    if t.len() == 0 {
        assert(decimal_number(t) == 0);
    } else {
        assert(all_digits(t)) by {
            assert forall|i: int| 0 <= i < t.len() implies is_digit(#[trigger] t[i]) by {
                assert(t[i] == s[i]);
            }
        }
        lemma_read_number_writes_back(t);
        lemma_without_leading_zeros_push(t, c);
        let n = decimal_number(t);
        if n > 0 {
            assert((10 * n + digit_value(c)) / 10 == n);
            assert((10 * n + digit_value(c)) % 10 == digit_value(c));
        }
    }
}

/// A literal in plain decimal notation, read and written again, comes back
/// normalized.
pub proof fn lemma_literal_round_trip(literal: Seq<char>)
    requires
        is_plain_decimal(literal),
    ensures
        rational_text(decimal_value(literal)) == normalized(literal),
{
    if all_digits(literal) {
        if literal.len() == 0 {
            let p = choose|p: int| is_point(literal, p);
            assert(false);
        }
        lemma_read_number_writes_back(literal);
        let n = decimal_number(literal);
        assert(Seq::<char>::empty() + decimal_text(n) =~= decimal_text(n));
    }
}

/// A whole number that is not negative, written and read again, is the same
/// number.
pub proof fn lemma_whole_number_round_trip(n: nat)
    ensures
        is_plain_decimal(rational_text(Frac::from_int(n as int))),
        decimal_value(rational_text(Frac::from_int(n as int))) == Frac::from_int(n as int),
{
    lemma_written_number_reads_back(n);
    assert(Seq::<char>::empty() + decimal_text(n) =~= decimal_text(n));
}

} // verus!
