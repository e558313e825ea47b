//! What the stages share: the arithmetic behind the operators, and how
//! values are written out.

use crate::types::big_uint::BigUInt;
use crate::types::rational::Rational;
use vstd::pervasive::cloned;
use vstd::prelude::*;
use vstd::string::StringExecFns;

pub mod algs;

verus! {

/// What a piece of output is, for the choice of its colour.
#[derive(Debug, Clone, Copy, PartialEq, Eq, Structural)]
pub enum Color {
    /// success
    SUC,
    /// failure
    FAI,
    /// title
    TIT,
    /// sub-title
    SUB,
    /// other
    OTH,
}

/// A value that can be written out.
pub trait Text {
    /// What is written.
    spec fn text(&self) -> Seq<char>;

    /// Writes the value out.
    fn to_string(&self) -> (s: String)
        ensures
            s@ == self.text(),
    ;
}

impl Color {
    /// The escape sequence that switches the colour on.
    pub open spec fn prefix(&self) -> Seq<char> {
        match self {
            Color::SUC => "\x1b[1;32m"@,
            Color::FAI => "\x1b[1;31m"@,
            Color::TIT => "\x1b[1;34m"@,
            Color::SUB => "\x1b[1;36m"@,
            Color::OTH => "\x1b[1;33m"@,
        }
    }
}

/// The escape sequence that switches colours off.
pub open spec fn color_reset() -> Seq<char> {
    "\x1b[0m"@
}

/// `str` in the colour `kind`, for a terminal; `str` as it is, for any other
/// destination.
pub fn color(kind: &Color, str: &str, terminal: bool) -> (res: String)
    ensures
        res@ == (if terminal {
            kind.prefix() + str@ + color_reset()
        } else {
            str@
        }),
{
    if !terminal {
        return String::from_str(str);
    }
    let mut res = match kind {
        Color::SUC => String::from_str("\x1b[1;32m"),
        Color::FAI => String::from_str("\x1b[1;31m"),
        Color::TIT => String::from_str("\x1b[1;34m"),
        Color::SUB => String::from_str("\x1b[1;36m"),
        Color::OTH => String::from_str("\x1b[1;33m"),
    };
    res.append(str);
    res.append("\x1b[0m");
    res
}

/// Appends `c` to `s`. Wraps `String::push` of std.
#[verifier::external_body]
pub(crate) fn push_char(s: &mut String, c: char)
    ensures
        final(s)@ == old(s)@.push(c),
{
    s.push(c)
}

/// The texts `items`, with `sep` between each two of them.
pub open spec fn joined(items: Seq<Seq<char>>, sep: Seq<char>) -> Seq<char>
    decreases items.len(),
{
    if items.len() == 0 {
        Seq::empty()
    } else if items.len() == 1 {
        items[0]
    } else {
        joined(items.drop_last(), sep) + sep + items.last()
    }
}

/// What the values `items` write.
pub open spec fn texts<T: Text>(items: Seq<T>) -> Seq<Seq<char>> {
    items.map_values(|item: T| item.text())
}

/// Writes out `items`, with `sep` between each two of them, or one space
/// where no separator is given.
pub fn fmt<T: Text>(items: &[T], sep: Option<&str>) -> (res: String)
    ensures
        res@ == joined(
            texts(items@),
            match sep {
                Some(s) => s@,
                None => " "@,
            },
        ),
{
    let sep: &str = match sep {
        Some(s) => s,
        None => " ",
    };
    let mut res = String::new();
    let mut i: usize = 0;
    assert(texts(items@.take(0)) =~= Seq::<Seq<char>>::empty());
    while i < items.len()
        invariant
            i <= items.len(),
            res@ == joined(texts(items@.take(i as int)), sep@),
        decreases items.len() - i,
    {
        proof {
            let next = texts(items@.take(i + 1));
            assert(next.drop_last() =~= texts(items@.take(i as int)));
            assert(next.last() == items@[i as int].text());
            if i == 0 {
                assert(res@ + items@[0].text() =~= items@[0].text());
            }
        }
        if i > 0 {
            res.append(sep);
        }
        let item = items[i].to_string();
        res.append(item.as_str());
        i += 1;
    }
    assert(items@.take(items.len() as int) =~= items@);
    res
}

/// Whether `to` is what `From` makes of a clone of `item`.
pub open spec fn is_conversion<T: Clone, F: From<T>>(item: T, to: F) -> bool {
    exists|copy: T| cloned(item, copy) && #[trigger] call_ensures(F::from, (copy,), to)
}

/// Each of `items`, cloned and converted, in the order of `items`.
pub fn convert<T: Clone, F: From<T>>(items: &[T]) -> (res: Vec<F>)
    ensures
        res.len() == items.len(),
        forall|i: int| 0 <= i < items.len() ==> is_conversion(items[i], #[trigger] res[i]),
{
    let mut res: Vec<F> = Vec::new();
    let mut i: usize = 0;
    while i < items.len()
        invariant
            i <= items.len(),
            res.len() == i,
            forall|j: int| 0 <= j < i ==> is_conversion(items[j], #[trigger] res[j]),
        decreases items.len() - i,
    {
        let copy = items[i].clone();
        let ghost kept = copy;
        let converted = F::from(copy);
        assert(cloned(items[i as int], kept) && call_ensures(F::from, (kept,), converted));
        res.push(converted);
        i += 1;
    }
    res
}

/// The product of the whole numbers from `first` to `last`.
pub fn disp_small(first: u64, last: u64) -> (res: BigUInt)
    requires
        first <= last,
    ensures
        res@ == algs::product_of(first as nat, last as nat),
{
    algs::disp(first, last)
}

/// Whether `num` is a whole number.
pub fn is_integer(num: &Rational) -> (b: bool)
    ensures
        b == num@.is_integer(),
{
    num.is_integer()
}

} // verus!
