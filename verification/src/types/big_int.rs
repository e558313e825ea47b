//! Whole numbers of any size.

use crate::types::big_uint::BigUInt;
use vstd::prelude::*;

verus! {

/// A whole number: a size and a sign, which is 1 or -1.
#[derive(Debug)]
pub struct BigInt {
    num: BigUInt,
    sign: isize,
}

impl View for BigInt {
    type V = int;

    /// The number: its size, taken with its sign.
    closed spec fn view(&self) -> int {
        self.sign * self.num@
    }
}

impl BigInt {
    #[verifier::type_invariant]
    closed spec fn well_formed(&self) -> bool {
        self.sign == 1 || self.sign == -1
    }

    /// The number of size `num` with the sign `sign`, which is 1 or -1.
    pub fn from(num: BigUInt, sign: isize) -> (res: BigInt)
        requires
            sign == -1 || sign == 1,
        ensures
            res@ == sign * num@,
    {
        BigInt { num, sign }
    }
}

} // verus!
