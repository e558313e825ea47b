//! Number types of the calculator.

pub mod big_int;
pub mod big_uint;
pub mod decimal;
pub mod digits;
pub mod frac;
pub mod gcd;
pub mod rational;
