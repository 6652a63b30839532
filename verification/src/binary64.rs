//! IEEE 754 binary64 arithmetic on bit patterns, rounding to nearest with
//! ties to even.

pub mod power;
pub mod format;
pub mod round;
pub mod sum;
pub mod product;
pub mod order;
pub mod quotient;
pub mod root;
pub mod convert;
pub mod laws;
