//! Binary floating point in integer arithmetic.
//!
//! A binary32 or binary64 number is held by its bits. Its magnitude is measured
//! in units of the smallest subnormal, so every finite number is a whole number
//! of units and every operation is stated as one rounding of an exact quotient.

pub mod binary32;
pub mod binary64;
pub mod exact;
pub mod laws;
pub mod num;
pub mod ratio;
pub mod root;
pub mod round;
