//! Fixed-point constants used by the kernels.
//!
//! A fixed-point value carries `x * FP_ONE`, rounded down, in a `u64`; all
//! constants below follow that convention.

use vstd::prelude::*;

verus! {

/// The fixed-point representation of one: 2^32.
pub const FP_ONE: u64 = 4294967296;

/// √3, fixed point.
pub const SQRT_3: u64 = 7439101573;

/// 2√3, fixed point.
pub const DOUBLE_SQRT_3: u64 = 14878203147;

/// 1 / (2√3), fixed point.
pub const INV_DOUBLE_SQRT_3: u64 = 1239850262;

/// √5, fixed point.
pub const SQRT_5: u64 = 9603838834;

/// 3 / (4√5), fixed point.
pub const THREE_QUARTER_SQRT_5: u64 = 1440575825;

/// 1 / √(2π), fixed point.
pub const FRAC_1_SQRT_TAU: u64 = 1713444047;

/// 1 / e, fixed point.
pub const INV_E: u64 = 1580030168;

/// ln 2, fixed point.
pub const LN_2: u64 = 2977044471;

/// 2π, fixed point.
pub const TAU: u64 = 26986075409;

} // verus!
