//! Sequential black-box parameter optimizer built on the tree-structured
//! Parzen estimator method: a stream of (parameter, metric) trials is split
//! into a "good" and a "bad" ledger, kernel density estimators are fitted to
//! both, and the next parameter to try is the candidate that maximizes the
//! ratio of the good density to the bad density.
//!
//! Parameters and metrics are `i64` values; densities are non-negative
//! fixed-point numbers carried in `u64` with [`constants::FP_ONE`] standing
//! for one.

use vstd::prelude::*;

pub use self::iter::{Triple, Triples};
pub use self::kde::KernelDensityEstimator;
pub use self::kernel::{Density, Kernel, Sample};
pub use self::optimizer::Optimizer;
pub use self::rand::Random;
pub use self::trial::{Trial, Trials};

pub mod constants;
pub mod fixed;
pub mod iter;
pub mod kde;
pub mod kernel;
pub mod optimizer;
pub mod rand;
pub mod trial;

verus! {

/// Largest magnitude a parameter (a trial location or a range bound) may
/// have. Keeping locations within this bound keeps every bandwidth and
/// distance computation inside `i64`.
pub const PARAM_BOUND: i64 = 0x4000_0000;

} // verus!
