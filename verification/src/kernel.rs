//! Kernels for the density estimator: unit-shaped density/sampling functions
//! placed at a location and scaled by a bandwidth.
//!
//! A density value is a non-negative fixed-point number in `u64`, with
//! [`crate::constants::FP_ONE`] standing for one; every kernel keeps its
//! density at or below that bound, which in turn keeps every mixture and
//! score computation inside machine integers.

use vstd::prelude::*;

use crate::constants::FP_ONE;
use crate::rand::Random;
use crate::PARAM_BOUND;

pub mod epanechnikov;
pub mod gaussian;
pub mod uniform;
pub mod universal;

verus! {

/// Largest bandwidth a kernel accepts: wide enough for any distance between
/// two in-range locations scaled by the largest multiplier, small enough
/// that every density formula stays inside 128-bit intermediates.
pub const BANDWIDTH_BOUND: i64 = 0x100_0000_0000;

/// Density function: evaluation of a probability-like shape at a point.
pub trait Density: Sized {
    /// Whether the shape is fit for evaluation.
    spec fn density_wf(&self) -> bool;

    /// The density at `at`, in fixed-point bits.
    spec fn density_at(&self, at: int) -> int;

    /// Calculate the density at the given point. The density is exactly zero
    /// outside the shape's support, and never above one.
    fn density(&self, at: i64) -> (r: u64)
        requires
            self.density_wf(),
        ensures
            r == self.density_at(at as int),
            0 <= self.density_at(at as int) <= FP_ONE,
    ;
}

/// Parameter sampler: draws a random point distributed like the shape.
pub trait Sample: Sized {
    /// Whether the shape is fit for sampling.
    spec fn sample_wf(&self) -> bool;

    /// What holds of every point the shape can produce: each sampler keeps
    /// its draws within a stated distance of its centre.
    spec fn sample_bounds(&self, r: i64) -> bool;

    /// Generate a random point from the shape, using only the randomness
    /// capability. Which point comes back is chance; only the bound is
    /// promised, and callers must hold for every outcome.
    fn sample(&self, rng: &mut Random) -> (r: i64)
        requires
            self.sample_wf(),
        ensures
            self.sample_bounds(r),
    ;
}

/// Kernel builder: a shape constructed from a location and a bandwidth.
pub trait Kernel: Density + Sample {
    /// The centre the kernel was built at.
    spec fn location_spec(&self) -> int;

    /// The spread the kernel was built with.
    spec fn bandwidth_spec(&self) -> int;

    /// The kernel value that [`Kernel::new`] constructs, as a function of
    /// the location and bandwidth alone.
    spec fn kernel_spec(location: int, bandwidth: int) -> Self;

    /// Construct a kernel with the given location and bandwidth. The
    /// bandwidth must be strictly positive.
    fn new(location: i64, std: i64) -> (r: Self)
        requires
            -PARAM_BOUND <= location <= PARAM_BOUND,
            1 <= std <= BANDWIDTH_BOUND,
        ensures
            r == Self::kernel_spec(location as int, std as int),
            r.location_spec() == location,
            r.bandwidth_spec() == std,
            r.density_wf(),
            r.sample_wf(),
    ;
}

} // verus!
