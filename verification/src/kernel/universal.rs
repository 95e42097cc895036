//! Uniform kernel over an explicit inclusive range of integers, usable both
//! as a mixture component and as a standalone prior belief.

use vstd::arithmetic::div_mod::{
    lemma_div_nonincreasing,
    lemma_div_pos_is_pos,
};
use vstd::prelude::*;

use crate::constants::FP_ONE;
use crate::kernel::{Density, Sample};
use crate::rand::Random;
use crate::PARAM_BOUND;

verus! {

/// The discrete uniform density over `min..=max`: every point of the range
/// carries an equal share of one, and points outside carry zero.
pub open spec fn range_density_at(min: int, max: int, at: int) -> int {
    if min <= at <= max {
        FP_ONE as int / (max - min + 1)
    } else {
        0
    }
}

/// Uniform kernel with explicit inclusive bounds.
#[derive(Copy, Clone, Debug)]
pub struct Uniform {
    /// Smallest value of the range.
    pub min: i64,
    /// Largest value of the range.
    pub max: i64,
}

impl Uniform {
    /// The range is non-empty and inside the parameter bound.
    pub open spec fn wf(&self) -> bool {
        &&& -PARAM_BOUND <= self.min <= self.max <= PARAM_BOUND
    }

    /// Construct the kernel with the specified inclusive bounds.
    pub fn with_bounds(min: i64, max: i64) -> (r: Uniform)
        requires
            -PARAM_BOUND <= min <= max <= PARAM_BOUND,
        ensures
            r.min == min,
            r.max == max,
            r.wf(),
    {
        Uniform { min, max }
    }
}

impl Density for Uniform {
    open spec fn density_wf(&self) -> bool {
        self.wf()
    }

    open spec fn density_at(&self, at: int) -> int {
        range_density_at(self.min as int, self.max as int, at)
    }

    fn density(&self, at: i64) -> (r: u64) {
        if self.min <= at && at <= self.max {
            let width = ((self.max - self.min) as u64) + 1;
            proof {
                lemma_div_nonincreasing(FP_ONE as int, width as int);
                lemma_div_pos_is_pos(FP_ONE as int, width as int);
            }
            FP_ONE / width
        } else {
            0
        }
    }
}

impl Sample for Uniform {
    open spec fn sample_wf(&self) -> bool {
        self.wf()
    }

    open spec fn sample_bounds(&self, r: i64) -> bool {
        self.min <= r <= self.max
    }

    /// Draw a uniform integer from the range.
    fn sample(&self, rng: &mut Random) -> (r: i64) {
        rng.uniform_range(self.min, self.max)
    }
}

} // verus!
