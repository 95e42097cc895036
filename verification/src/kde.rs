//! Kernel density estimator: an unweighted mixture of kernel components.
//!
//! It is used to model the "good" and "bad" parameter distributions, but can
//! also be used standalone.

use vstd::arithmetic::div_mod::{
    lemma_div_pos_is_pos,
    lemma_multiply_divide_le,
};
use vstd::arithmetic::mul::lemma_mul_inequality;
use vstd::prelude::*;

use crate::constants::FP_ONE;
use crate::kernel::{Density, Sample};
use crate::rand::Random;

pub mod component;

verus! {

/// The sum of the component densities at a point.
pub open spec fn kde_density_sum<C: Density>(s: Seq<C>, at: int) -> int
    decreases s.len(),
{
    if s.len() == 0 {
        0
    } else {
        kde_density_sum(s.drop_last(), at) + s.last().density_at(at)
    }
}

/// The mixture density at a point: the arithmetic mean of the component
/// densities, and zero for an empty mixture.
pub open spec fn kde_density_at<C: Density>(s: Seq<C>, at: int) -> int {
    if s.len() == 0 {
        0
    } else {
        kde_density_sum(s, at) / (s.len() as int)
    }
}

/// Every component is fit for density evaluation.
pub open spec fn kde_density_wf<C: Density>(s: Seq<C>) -> bool {
    forall|i: int| 0 <= i < s.len() ==> (#[trigger] s[i]).density_wf()
}

/// Every component is fit for sampling.
pub open spec fn kde_sample_wf<C: Sample>(s: Seq<C>) -> bool {
    forall|i: int| 0 <= i < s.len() ==> (#[trigger] s[i]).sample_wf()
}

/// Kernel density estimator: a possibly-empty mixture of components.
pub struct KernelDensityEstimator<C>(pub Vec<C>);

impl<C: Density> KernelDensityEstimator<C> {
    /// Calculate the mixture's density at the specified point.
    ///
    /// The method returns the additive identity if there are no components.
    pub fn density(&self, at: i64) -> (r: u64)
        requires
            kde_density_wf(self.0@),
            self.0@.len() < 0x8000_0000,
        ensures
            r == kde_density_at(self.0@, at as int),
            self.0@.len() == 0 ==> r == 0,
            0 <= r <= FP_ONE,
    {
        let n = self.0.len();
        if n == 0 {
            return 0;
        }
        let mut sum: u128 = 0;
        let mut i: usize = 0;
        while i < n
            invariant
                i <= n,
                n == self.0@.len(),
                n < 0x8000_0000,
                kde_density_wf(self.0@),
                sum == kde_density_sum(self.0@.take(i as int), at as int),
                sum <= (i as int) * (FP_ONE as int),
            decreases n - i,
        {
            let d = self.0[i].density(at);
            proof {
                let pre = self.0@.take(i as int);
                let post = self.0@.take(i as int + 1);
                assert(post.drop_last() == pre);
                assert(post.last() == self.0@[i as int]);
                lemma_mul_inequality(i as int, i as int + 1, FP_ONE as int);
                assert((i as int + 1) * (FP_ONE as int) == (i as int) * (FP_ONE as int)
                    + FP_ONE as int) by (nonlinear_arith);
            }
            sum = sum + (d as u128);
            i = i + 1;
        }
        proof {
            assert(self.0@.take(n as int) == self.0@);
            lemma_multiply_divide_le(sum as int, n as int, FP_ONE as int);
            lemma_div_pos_is_pos(sum as int, n as int);
            assert((n as int) * (FP_ONE as int) == (FP_ONE as int) * (n as int));
        }
        (sum / (n as u128)) as u64
    }
}

impl<C: Density> Density for KernelDensityEstimator<C> {
    open spec fn density_wf(&self) -> bool {
        kde_density_wf(self.0@) && self.0@.len() < 0x8000_0000
    }

    open spec fn density_at(&self, at: int) -> int {
        kde_density_at(self.0@, at)
    }

    fn density(&self, at: i64) -> (r: u64) {
        self.density(at)
    }
}

impl<C: Sample> KernelDensityEstimator<C> {
    /// Sample a random point from the mixture, or `None` if the estimator
    /// has no components: an empty class is a normal case, not a failure.
    ///
    /// The algorithm uses reservoir sampling to pick a component: the
    /// component at position `i` replaces the held choice when a uniform
    /// draw over `[0, i]` lands on zero, which picks each component with
    /// equal probability in a single pass. The point is then sampled from
    /// the chosen component.
    pub fn sample(&self, rng: &mut Random) -> (r: Option<i64>)
        requires
            kde_sample_wf(self.0@),
        ensures
            r is None <==> self.0@.len() == 0,
            r matches Some(s) ==> exists|i: int|
                0 <= i < self.0@.len() && (#[trigger] self.0@[i]).sample_bounds(s),
    {
        let n = self.0.len();
        if n == 0 {
            return None;
        }
        let mut chosen: usize = 0;
        let mut i: usize = 0;
        while i < n
            invariant
                i <= n,
                chosen < n,
                n == self.0@.len(),
            decreases n - i,
        {
            if rng.uniform_index(i) == 0 {
                chosen = i;
            }
            i = i + 1;
        }
        let s = self.0[chosen].sample(rng);
        proof {
            assert(self.0@[chosen as int].sample_bounds(s));
        }
        Some(s)
    }
}

} // verus!
