//! Single component of a kernel density estimator: a kernel placed at a
//! location with a bandwidth derived from its neighbourhood.

use vstd::arithmetic::div_mod::{
    lemma_div_pos_is_pos,
    lemma_multiply_divide_le,
};
use vstd::prelude::*;

use crate::constants::{DOUBLE_SQRT_3, FP_ONE};
use crate::iter::Triple;
use crate::kernel::uniform::Uniform;
use crate::kernel::{Density, Kernel, Sample};
use crate::rand::Random;
use crate::PARAM_BOUND;

verus! {

/// Whether a window's values are in range and strictly ascending.
pub open spec fn triple_wf(t: Triple<i64>) -> bool {
    match t {
        Triple::Full(l, x, r) => -PARAM_BOUND <= l < x < r <= PARAM_BOUND,
        Triple::LeftMiddle(l, x) => -PARAM_BOUND <= l < x <= PARAM_BOUND,
        Triple::MiddleRight(x, r) => -PARAM_BOUND <= x < r <= PARAM_BOUND,
        Triple::Right(x) => -PARAM_BOUND <= x <= PARAM_BOUND,
        Triple::Left(x) => -PARAM_BOUND <= x <= PARAM_BOUND,
        Triple::Middle(x) => -PARAM_BOUND <= x <= PARAM_BOUND,
    }
}

/// Single component of a kernel density estimator.
#[derive(Copy, Clone, Debug)]
pub struct Component<K> {
    /// Kernel function, built at the location and bandwidth below.
    pub kernel: K,
    /// Centre of the corresponding kernel.
    pub location: i64,
    /// Bandwidth of the corresponding kernel.
    pub bandwidth: i64,
}

impl<K: Kernel> Component<K> {
    /// Construct a component from a window of adjacent points, taking the
    /// distance to the farthest present neighbour as the bandwidth. Windows
    /// without neighbours give no component: they carry no distance to
    /// derive a bandwidth from.
    pub fn from_triple(triple: Triple<i64>) -> (r: Option<Component<K>>)
        requires
            triple_wf(triple),
        ensures
            match triple {
                Triple::Full(l, x, rt) => r matches Some(c) && c.location == x && c.bandwidth
                    == (if rt - x >= x - l {
                    rt - x
                } else {
                    x - l
                }),
                Triple::LeftMiddle(l, x) => r matches Some(c) && c.location == x && c.bandwidth
                    == x - l,
                Triple::MiddleRight(x, rt) => r matches Some(c) && c.location == x && c.bandwidth
                    == rt - x,
                _ => r is None,
            },
            r matches Some(c) ==> c.kernel.location_spec() == c.location
                && c.kernel.bandwidth_spec() == c.bandwidth && c.kernel.density_wf()
                && c.kernel.sample_wf(),
    {
        match triple {
            Triple::Full(l, x, rt) => {
                let bandwidth = if rt - x >= x - l {
                    rt - x
                } else {
                    x - l
                };
                Some(Component { kernel: K::new(x, bandwidth), location: x, bandwidth })
            },
            Triple::LeftMiddle(l, x) => {
                let bandwidth = x - l;
                Some(Component { kernel: K::new(x, bandwidth), location: x, bandwidth })
            },
            Triple::MiddleRight(x, rt) => {
                let bandwidth = rt - x;
                Some(Component { kernel: K::new(x, bandwidth), location: x, bandwidth })
            },
            _ => None,
        }
    }
}

impl<K: Density> Density for Component<K> {
    open spec fn density_wf(&self) -> bool {
        self.kernel.density_wf()
    }

    open spec fn density_at(&self, at: int) -> int {
        self.kernel.density_at(at)
    }

    fn density(&self, at: i64) -> (r: u64) {
        self.kernel.density(at)
    }
}

impl<K: Sample> Sample for Component<K> {
    open spec fn sample_wf(&self) -> bool {
        self.kernel.sample_wf()
    }

    open spec fn sample_bounds(&self, r: i64) -> bool {
        self.kernel.sample_bounds(r)
    }

    fn sample(&self, rng: &mut Random) -> (r: i64) {
        self.kernel.sample(rng)
    }
}

impl Component<Uniform> {
    /// Create a new component with the uniform kernel function, scaled and
    /// moved so that the box spans the specified range. A narrow range
    /// rounds up to the smallest positive bandwidth.
    pub fn new(min: i64, max: i64) -> (r: Component<Uniform>)
        requires
            -PARAM_BOUND <= min < max <= PARAM_BOUND,
        ensures
            r.location == min + (max - min) / 2,
            r.bandwidth == (if (max - min) * FP_ONE / (DOUBLE_SQRT_3 as int) >= 1 {
                (max - min) * FP_ONE / (DOUBLE_SQRT_3 as int)
            } else {
                1
            }),
            r.kernel.location_spec() == r.location,
            r.kernel.bandwidth_spec() == r.bandwidth,
            r.kernel.density_wf(),
            r.kernel.sample_wf(),
    {
        let width = (max - min) as u64;
        let location = min + ((width / 2) as i64);
        proof {
            assert((width as int) * (FP_ONE as int) <= (DOUBLE_SQRT_3 as int) * 0x4000_0000 && 0
                <= (width as int) * (FP_ONE as int)) by (nonlinear_arith)
                requires
                    0 <= width <= 0x8000_0000u64,
                    FP_ONE == 4294967296u64,
                    DOUBLE_SQRT_3 == 14878203147u64,
            ;
            lemma_multiply_divide_le(
                (width as int) * (FP_ONE as int),
                DOUBLE_SQRT_3 as int,
                0x4000_0000,
            );
            lemma_div_pos_is_pos((width as int) * (FP_ONE as int), DOUBLE_SQRT_3 as int);
        }
        let bwu = (((width as u128) * (FP_ONE as u128)) / (DOUBLE_SQRT_3 as u128)) as u64;
        let bandwidth = if bwu == 0 {
            1i64
        } else {
            bwu as i64
        };
        Component { kernel: Kernel::new(location, bandwidth), location, bandwidth }
    }
}

} // verus!
