//! Normalized uniform kernel, also known as the boxcar function, with
//! support over `(location - sqrt(3) * bandwidth, location + sqrt(3) * bandwidth)`
//! and constant density `1 / (2 * sqrt(3) * bandwidth)` inside it.

use vstd::arithmetic::div_mod::{
    lemma_div_is_ordered,
    lemma_div_nonincreasing,
    lemma_div_pos_is_pos,
};
use vstd::prelude::*;

use crate::constants::{DOUBLE_SQRT_3, FP_ONE, INV_DOUBLE_SQRT_3, SQRT_3};
use crate::kernel::{Density, Kernel, Sample, BANDWIDTH_BOUND};
use crate::rand::Random;
use crate::PARAM_BOUND;

verus! {

/// The uniform density at `at` for a kernel at `location` with `bandwidth`:
/// constant inside the support, zero outside. A point lies inside the
/// support exactly when its squared distance from the location is at most
/// three bandwidths squared.
pub open spec fn uniform_density_at(location: int, bandwidth: int, at: int) -> int {
    let d = at - location;
    if d * d <= 3 * bandwidth * bandwidth {
        INV_DOUBLE_SQRT_3 as int / bandwidth
    } else {
        0
    }
}

/// Normalized uniform kernel over `location ± sqrt(3) * bandwidth`.
#[derive(Copy, Clone, Debug)]
pub struct Uniform {
    /// Centre of the box.
    pub location: i64,
    /// Spread of the box; the box half-width is `sqrt(3)` bandwidths.
    pub bandwidth: i64,
}

impl Uniform {
    /// The location is in range and the bandwidth strictly positive.
    pub open spec fn wf(&self) -> bool {
        &&& -PARAM_BOUND <= self.location <= PARAM_BOUND
        &&& 1 <= self.bandwidth <= BANDWIDTH_BOUND
    }
}

impl Density for Uniform {
    open spec fn density_wf(&self) -> bool {
        self.wf()
    }

    open spec fn density_at(&self, at: int) -> int {
        uniform_density_at(self.location as int, self.bandwidth as int, at)
    }

    fn density(&self, at: i64) -> (r: u64) {
        let d = (at as i128) - (self.location as i128);
        let bw = self.bandwidth as i128;
        proof {
            assert(d * d <= 0x8000_0000_4000_0000_i128 * 0x8000_0000_4000_0000_i128)
                by (nonlinear_arith)
                requires
                    -0x8000_0000_4000_0000_i128 <= d <= 0x8000_0000_4000_0000_i128,
            ;
            assert(0 <= d * d) by (nonlinear_arith);
            assert(bw * bw <= BANDWIDTH_BOUND * BANDWIDTH_BOUND) by (nonlinear_arith)
                requires
                    1 <= bw <= BANDWIDTH_BOUND,
            ;
            assert(1 <= bw * bw) by (nonlinear_arith)
                requires
                    1 <= bw,
            ;
        }
        if d * d <= 3 * (bw * bw) {
            proof {
                assert((at - self.location) * (at - self.location) <= 3 * (self.bandwidth as int)
                    * (self.bandwidth as int)) by (nonlinear_arith)
                    requires
                        d == at - self.location,
                        bw == self.bandwidth as int,
                        d * d <= 3 * (bw * bw),
                ;
                lemma_div_nonincreasing(INV_DOUBLE_SQRT_3 as int, self.bandwidth as int);
                lemma_div_pos_is_pos(INV_DOUBLE_SQRT_3 as int, self.bandwidth as int);
            }
            let r = INV_DOUBLE_SQRT_3 / (self.bandwidth as u64);
            assert(r == uniform_density_at(self.location as int, self.bandwidth as int, at as int));
            r
        } else {
            assert((at - self.location) * (at - self.location) > 3 * (self.bandwidth as int) * (
            self.bandwidth as int)) by (nonlinear_arith)
                requires
                    d == at - self.location,
                    bw == self.bandwidth as int,
                    d * d > 3 * (bw * bw),
            ;
            assert(0 == uniform_density_at(self.location as int, self.bandwidth as int, at as int));
            0
        }
    }
}

impl Sample for Uniform {
    open spec fn sample_wf(&self) -> bool {
        self.wf()
    }

    open spec fn sample_bounds(&self, r: i64) -> bool {
        self.location - SQRT_3 * self.bandwidth / (FP_ONE as int) <= r <= self.location + SQRT_3
            * self.bandwidth / (FP_ONE as int)
    }

    /// Generate a sample from the uniform kernel: one uniform draw, scaled
    /// over the box.
    fn sample(&self, rng: &mut Random) -> (r: i64) {
        let t = rng.uniform_fraction();
        // The normalized offset `t * 2 * sqrt(3)` spans `[0, 2 * sqrt(3))`.
        let wide = (t as u128) * (DOUBLE_SQRT_3 as u128);
        proof {
            // The draw is strictly below one, so the scaled offset stays at
            // or below `2 * sqrt(3)` even after the flooring.
            assert((t as int) * (DOUBLE_SQRT_3 as int) <= (FP_ONE as int) * (2 * SQRT_3) && 0 <= (
            t as int) * (DOUBLE_SQRT_3 as int)) by (nonlinear_arith)
                requires
                    0 <= t <= 4294967295u64,
                    DOUBLE_SQRT_3 == 14878203147u64,
                    SQRT_3 == 7439101573u64,
                    FP_ONE == 4294967296u64,
            ;
            vstd::arithmetic::div_mod::lemma_multiply_divide_le(
                (t as int) * (DOUBLE_SQRT_3 as int),
                FP_ONE as int,
                2 * (SQRT_3 as int),
            );
            lemma_div_pos_is_pos((t as int) * (DOUBLE_SQRT_3 as int), FP_ONE as int);
        }
        let u = (wide / (FP_ONE as u128)) as u64;
        // Recentre around the location: the offset from the centre is
        // `bandwidth * |u - sqrt(3)|`, to the right when `u` exceeds
        // `sqrt(3)` and to the left otherwise.
        if u >= SQRT_3 {
            let z = u - SQRT_3;
            proof {
                Self::lemma_offset_bound(self.bandwidth as int, z as int);
            }
            let off = (((self.bandwidth as u128) * (z as u128)) / (FP_ONE as u128)) as u64;
            self.location + (off as i64)
        } else {
            let z = SQRT_3 - u;
            proof {
                Self::lemma_offset_bound(self.bandwidth as int, z as int);
            }
            let off = (((self.bandwidth as u128) * (z as u128)) / (FP_ONE as u128)) as u64;
            self.location - (off as i64)
        }
    }
}

impl Uniform {
    /// A normalized offset of at most `sqrt(3)` scales into at most
    /// `sqrt(3)` bandwidths, which in particular fits well below two
    /// bandwidths.
    proof fn lemma_offset_bound(bw: int, z: int)
        requires
            1 <= bw <= BANDWIDTH_BOUND,
            0 <= z <= SQRT_3,
        ensures
            0 <= bw * z / (FP_ONE as int) <= SQRT_3 * bw / (FP_ONE as int),
            SQRT_3 * bw / (FP_ONE as int) <= 2 * bw,
    {
        assert(bw * z <= (SQRT_3 as int) * bw && 0 <= bw * z && (SQRT_3 as int) * bw <= (
        FP_ONE as int) * (2 * bw)) by (nonlinear_arith)
            requires
                1 <= bw,
                0 <= z <= 7439101573,
                SQRT_3 == 7439101573u64,
                FP_ONE == 4294967296u64,
        ;
        lemma_div_is_ordered(bw * z, (SQRT_3 as int) * bw, FP_ONE as int);
        lemma_div_pos_is_pos(bw * z, FP_ONE as int);
        vstd::arithmetic::div_mod::lemma_multiply_divide_le(
            (SQRT_3 as int) * bw,
            FP_ONE as int,
            2 * bw,
        );
    }
}

impl Uniform {
    /// The density is exactly zero outside the support
    /// `location ± sqrt(3) * bandwidth`, and constant inside it.
    pub proof fn lemma_support(&self, at: int)
        requires
            self.wf(),
        ensures
            (at - self.location) * (at - self.location) > 3 * self.bandwidth * self.bandwidth
                ==> self.density_at(at) == 0,
            (at - self.location) * (at - self.location) <= 3 * self.bandwidth * self.bandwidth
                ==> self.density_at(at) == INV_DOUBLE_SQRT_3 as int / (self.bandwidth as int),
    {
    }
}

impl Kernel for Uniform {
    open spec fn location_spec(&self) -> int {
        self.location as int
    }

    open spec fn bandwidth_spec(&self) -> int {
        self.bandwidth as int
    }

    open spec fn kernel_spec(location: int, bandwidth: int) -> Uniform {
        Uniform { location: location as i64, bandwidth: bandwidth as i64 }
    }

    fn new(location: i64, std: i64) -> (r: Uniform) {
        Uniform { location, bandwidth: std }
    }
}

} // verus!
