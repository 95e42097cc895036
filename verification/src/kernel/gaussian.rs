//! Gaussian kernel: the standard normal density scaled by the bandwidth,
//! sampled through the Box-Muller transform.

use vstd::arithmetic::div_mod::{
    lemma_div_pos_is_pos,
    lemma_multiply_divide_le,
};
use vstd::arithmetic::mul::{
    lemma_mul_inequality,
    lemma_mul_nonnegative,
    lemma_mul_upper_bound,
};
use vstd::prelude::*;

use crate::constants::{FP_ONE, FRAC_1_SQRT_TAU};
use crate::fixed::{cos_tau, exp_neg, exp_neg_spec, isqrt, neg_ln, offset_of};
use crate::kernel::{Density, Kernel, Sample, BANDWIDTH_BOUND};
use crate::rand::Random;
use crate::PARAM_BOUND;

verus! {

/// The Gaussian density at `at` for a kernel at `location` with `bandwidth`:
/// `exp(-z^2 / 2) / sqrt(2 pi)` of the normalized offset `z`, scaled down by
/// the bandwidth. Past `sqrt(45)` bandwidths the true value falls below one
/// fixed-point unit, and the density is defined as exactly zero there.
pub open spec fn gaussian_density_at(location: int, bandwidth: int, at: int) -> int {
    let d2 = (at - location) * (at - location);
    let h2 = bandwidth * bandwidth;
    if d2 > 45 * h2 {
        0
    } else {
        FRAC_1_SQRT_TAU * exp_neg_spec(d2 * FP_ONE / (2 * h2)) / (FP_ONE * bandwidth)
    }
}

/// Gaussian kernel.
#[derive(Copy, Clone, Debug)]
pub struct Gaussian {
    /// Centre of the bell.
    pub location: i64,
    /// Standard deviation of the bell.
    pub bandwidth: i64,
}

impl Gaussian {
    /// The location is in range and the bandwidth strictly positive.
    pub open spec fn wf(&self) -> bool {
        &&& -PARAM_BOUND <= self.location <= PARAM_BOUND
        &&& 1 <= self.bandwidth <= BANDWIDTH_BOUND
    }

    /// The bell is symmetric: the density at equal offsets on either side of
    /// the location is identical.
    pub proof fn lemma_symmetry(&self, d: int)
        ensures
            gaussian_density_at(
                self.location as int,
                self.bandwidth as int,
                self.location + d,
            ) == gaussian_density_at(
                self.location as int,
                self.bandwidth as int,
                self.location - d,
            ),
    {
        assert((self.location + d - self.location) * (self.location + d - self.location) == (
        self.location - d - self.location) * (self.location - d - self.location))
            by (nonlinear_arith);
    }
}

impl Density for Gaussian {
    open spec fn density_wf(&self) -> bool {
        self.wf()
    }

    open spec fn density_at(&self, at: int) -> int {
        gaussian_density_at(self.location as int, self.bandwidth as int, at)
    }

    fn density(&self, at: i64) -> (r: u64) {
        let di = (at as i128) - (self.location as i128);
        let h = self.bandwidth as i128;
        proof {
            assert(di * di <= 0x8000_0000_4000_0000_i128 * 0x8000_0000_4000_0000_i128 && 0 <= di
                * di) by (nonlinear_arith)
                requires
                    -0x8000_0000_4000_0000_i128 <= di <= 0x8000_0000_4000_0000_i128,
            ;
            assert(1 <= h * h <= 0x100_0000_0000_i128 * 0x100_0000_0000_i128) by (nonlinear_arith)
                requires
                    1 <= h <= 0x100_0000_0000_i128,
            ;
        }
        let d2 = di * di;
        let h2 = h * h;
        if d2 > 45 * h2 {
            proof {
                assert((at - self.location) * (at - self.location) > 45 * ((
                self.bandwidth as int) * (self.bandwidth as int))) by (nonlinear_arith)
                    requires
                        di == at - self.location,
                        h == self.bandwidth as int,
                        d2 == di * di,
                        h2 == h * h,
                        d2 > 45 * h2,
                ;
            }
            0
        } else {
            proof {
                assert((at - self.location) * (at - self.location) <= 45 * ((
                self.bandwidth as int) * (self.bandwidth as int)) && (at - self.location) * (at
                    - self.location) == d2 as int) by (nonlinear_arith)
                    requires
                        di == at - self.location,
                        h == self.bandwidth as int,
                        d2 == di * di,
                        h2 == h * h,
                        d2 <= 45 * h2,
                ;
                // The normalized squared offset stays at or below 45/2, so
                // the exponential argument stays below 23.
                lemma_mul_inequality(d2 as int, 45 * (h2 as int), FP_ONE as int);
                lemma_mul_inequality(45 * (h2 as int), 46 * (h2 as int), FP_ONE as int);
                lemma_mul_nonnegative(d2 as int, FP_ONE as int);
                lemma_mul_upper_bound(
                    d2 as int,
                    54401661882658312861777920,
                    FP_ONE as int,
                    4294967296,
                );
                assert((46 * (h2 as int)) * (FP_ONE as int) == (2 * (h2 as int)) * (23 * (
                FP_ONE as int))) by (nonlinear_arith);
                lemma_multiply_divide_le(
                    (d2 as int) * (FP_ONE as int),
                    2 * (h2 as int),
                    23 * (FP_ONE as int),
                );
                lemma_div_pos_is_pos((d2 as int) * (FP_ONE as int), 2 * (h2 as int));
            }
            let t = (((d2 as u128) * (FP_ONE as u128)) / (2 * (h2 as u128))) as u64;
            let e = exp_neg(t);
            proof {
                assert((FRAC_1_SQRT_TAU as int) * (e as int) <= ((FP_ONE as int) * (
                self.bandwidth as int)) * (FP_ONE as int) && 0 <= (FRAC_1_SQRT_TAU as int) * (
                e as int) && (FRAC_1_SQRT_TAU as int) * (e as int) < 0x1_0000_0000_0000_0000_0000)
                    by (nonlinear_arith)
                    requires
                        0 <= e <= FP_ONE,
                        1 <= self.bandwidth,
                        FRAC_1_SQRT_TAU == 1713444047u64,
                        FP_ONE == 4294967296u64,
                ;
                lemma_multiply_divide_le(
                    (FRAC_1_SQRT_TAU as int) * (e as int),
                    (FP_ONE as int) * (self.bandwidth as int),
                    FP_ONE as int,
                );
                lemma_div_pos_is_pos(
                    (FRAC_1_SQRT_TAU as int) * (e as int),
                    (FP_ONE as int) * (self.bandwidth as int),
                );
                assert(0 < (FP_ONE as int) * (self.bandwidth as int)) by (nonlinear_arith)
                    requires
                        1 <= self.bandwidth,
                        FP_ONE == 4294967296u64,
                ;
            }
            (((FRAC_1_SQRT_TAU as u128) * (e as u128)) / ((FP_ONE as u128) * (
            self.bandwidth as u128))) as u64
        }
    }
}

impl Sample for Gaussian {
    open spec fn sample_wf(&self) -> bool {
        self.wf()
    }

    open spec fn sample_bounds(&self, r: i64) -> bool {
        self.location - 8 * self.bandwidth <= r <= self.location + 8 * self.bandwidth
    }

    /// Generate a sample from the Gaussian kernel by the Box-Muller
    /// transform: `sqrt(-2 ln u1) * cos(tau * u2)` over two independent
    /// uniform draws, scaled by the bandwidth. A zero first draw, whose
    /// logarithm has no value, is treated as the smallest positive draw.
    fn sample(&self, rng: &mut Random) -> (r: i64) {
        let u1 = rng.uniform_fraction();
        let u2 = rng.uniform_fraction();
        let t_ln = if u1 == 0 {
            23 * FP_ONE
        } else {
            neg_ln(u1)
        };
        let s2 = 2 * t_ln;
        proof {
            lemma_mul_nonnegative(s2 as int, FP_ONE as int);
            lemma_mul_upper_bound(s2 as int, 197568495616, FP_ONE as int, 4294967296);
            assert(197568495616 * 4294967296 == 848550227390639374336int) by (nonlinear_arith);
        }
        let zs = isqrt((s2 as u128) * (FP_ONE as u128));
        proof {
            assert(zs <= 30064771072u128) by (nonlinear_arith)
                requires
                    zs * zs <= 848550227390639374336u128,
            ;
        }
        let (neg, mag) = cos_tau(u2);
        proof {
            assert((zs as int) * (mag as int) <= (FP_ONE as int) * (8 * FP_ONE) && 0 <= (
            zs as int) * (mag as int)) by (nonlinear_arith)
                requires
                    0 <= zs <= 30064771072u128,
                    0 <= mag <= FP_ONE,
                    FP_ONE == 4294967296u64,
            ;
            lemma_multiply_divide_le((zs as int) * (mag as int), FP_ONE as int, 8 * (
            FP_ONE as int));
            lemma_div_pos_is_pos((zs as int) * (mag as int), FP_ONE as int);
        }
        let z = ((zs * (mag as u128)) / (FP_ONE as u128)) as u64;
        let off = offset_of(self.bandwidth, z, 8);
        if neg {
            self.location - off
        } else {
            self.location + off
        }
    }
}

impl Kernel for Gaussian {
    open spec fn location_spec(&self) -> int {
        self.location as int
    }

    open spec fn bandwidth_spec(&self) -> int {
        self.bandwidth as int
    }

    open spec fn kernel_spec(location: int, bandwidth: int) -> Gaussian {
        Gaussian { location: location as i64, bandwidth: bandwidth as i64 }
    }

    fn new(location: i64, std: i64) -> (r: Gaussian) {
        Gaussian { location, bandwidth: std }
    }
}

impl Default for Gaussian {
    /// Zero-centred unit-bandwidth kernel.
    fn default() -> (r: Gaussian)
        ensures
            r.location == 0,
            r.bandwidth == 1,
            r.wf(),
    {
        Gaussian { location: 0, bandwidth: 1 }
    }
}

} // verus!
