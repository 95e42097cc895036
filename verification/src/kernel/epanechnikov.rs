//! Standardized Epanechnikov (parabolic) kernel over
//! `location ± sqrt(5) * bandwidth`.

use vstd::arithmetic::div_mod::{
    lemma_div_is_ordered,
    lemma_div_multiples_vanish,
    lemma_div_pos_is_pos,
    lemma_multiply_divide_le,
};
use vstd::prelude::*;

use crate::constants::{FP_ONE, SQRT_5, THREE_QUARTER_SQRT_5};
use crate::fixed::offset_of;
use crate::kernel::{Density, Kernel, Sample, BANDWIDTH_BOUND};
use crate::rand::Random;
use crate::PARAM_BOUND;

verus! {

/// The Epanechnikov density at `at` for a kernel at `location` with
/// `bandwidth`: a downward parabola `3/4 * (1 - z^2) / sqrt(5)` of the
/// normalized offset `z`, zero outside the support. A point lies inside the
/// support exactly when its squared distance from the location is at most
/// five bandwidths squared.
pub open spec fn epanechnikov_density_at(location: int, bandwidth: int, at: int) -> int {
    let d2 = (at - location) * (at - location);
    let h2 = bandwidth * bandwidth;
    if d2 <= 5 * h2 {
        THREE_QUARTER_SQRT_5 * (FP_ONE - d2 * FP_ONE / (5 * h2)) / (FP_ONE * bandwidth)
    } else {
        0
    }
}

/// Pick the two smallest of three numbers, keeping the order the swaps
/// produce: the smaller of the first two, then the smaller of the remaining
/// pair.
pub open spec fn min_2_spec(x1: u64, x2: u64, x3: u64) -> (u64, u64) {
    let lo = if x1 > x2 {
        x2
    } else {
        x1
    };
    let hi = if x1 > x2 {
        x1
    } else {
        x2
    };
    (lo, if hi > x3 {
        x3
    } else {
        hi
    })
}

/// Pick and return the two smallest numbers.
pub fn min_2(x1: u64, x2: u64, x3: u64) -> (r: (u64, u64))
    ensures
        r == min_2_spec(x1, x2, x3),
{
    let mut a = x1;
    let mut b = x2;
    // Ensure a <= b:
    if a > b {
        let t = a;
        a = b;
        b = t;
    }
    // a is now one of the two smallest numbers. Pick the smallest among the
    // other two:
    (a, if b > x3 {
        x3
    } else {
        b
    })
}

/// Standardized Epanechnikov kernel.
#[derive(Copy, Clone, Debug)]
pub struct Epanechnikov {
    /// Centre of the parabola.
    pub location: i64,
    /// Spread; the support half-width is `sqrt(5)` bandwidths.
    pub bandwidth: i64,
}

impl Epanechnikov {
    /// The location is in range and the bandwidth strictly positive.
    pub open spec fn wf(&self) -> bool {
        &&& -PARAM_BOUND <= self.location <= PARAM_BOUND
        &&& 1 <= self.bandwidth <= BANDWIDTH_BOUND
    }
}

impl Density for Epanechnikov {
    open spec fn density_wf(&self) -> bool {
        self.wf()
    }

    open spec fn density_at(&self, at: int) -> int {
        epanechnikov_density_at(self.location as int, self.bandwidth as int, at)
    }

    fn density(&self, at: i64) -> (r: u64) {
        let di = (at as i128) - (self.location as i128);
        let h = self.bandwidth as i128;
        proof {
            assert(di * di <= 0x8000_0000_4000_0000_i128 * 0x8000_0000_4000_0000_i128 && 0 <= di
                * di) by (nonlinear_arith)
                requires
                    -0x8000_0000_4000_0000_i128 <= di <= 0x8000_0000_4000_0000_i128,
            ;
            assert(1 <= h * h <= 0x100_0000_0000_i128 * 0x100_0000_0000_i128) by (nonlinear_arith)
                requires
                    1 <= h <= 0x100_0000_0000_i128,
            ;
        }
        let d2 = di * di;
        let h2 = h * h;
        if d2 <= 5 * h2 {
            proof {
                assert((at - self.location) * (at - self.location) <= 5 * ((
                self.bandwidth as int) * (self.bandwidth as int)) && (at - self.location) * (at
                    - self.location) == d2 as int) by (nonlinear_arith)
                    requires
                        di == at - self.location,
                        h == self.bandwidth as int,
                        d2 == di * di,
                        h2 == h * h,
                        d2 <= 5 * h2,
                ;
                // The normalized squared offset stays at or below one.
                assert((d2 as int) * (FP_ONE as int) <= (5 * (h2 as int)) * (FP_ONE as int) && 0
                    <= (d2 as int) * (FP_ONE as int) && (d2 as int) * (FP_ONE as int)
                    < 0x8_0000_0000_0000_0000_0000_0000_0000) by (nonlinear_arith)
                    requires
                        0 <= d2 <= 5 * h2,
                        1 <= h2 <= 0x100_0000_0000_i128 * 0x100_0000_0000_i128,
                        FP_ONE == 4294967296u64,
                ;
                lemma_multiply_divide_le(
                    (d2 as int) * (FP_ONE as int),
                    5 * (h2 as int),
                    FP_ONE as int,
                );
                lemma_div_pos_is_pos((d2 as int) * (FP_ONE as int), 5 * (h2 as int));
            }
            let t = (((d2 as u128) * (FP_ONE as u128)) / (5 * (h2 as u128))) as u64;
            let u = FP_ONE - t;
            proof {
                assert((THREE_QUARTER_SQRT_5 as int) * (u as int) <= ((FP_ONE as int) * (
                self.bandwidth as int)) * (FP_ONE as int) && 0 <= (THREE_QUARTER_SQRT_5 as int) * (
                u as int) && (THREE_QUARTER_SQRT_5 as int) * (u as int)
                    < 0x1_0000_0000_0000_0000_0000) by (nonlinear_arith)
                    requires
                        0 <= u <= FP_ONE,
                        1 <= self.bandwidth,
                        THREE_QUARTER_SQRT_5 == 1440575825u64,
                        FP_ONE == 4294967296u64,
                ;
                lemma_multiply_divide_le(
                    (THREE_QUARTER_SQRT_5 as int) * (u as int),
                    (FP_ONE as int) * (self.bandwidth as int),
                    FP_ONE as int,
                );
                lemma_div_pos_is_pos(
                    (THREE_QUARTER_SQRT_5 as int) * (u as int),
                    (FP_ONE as int) * (self.bandwidth as int),
                );
                assert(0 < (FP_ONE as int) * (self.bandwidth as int)) by (nonlinear_arith)
                    requires
                        1 <= self.bandwidth,
                        FP_ONE == 4294967296u64,
                ;
            }
            (((THREE_QUARTER_SQRT_5 as u128) * (u as u128)) / ((FP_ONE as u128) * (
            self.bandwidth as u128))) as u64
        } else {
            proof {
                assert((at - self.location) * (at - self.location) > 5 * ((self.bandwidth as int)
                    * (self.bandwidth as int))) by (nonlinear_arith)
                    requires
                        di == at - self.location,
                        h == self.bandwidth as int,
                        d2 == di * di,
                        h2 == h * h,
                        d2 > 5 * h2,
                ;
            }
            0
        }
    }
}

impl Sample for Epanechnikov {
    open spec fn sample_wf(&self) -> bool {
        self.wf()
    }

    open spec fn sample_bounds(&self, r: i64) -> bool {
        self.location - SQRT_5 * self.bandwidth / (FP_ONE as int) <= r <= self.location + SQRT_5
            * self.bandwidth / (FP_ONE as int)
    }

    /// Generate a sample from the Epanechnikov kernel: the median of three
    /// uniform draws, randomly sign-flipped, scaled by `sqrt(5)` bandwidths.
    fn sample(&self, rng: &mut Random) -> (r: i64) {
        // Select the two smallest numbers of the three iid uniform samples:
        let (x1, x2) = min_2(
            rng.uniform_fraction(),
            rng.uniform_fraction(),
            rng.uniform_fraction(),
        );

        // Randomly select one of the two smallest numbers:
        let abs_normalized = if rng.uniform_bool() {
            x1
        } else {
            x2
        };

        // Scale to have a standard deviation of one:
        proof {
            assert((abs_normalized as int) * (SQRT_5 as int) <= (FP_ONE as int) * (SQRT_5 as int)
                && 0 <= (abs_normalized as int) * (SQRT_5 as int) && (abs_normalized as int) * (
            SQRT_5 as int) < 0x1_0000_0000_0000_0000_0000) by (nonlinear_arith)
                requires
                    0 <= abs_normalized <= FP_ONE,
                    SQRT_5 == 9603838834u64,
                    FP_ONE == 4294967296u64,
            ;
            lemma_div_is_ordered(
                (abs_normalized as int) * (SQRT_5 as int),
                (FP_ONE as int) * (SQRT_5 as int),
                FP_ONE as int,
            );
            lemma_div_pos_is_pos((abs_normalized as int) * (SQRT_5 as int), FP_ONE as int);
            lemma_div_multiples_vanish(SQRT_5 as int, FP_ONE as int);
        }
        let z = (((abs_normalized as u128) * (SQRT_5 as u128)) / (FP_ONE as u128)) as u64;
        let off = offset_of(self.bandwidth, z, 3);
        proof {
            // The normalized offset is at most `sqrt(5)`, so the scaled
            // offset stays within `sqrt(5)` bandwidths.
            assert((self.bandwidth as int) * (z as int) <= (SQRT_5 as int) * (
            self.bandwidth as int) && 0 <= (self.bandwidth as int) * (z as int))
                by (nonlinear_arith)
                requires
                    1 <= self.bandwidth,
                    0 <= z <= 9603838834u64,
                    SQRT_5 == 9603838834u64,
            ;
            lemma_div_is_ordered(
                (self.bandwidth as int) * (z as int),
                (SQRT_5 as int) * (self.bandwidth as int),
                FP_ONE as int,
            );
            lemma_div_pos_is_pos((SQRT_5 as int) * (self.bandwidth as int), FP_ONE as int);
        }

        // Randomly invert it:
        if rng.uniform_bool() {
            self.location + off
        } else {
            self.location - off
        }
    }
}

impl Kernel for Epanechnikov {
    open spec fn location_spec(&self) -> int {
        self.location as int
    }

    open spec fn bandwidth_spec(&self) -> int {
        self.bandwidth as int
    }

    open spec fn kernel_spec(location: int, bandwidth: int) -> Epanechnikov {
        Epanechnikov { location: location as i64, bandwidth: bandwidth as i64 }
    }

    fn new(location: i64, std: i64) -> (r: Epanechnikov) {
        Epanechnikov { location, bandwidth: std }
    }
}

impl Default for Epanechnikov {
    /// Zero-centred unit-bandwidth kernel.
    fn default() -> (r: Epanechnikov)
        ensures
            r.location == 0,
            r.bandwidth == 1,
            r.wf(),
    {
        Epanechnikov { location: 0, bandwidth: 1 }
    }
}

} // verus!
