//! The randomness capability.
//!
//! All random sampling in the crate goes through [`Rng`], which draws from a
//! `fastrand::Rng` held in a private field. The capability offers exactly the
//! three draws the algorithms need: a uniform fixed-point fraction in
//! `[0, 1)`, a uniform boolean, and a uniform integer in an inclusive range.
//! Nothing is assumed about the values drawn beyond their range, so every
//! caller is verified for every possible outcome.

use vstd::prelude::*;

use crate::constants::FP_ONE;

verus! {

#[verifier::external_type_specification]
#[verifier::external_body]
pub struct ExFastrandRng(fastrand::Rng);

/// Relies on fastrand::Rng::with_seed: builds a deterministic generator from
/// the given seed.
#[verifier::external_body]
fn fastrand_with_seed(seed: u64) -> fastrand::Rng {
    fastrand::Rng::with_seed(seed)
}

/// Relies on fastrand::Rng::fork: derives a fresh generator from the state of
/// an existing one.
#[verifier::external_body]
fn fastrand_fork(rng: &mut fastrand::Rng) -> fastrand::Rng {
    rng.fork()
}

/// Relies on fastrand::Rng::bool: returns an arbitrary boolean.
#[verifier::external_body]
fn fastrand_bool(rng: &mut fastrand::Rng) -> bool {
    rng.bool()
}

/// Relies on fastrand::Rng::u64: the result lies in the given inclusive
/// range, which must not be empty.
#[verifier::external_body]
fn fastrand_u64(rng: &mut fastrand::Rng, low: u64, high: u64) -> (r: u64)
    requires
        low <= high,
    ensures
        low <= r <= high,
{
    rng.u64(low..=high)
}

/// Relies on fastrand::Rng::usize: the result lies in the given inclusive
/// range, which must not be empty.
#[verifier::external_body]
fn fastrand_usize(rng: &mut fastrand::Rng, low: usize, high: usize) -> (r: usize)
    requires
        low <= high,
    ensures
        low <= r <= high,
{
    rng.usize(low..=high)
}

/// Relies on fastrand::Rng::i64: the result lies in the given inclusive
/// range, which must not be empty.
#[verifier::external_body]
fn fastrand_i64(rng: &mut fastrand::Rng, low: i64, high: i64) -> (r: i64)
    requires
        low <= high,
    ensures
        low <= r <= high,
{
    rng.i64(low..=high)
}

/// Pseudo-random generator handed to the sampling procedures.
pub struct Random {
    inner: fastrand::Rng,
}

impl Random {
    /// Build a deterministic generator from a seed.
    pub fn with_seed(seed: u64) -> Random {
        Random { inner: fastrand_with_seed(seed) }
    }

    /// Derive a fresh generator from this one.
    pub fn fork(&mut self) -> Random {
        Random { inner: fastrand_fork(&mut self.inner) }
    }

    /// Draw a uniform fixed-point fraction in `[0, 1)`: the result is a raw
    /// fixed-point value strictly below [`FP_ONE`].
    pub fn uniform_fraction(&mut self) -> (r: u64)
        ensures
            r < FP_ONE,
    {
        fastrand_u64(&mut self.inner, 0, (FP_ONE - 1) as u64)
    }

    /// Draw a uniform boolean with an even split.
    pub fn uniform_bool(&mut self) -> bool {
        fastrand_bool(&mut self.inner)
    }

    /// Draw a uniform integer in `[0, high]`.
    pub fn uniform_index(&mut self, high: usize) -> (r: usize)
        ensures
            r <= high,
    {
        fastrand_usize(&mut self.inner, 0, high)
    }

    /// Draw a uniform integer in the inclusive range `[low, high]`.
    pub fn uniform_range(&mut self, low: i64, high: i64) -> (r: i64)
        requires
            low <= high,
        ensures
            low <= r <= high,
    {
        fastrand_i64(&mut self.inner, low, high)
    }
}

/// Parameterless uniform distribution: one draw of a `T`.
pub trait Rand<T> {
    /// Draw one uniformly distributed value.
    fn uniform(&mut self) -> T;
}

impl Rand<bool> for Random {
    /// Generate a random boolean value with an even split.
    fn uniform(&mut self) -> bool {
        self.uniform_bool()
    }
}

impl Rand<u64> for Random {
    /// Generate a uniformly random fixed-point fraction in `[0, 1)`.
    fn uniform(&mut self) -> u64 {
        self.uniform_fraction()
    }
}

/// Uniform distribution over an inclusive range.
pub trait UniformRange<T> {
    /// Draw one value uniformly from `[low, high]`.
    fn uniform_in(&mut self, low: T, high: T) -> T;
}

impl UniformRange<i64> for Random {
    /// Draw uniformly from the range; an empty range yields its low bound.
    fn uniform_in(&mut self, low: i64, high: i64) -> i64 {
        if low <= high {
            self.uniform_range(low, high)
        } else {
            low
        }
    }
}

} // verus!
