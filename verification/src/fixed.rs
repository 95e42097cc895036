//! Fixed-point arithmetic helpers shared by the kernels.
//!
//! Values carry `round(x * FP_ONE)` in unsigned integers; all helpers here
//! are exact integer computations whose contracts pin the result as the
//! corresponding floor expression over mathematical integers.

use vstd::arithmetic::div_mod::{
    lemma_div_is_ordered,
    lemma_div_multiples_vanish,
    lemma_div_pos_is_pos,
    lemma_multiply_divide_le,
};
use vstd::arithmetic::power2::pow2;
use vstd::prelude::*;

use crate::constants::{FP_ONE, INV_E, LN_2, TAU};
use crate::kernel::BANDWIDTH_BOUND;

verus! {

/// The scaled offset `floor(bw * z / FP_ONE)` that a normalized fixed-point
/// offset `z` produces at bandwidth `bw`. `z` must stay below `k` (in fixed
/// point), and the offset then stays below `k` bandwidths.
pub(crate) fn offset_of(bw: i64, z: u64, k: u64) -> (r: i64)
    requires
        1 <= bw <= BANDWIDTH_BOUND,
        1 <= k <= 8,
        z <= k * FP_ONE,
    ensures
        r == bw * z / (FP_ONE as int),
        0 <= r <= k * bw,
{
    proof {
        assert((bw as int) * (z as int) <= ((k * FP_ONE) as int) * (bw as int) && 0 <= (bw as int)
            * (z as int) && (bw as int) * (z as int) < 0x1000_0000_0000_0000_0000_0000)
            by (nonlinear_arith)
            requires
                1 <= bw <= 0x100_0000_0000i64,
                0 <= z <= k * FP_ONE,
                1 <= k <= 8,
                FP_ONE == 4294967296u64,
        ;
        assert(((k * FP_ONE) as int) * (bw as int) == (FP_ONE as int) * ((k * bw) as int))
            by (nonlinear_arith)
            requires
                1 <= k <= 8,
                1 <= bw <= BANDWIDTH_BOUND,
                FP_ONE == 4294967296u64,
        ;
        lemma_multiply_divide_le((bw as int) * (z as int), FP_ONE as int, (k * bw) as int);
        lemma_div_pos_is_pos((bw as int) * (z as int), FP_ONE as int);
    }
    let wide = (bw as u128) * (z as u128);
    (wide / (FP_ONE as u128)) as i64
}

/// One term of the alternating exponential series, in fixed point:
/// `term(x, 0) = 1` and `term(x, n) = term(x, n - 1) * x / n`.
pub open spec fn exp_term(x: int, n: nat) -> int
    decreases n,
{
    if n == 0 {
        FP_ONE as int
    } else {
        exp_term(x, (n - 1) as nat) * x / (n * FP_ONE)
    }
}

/// The alternating partial sum `1 - x + x^2/2! - ...` of the first `n + 1`
/// terms of the exponential series, with each term rounded as [`exp_term`].
pub open spec fn exp_taylor_partial(x: int, n: nat) -> int
    decreases n,
{
    if n == 0 {
        FP_ONE as int
    } else if n % 2 == 0 {
        exp_taylor_partial(x, (n - 1) as nat) + exp_term(x, n)
    } else {
        exp_taylor_partial(x, (n - 1) as nat) - exp_term(x, n)
    }
}

/// `exp(-x)` for a fractional `x`, as the series cut after thirteen terms.
pub open spec fn exp_taylor(x: int) -> int {
    exp_taylor_partial(x, 13)
}

/// Repeated damping by `1 / e`: `shift(e, q) = e / exp(q)` in fixed point.
pub open spec fn exp_shift(e: int, q: nat) -> int
    decreases q,
{
    if q == 0 {
        e
    } else {
        exp_shift(e * INV_E / (FP_ONE as int), (q - 1) as nat)
    }
}

/// `exp(-t)` in fixed point: the fractional part goes through the series,
/// and each whole unit damps the result by `1 / e`.
pub open spec fn exp_neg_spec(t: int) -> int {
    exp_shift(exp_taylor(t % (FP_ONE as int)), (t / (FP_ONE as int)) as nat)
}

/// The exponential series for a fractional input.
fn exp_taylor_exec(x: u64) -> (r: u64)
    requires
        x < FP_ONE,
    ensures
        r == exp_taylor(x as int),
        r <= FP_ONE,
{
    let mut term: u64 = FP_ONE;
    let mut acc: u64 = FP_ONE;
    let mut n: u64 = 1;
    while n <= 13
        invariant
            1 <= n <= 14,
            x < FP_ONE,
            term == exp_term(x as int, (n - 1) as nat),
            acc == exp_taylor_partial(x as int, (n - 1) as nat),
            acc <= FP_ONE,
            term <= FP_ONE,
            n % 2 == 1 ==> acc >= term,
            n % 2 == 0 ==> acc + term <= FP_ONE,
        decreases 14 - n,
    {
        proof {
            assert((term as int) * (x as int) <= ((n * FP_ONE) as int) * (term as int) && 0 <= (
            term as int) * (x as int) && (term as int) * (x as int)
                < 0x1_0000_0000_0000_0000_0000) by (nonlinear_arith)
                requires
                    0 <= x < FP_ONE,
                    0 <= term <= FP_ONE,
                    1 <= n <= 13,
                    FP_ONE == 4294967296u64,
            ;
            lemma_multiply_divide_le(
                (term as int) * (x as int),
                ((n * FP_ONE)) as int,
                term as int,
            );
            lemma_div_pos_is_pos((term as int) * (x as int), (n * FP_ONE) as int);
        }
        let wide = (term as u128) * (x as u128);
        let t = (wide / ((n as u128) * (FP_ONE as u128))) as u64;
        if n % 2 == 1 {
            acc = acc - t;
        } else {
            acc = acc + t;
        }
        term = t;
        n = n + 1;
    }
    acc
}

/// `exp(-t)` for a non-negative fixed-point `t` of at most 23: the result
/// is never above one, and is exactly [`exp_neg_spec`].
pub fn exp_neg(t: u64) -> (r: u64)
    requires
        t <= 23 * FP_ONE,
    ensures
        r == exp_neg_spec(t as int),
        r <= FP_ONE,
{
    let q = t / FP_ONE;
    let x = t % FP_ONE;
    let mut acc = exp_taylor_exec(x);
    let mut k: u64 = 0;
    while k < q
        invariant
            k <= q,
            q <= 23,
            acc <= FP_ONE,
            exp_shift(acc as int, (q - k) as nat) == exp_neg_spec(t as int),
        decreases q - k,
    {
        proof {
            assert((acc as int) * (INV_E as int) <= (FP_ONE as int) * (acc as int) && 0 <= (
            acc as int) * (INV_E as int) && (acc as int) * (INV_E as int)
                < 0x1_0000_0000_0000_0000_0000) by (nonlinear_arith)
                requires
                    0 <= acc <= FP_ONE,
                    INV_E == 1580030168u64,
                    FP_ONE == 4294967296u64,
            ;
            lemma_multiply_divide_le((acc as int) * (INV_E as int), FP_ONE as int, acc as int);
            lemma_div_pos_is_pos((acc as int) * (INV_E as int), FP_ONE as int);
        }
        let wide = (acc as u128) * (INV_E as u128);
        let a2 = (wide / (FP_ONE as u128)) as u64;
        proof {
            assert(exp_shift(acc as int, (q - k) as nat) == exp_shift(
                (acc as int) * (INV_E as int) / (FP_ONE as int),
                (q - k - 1) as nat,
            ));
        }
        acc = a2;
        k = k + 1;
    }
    acc
}

/// Integer square root of a 128-bit value below 2^100: the unique `r` with
/// `r^2 <= x < (r + 1)^2`.
pub fn isqrt(x: u128) -> (r: u128)
    requires
        x < 0x10_0000_0000_0000_0000_0000_0000,
    ensures
        r * r <= x,
        (r + 1) * (r + 1) > x,
{
    let mut lo: u128 = 0;
    let mut hi: u128 = 0x4_0000_0000_0000;
    proof {
        assert(hi * hi > x) by (nonlinear_arith)
            requires
                hi == 0x4_0000_0000_0000u128,
                x < 0x10_0000_0000_0000_0000_0000_0000,
        ;
    }
    while lo + 1 < hi
        invariant
            lo < hi <= 0x4_0000_0000_0000,
            lo * lo <= x,
            hi * hi > x,
        decreases hi - lo,
    {
        let mid = lo + (hi - lo) / 2;
        proof {
            assert(mid * mid < 0x10_0000_0000_0000_0000_0000_0000_0000) by (nonlinear_arith)
                requires
                    0 <= mid <= 0x4_0000_0000_0000u128,
            ;
        }
        if mid * mid <= x {
            lo = mid;
        } else {
            hi = mid;
        }
    }
    lo
}

/// `-ln(a / FP_ONE)` for a fraction in `(0, 1)`, in fixed point. Only the
/// bound is promised: the result serves random sampling, where nothing can
/// be stated of the value drawn.
pub(crate) fn neg_ln(a: u64) -> (r: u64)
    requires
        1 <= a < FP_ONE,
    ensures
        r <= 23 * FP_ONE,
{
    // Normalize the fraction into [1/2, 1): each doubling contributes ln 2.
    let mut m = a;
    let mut k: u64 = 0;
    proof {
        vstd::arithmetic::power2::lemma2_to64();
    }
    while m < 2147483648
        invariant
            1 <= m < FP_ONE,
            k <= 32,
            pow2(k as nat) <= m,
        decreases FP_ONE - m,
    {
        proof {
            vstd::arithmetic::power2::lemma2_to64();
            if k >= 32 {
                assert(false);
            }
            vstd::arithmetic::power2::lemma_pow2_unfold((k + 1) as nat);
        }
        m = m * 2;
        k = k + 1;
    }
    proof {
        vstd::arithmetic::power2::lemma2_to64();
        if k > 31 {
            assert(false);
        }
    }

    // -ln(1 - w) = w + w^2/2 + w^3/3 + ... for w = 1 - m, with w <= 1/2.
    let w = FP_ONE - m;
    let mut p = w;
    let mut acc: u64 = 0;
    let mut n: u64 = 1;
    while n <= 32
        invariant
            1 <= n <= 33,
            w <= 2147483648,
            p <= w,
            acc + 2 * p <= 2 * w,
        decreases 33 - n,
    {
        proof {
            // Each following term is at most half the current one, because
            // the fraction is at most one half.
            assert(p * w <= p * 2147483648 && 0 <= p * w && p * w <= 0x4000_0000_0000_0000)
                by (nonlinear_arith)
                requires
                    0 <= p <= 2147483648u64,
                    0 <= w <= 2147483648u64,
            ;
            lemma_div_pos_is_pos((p as int) * (w as int), FP_ONE as int);
            lemma_div_is_ordered(
                (p as int) * (w as int),
                (p as int) * 2147483648,
                FP_ONE as int,
            );
            lemma_div_multiples_vanish(p as int, 2147483648);
            vstd::arithmetic::div_mod::lemma_div_denominator(
                (p as int) * 2147483648,
                2147483648,
                2,
            );
            assert((p as int) * 2147483648 == 2147483648 * (p as int));
            assert((p as int) * 2147483648 / (FP_ONE as int) == (p as int) / 2);
            vstd::arithmetic::div_mod::lemma_div_nonincreasing(p as int, n as int);
            lemma_div_pos_is_pos(p as int, n as int);
        }
        let step = p / n;
        acc = acc + step;
        p = ((p * w) / FP_ONE) as u64;
        n = n + 1;
    }
    k * LN_2 + acc
}

/// `cos(tau * b / FP_ONE)` for a fraction of a turn, as a sign and a
/// fixed-point magnitude of at most one. Only the bound is promised: the
/// result serves random sampling.
pub(crate) fn cos_tau(b: u64) -> (r: (bool, u64))
    requires
        b < FP_ONE,
    ensures
        r.1 <= FP_ONE,
{
    let q = b / 1073741824;
    let rem = b % 1073741824;
    if q == 0 {
        (false, cos_quarter(rem))
    } else if q == 1 {
        (true, cos_quarter(1073741824 - rem))
    } else if q == 2 {
        (true, cos_quarter(rem))
    } else {
        (false, cos_quarter(1073741824 - rem))
    }
}

/// `cos` of an angle in `[0, tau/4]`, given as a fraction of a turn in
/// `[0, 1/4]`, clamped into `[0, 1]` in fixed point.
fn cos_quarter(u: u64) -> (r: u64)
    requires
        u <= 1073741824,
    ensures
        r <= FP_ONE,
{
    proof {
        assert((u as int) * (TAU as int) <= (FP_ONE as int) * 6746518853 && 0 <= (u as int) * (
        TAU as int)) by (nonlinear_arith)
            requires
                0 <= u <= 1073741824,
                TAU == 26986075409u64,
                FP_ONE == 4294967296u64,
        ;
        lemma_multiply_divide_le((u as int) * (TAU as int), FP_ONE as int, 6746518853);
        lemma_div_pos_is_pos((u as int) * (TAU as int), FP_ONE as int);
    }
    let x = (((u as u128) * (TAU as u128)) / (FP_ONE as u128)) as u64;
    proof {
        assert((x as int) * (x as int) <= (FP_ONE as int) * 10598342310 && 0 <= (x as int) * (
        x as int)) by (nonlinear_arith)
            requires
                0 <= x <= 6746518853u64,
                FP_ONE == 4294967296u64,
        ;
        lemma_multiply_divide_le((x as int) * (x as int), FP_ONE as int, 10598342310);
        lemma_div_pos_is_pos((x as int) * (x as int), FP_ONE as int);
    }
    // The squared angle, in fixed point; every series term then shrinks by
    // x^2 over the next two factorial factors.
    let x2 = (((x as u128) * (x as u128)) / (FP_ONE as u128)) as u64;
    let c1 = half_term(FP_ONE, x2, 2);
    let c2 = half_term(c1, x2, 12);
    let c3 = half_term(c2, x2, 30);
    let c4 = half_term(c3, x2, 56);
    let c5 = half_term(c4, x2, 90);
    let c6 = half_term(c5, x2, 132);
    let acc: i128 = (FP_ONE as i128) - (c1 as i128) + (c2 as i128) - (c3 as i128) + (
    c4 as i128) - (c5 as i128) + (c6 as i128);
    if acc <= 0 {
        0
    } else if acc >= FP_ONE as i128 {
        FP_ONE
    } else {
        acc as u64
    }
}

/// One step of the cosine series: `prev * x2 / FP_ONE / den`. The squared
/// angle stays below three, so each step grows the scale by at most three
/// before its factorial factor divides it away.
fn half_term(prev: u64, x2: u64, den: u64) -> (r: u64)
    requires
        x2 <= 10598342310,
        1 <= den,
        prev <= 0x2000_0000_0000,
    ensures
        r <= 3 * prev,
{
    proof {
        assert((prev as int) * (x2 as int) <= (FP_ONE as int) * (3 * prev) && 0 <= (prev as int)
            * (x2 as int)) by (nonlinear_arith)
            requires
                0 <= prev <= 0x2000_0000_0000u64,
                0 <= x2 <= 10598342310u64,
                FP_ONE == 4294967296u64,
        ;
        lemma_multiply_divide_le((prev as int) * (x2 as int), FP_ONE as int, 3 * (prev as int));
        lemma_div_pos_is_pos((prev as int) * (x2 as int), FP_ONE as int);
    }
    let a = ((prev as u128) * (x2 as u128)) / (FP_ONE as u128);
    proof {
        vstd::arithmetic::div_mod::lemma_div_nonincreasing(a as int, den as int);
        lemma_div_pos_is_pos(a as int, den as int);
    }
    (a / (den as u128)) as u64
}

} // verus!
