//! Hyperparameter optimizer: feeds trials into a good/bad partition and
//! proposes the next parameter by sampling candidates and scoring them with
//! the ratio of the good density to the bad density.

use vstd::arithmetic::div_mod::{
    lemma_div_is_ordered,
    lemma_div_pos_is_pos,
    lemma_fundamental_div_mod,
    lemma_multiply_divide_le,
    lemma_multiply_divide_lt,
};
use vstd::arithmetic::mul::{
    lemma_mul_inequality,
    lemma_mul_nonnegative,
};
use vstd::prelude::*;

use crate::constants::FP_ONE;
use crate::iter::{triples_len, window_at, Triple, Triples};
use crate::kde::component::triple_wf;
use crate::kde::{kde_density_at, kde_density_wf, kde_sample_wf, KernelDensityEstimator};
use crate::kernel::{Density, Kernel, Sample};
use crate::rand::Random;
use crate::trial::{has_param, sorted_params, trial_le, trial_lt, Trial, Trials};
use crate::PARAM_BOUND;

verus! {

/// Default ratio of good trials: one tenth, in fixed point.
pub const DEFAULT_CUTOFF: u64 = 429496730;

/// Default number of candidates scored per proposal.
pub const DEFAULT_N_CANDIDATES: usize = 25;

/// Largest accepted bandwidth multiplier.
pub const MULTIPLIER_BOUND: i64 = 512;

/// How many trials belong in the good ledger: the cutoff share of the
/// total, rounded half-up.
pub open spec fn round_good(cutoff: int, total: int) -> int {
    (cutoff * total + (FP_ONE as int) / 2) / (FP_ONE as int)
}

/// Every good trial sorts at or below every bad trial.
pub open spec fn separated(good: Seq<Trial>, bad: Seq<Trial>) -> bool {
    forall|i: int, j: int|
        0 <= i < good.len() && 0 <= j < bad.len() ==> trial_le(
            #[trigger] good[i],
            #[trigger] bad[j],
        )
}

/// No parameter appears in both ledgers.
pub open spec fn params_disjoint(good: Seq<Trial>, bad: Seq<Trial>) -> bool {
    forall|i: int, j: int|
        0 <= i < good.len() && 0 <= j < bad.len() ==> (#[trigger] good[i]).parameter != (
        #[trigger] bad[j]).parameter
}

/// Every parameter lies within the global parameter bound.
pub open spec fn params_bounded(s: Seq<Trial>) -> bool {
    forall|i: int|
        0 <= i < s.len() ==> -PARAM_BOUND <= (#[trigger] s[i]).parameter <= PARAM_BOUND
}

/// Growing the trial count by one moves the expected good count up by at
/// most one, and it always stays between zero and the total.
proof fn lemma_round_good_step(cutoff: int, total: int)
    requires
        0 < cutoff < FP_ONE,
        0 <= total,
    ensures
        round_good(cutoff, total) <= round_good(cutoff, total + 1),
        round_good(cutoff, total + 1) <= round_good(cutoff, total) + 1,
        0 <= round_good(cutoff, total),
        round_good(cutoff, total) <= total,
{
    let f = FP_ONE as int;
    let h = f / 2;
    let a = cutoff * total + h;
    assert(cutoff * (total + 1) == cutoff * total + cutoff) by (nonlinear_arith);
    lemma_mul_nonnegative(cutoff, total);
    lemma_div_pos_is_pos(a, f);
    lemma_div_is_ordered(a, cutoff * (total + 1) + h, f);

    // One more trial raises the numerator by less than the denominator.
    lemma_fundamental_div_mod(a, f);
    let q = a / f;
    assert(a + cutoff < f * (q + 2)) by (nonlinear_arith)
        requires
            a == f * q + a % f,
            0 <= a % f < f,
            cutoff < f,
    ;
    lemma_multiply_divide_lt(a + cutoff, f, q + 2);

    // The expected count never exceeds the total.
    lemma_mul_inequality(cutoff, f - 1, total);
    assert((f - 1) * total + h < f * (total + 1)) by (nonlinear_arith)
        requires
            0 <= total,
            h < f,
            0 < f,
    ;
    lemma_multiply_divide_lt(a, f, total + 1);
}

/// The expected good count of an empty history is zero.
proof fn lemma_round_good_zero(cutoff: int)
    requires
        0 < cutoff < FP_ONE,
    ensures
        round_good(cutoff, 0) == 0,
{
    assert(cutoff * 0 == 0) by (nonlinear_arith);
    vstd::arithmetic::div_mod::lemma_basic_div((FP_ONE as int) / 2, FP_ONE as int);
}


/// The centre of the kernel a window produces.
pub open spec fn kernel_location(t: Triple<i64>) -> int {
    match t {
        Triple::Full(_, x, _) => x as int,
        Triple::LeftMiddle(_, x) => x as int,
        Triple::MiddleRight(x, _) => x as int,
        Triple::Right(x) => x as int,
        Triple::Left(x) => x as int,
        Triple::Middle(x) => x as int,
    }
}

/// The bandwidth of the kernel a window produces: the distance to the
/// farthest neighbour, with a range bound standing in for each missing
/// neighbour, scaled by the multiplier.
pub open spec fn kernel_bandwidth(t: Triple<i64>, min: int, max: int, mult: int) -> int {
    let base: int = match t {
        Triple::Full(l, x, r) => if r - x >= x - l {
            r - x
        } else {
            x - l
        },
        Triple::LeftMiddle(l, x) => if x - l >= max - x {
            x - l
        } else {
            max - x
        },
        Triple::MiddleRight(x, r) => if r - x >= x - min {
            r - x
        } else {
            x - min
        },
        Triple::Right(x) => if max - x >= x - min {
            max - x
        } else {
            x - min
        },
        Triple::Left(x) => if max - x >= x - min {
            max - x
        } else {
            x - min
        },
        Triple::Middle(x) => if max - x >= x - min {
            max - x
        } else {
            x - min
        },
    };
    mult * base
}

/// The mixture components that an ascending parameter sequence produces:
/// one kernel per window of the adjacency run.
pub open spec fn kde_components<K: Kernel>(
    params: Seq<i64>,
    min: int,
    max: int,
    mult: int,
) -> Seq<K> {
    Seq::new(
        triples_len(params),
        |i: int|
            K::kernel_spec(
                kernel_location(window_at(params, i)),
                kernel_bandwidth(window_at(params, i), min, max, mult),
            ),
    )
}

/// A window over a strictly ascending, bounded sequence is itself strictly
/// ascending and bounded.
proof fn lemma_window_wf(s: Seq<i64>, i: int)
    requires
        sorted_params(s),
        forall|j: int| 0 <= j < s.len() ==> -PARAM_BOUND <= #[trigger] s[j] <= PARAM_BOUND,
        0 <= i < triples_len(s),
    ensures
        triple_wf(window_at(s, i)),
{
    let n = s.len() as int;
    if i == 0 {
    } else if n == 1 {
    } else if i == 1 {
        assert(s[0] < s[1]);
    } else if i < n {
        assert(s[i - 2] < s[i - 1]);
        assert(s[i - 1] < s[i]);
    } else if i == n {
        assert(s[n - 2] < s[n - 1]);
    }
}

/// Construct the kernel for a window of adjacent trials: the bandwidth is
/// the distance to the farthest neighbour, with the range bound standing in
/// for a missing neighbour, scaled by the multiplier.
fn construct_kernel<K: Kernel>(triple: Triple<i64>, min: i64, max: i64, mult: i64) -> (r: K)
    requires
        triple_wf(triple),
        -PARAM_BOUND <= min < max <= PARAM_BOUND,
        1 <= mult <= MULTIPLIER_BOUND,
    ensures
        r == K::kernel_spec(
            kernel_location(triple),
            kernel_bandwidth(triple, min as int, max as int, mult as int),
        ),
        r.density_wf(),
        r.sample_wf(),
{
    let (location, base): (i64, i64) = match triple {
        Triple::Full(l, x, r2) => (
            x,
            if r2 - x >= x - l {
                r2 - x
            } else {
                x - l
            },
        ),
        Triple::LeftMiddle(l, x) => (
            x,
            if x - l >= max - x {
                x - l
            } else {
                max - x
            },
        ),
        Triple::MiddleRight(x, r2) => (
            x,
            if r2 - x >= x - min {
                r2 - x
            } else {
                x - min
            },
        ),
        Triple::Right(x) => (
            x,
            if max - x >= x - min {
                max - x
            } else {
                x - min
            },
        ),
        Triple::Left(x) => (
            x,
            if max - x >= x - min {
                max - x
            } else {
                x - min
            },
        ),
        Triple::Middle(x) => (
            x,
            if max - x >= x - min {
                max - x
            } else {
                x - min
            },
        ),
    };
    proof {
        assert(1 <= base <= 0x8000_0000);
        assert(1 <= (mult as int) * (base as int) <= 0x100_0000_0000) by (nonlinear_arith)
            requires
                1 <= mult <= 512,
                1 <= base <= 0x8000_0000,
        ;
    }
    let bandwidth = mult * base;
    K::new(location, bandwidth)
}

/// Construct a kernel density estimator over an ascending parameter
/// sequence: one component per adjacency window.
fn construct_kde<K: Kernel>(params: Vec<i64>, min: i64, max: i64, mult: i64) -> (r:
    KernelDensityEstimator<K>)
    requires
        sorted_params(params@),
        forall|j: int|
            0 <= j < params@.len() ==> -PARAM_BOUND <= #[trigger] params@[j] <= PARAM_BOUND,
        params@.len() < 0x3FFF_FFFF,
        -PARAM_BOUND <= min < max <= PARAM_BOUND,
        1 <= mult <= MULTIPLIER_BOUND,
    ensures
        r.0@ == kde_components::<K>(params@, min as int, max as int, mult as int),
        r.0@.len() == triples_len(params@),
        kde_density_wf(r.0@),
        kde_sample_wf(r.0@),
{
    let ghost pseq = params@;
    let ghost comps = kde_components::<K>(params@, min as int, max as int, mult as int);
    let mut windows = Triples::new(params);
    let mut out: Vec<K> = Vec::new();
    loop
        invariant
            windows.items@ == pseq,
            windows.pos == out.len(),
            windows.pos <= triples_len(pseq),
            pseq.len() < 0x3FFF_FFFF,
            sorted_params(pseq),
            forall|j: int| 0 <= j < pseq.len() ==> -PARAM_BOUND <= #[trigger] pseq[j] <= PARAM_BOUND,
            -PARAM_BOUND <= min < max <= PARAM_BOUND,
            1 <= mult <= MULTIPLIER_BOUND,
            comps == kde_components::<K>(pseq, min as int, max as int, mult as int),
            out@ == comps.take(windows.pos as int),
            kde_density_wf(out@),
            kde_sample_wf(out@),
        ensures
            out@ == comps,
            kde_density_wf(out@),
            kde_sample_wf(out@),
        decreases triples_len(pseq) - windows.pos,
    {
        let ghost pos0 = windows.pos as int;
        match windows.next() {
            Some(w) => {
                proof {
                    lemma_window_wf(pseq, pos0);
                }
                let k = construct_kernel::<K>(w, min, max, mult);
                out.push(k);
                proof {
                    assert(comps.take(pos0 + 1) == comps.take(pos0).push(comps[pos0]));
                    assert(out@ == comps.take(pos0 + 1));
                    assert forall|j: int| 0 <= j < out@.len() implies (
                    #[trigger] out@[j]).density_wf() by {
                        if j == pos0 {
                            assert(out@[j] == k);
                        }
                    }
                    assert forall|j: int| 0 <= j < out@.len() implies (
                    #[trigger] out@[j]).sample_wf() by {
                        if j == pos0 {
                            assert(out@[j] == k);
                        }
                    }
                }
            },
            None => {
                proof {
                    assert(comps.take(pos0) == comps);
                }
                break ;
            },
        }
    }
    KernelDensityEstimator(out)
}

impl Trials {
    /// Construct a kernel density estimator from the trials, over the
    /// given range bounds, with a unit bandwidth multiplier.
    pub fn to_kde<K: Kernel>(&self, min: i64, max: i64) -> (r: KernelDensityEstimator<K>)
        requires
            self.wf(),
            forall|j: int|
                0 <= j < self.params().len() ==> -PARAM_BOUND <= #[trigger] self.params()[j]
                    <= PARAM_BOUND,
            self@.len() < 0x3FFF_FFFF,
            -PARAM_BOUND <= min < max <= PARAM_BOUND,
        ensures
            r.0@ == kde_components::<K>(self.params(), min as int, max as int, 1),
            r.0@.len() == triples_len(self.params()),
            kde_density_wf(r.0@),
            kde_sample_wf(r.0@),
    {
        let params = self.iter_parameters();
        construct_kde::<K>(params, min, max, 1)
    }
}

/// The two ledgers together hold exactly the original trials plus the new
/// one.
pub open spec fn joint_members(
    good: Seq<Trial>,
    bad: Seq<Trial>,
    g0: Seq<Trial>,
    b0: Seq<Trial>,
    t: Trial,
) -> bool {
    forall|x: Trial|
        #![trigger good.contains(x)]
        #![trigger bad.contains(x)]
        #![trigger g0.contains(x)]
        #![trigger b0.contains(x)]
        (good.contains(x) || bad.contains(x)) <==> (g0.contains(x) || b0.contains(x) || x == t)
}

/// A value clamped into the inclusive range `[min, max]`.
pub open spec fn clamp_spec(x: i64, min: i64, max: i64) -> i64 {
    if x < min {
        min
    } else if x > max {
        max
    } else {
        x
    }
}

/// If a challenger strictly outscores the incumbent under the cross
/// comparison of score fractions, every candidate that failed to outscore
/// the incumbent also fails to outscore the challenger.
proof fn lemma_score_transfer(lj: int, gj: int, lo: int, go: int, ln2: int, gn: int)
    requires
        0 <= lj,
        0 <= gj,
        0 <= lo,
        0 <= go,
        0 <= ln2,
        0 <= gn,
        lj * go <= lo * gj,
        ln2 * go > lo * gn,
    ensures
        lj * gn <= ln2 * gj,
{
    if go == 0 {
        lemma_mul_nonnegative(lo, gn);
        assert(ln2 * go == 0) by (nonlinear_arith)
            requires
                go == 0,
        ;
    } else if gj == 0 {
        assert(lo * gj == 0) by (nonlinear_arith)
            requires
                gj == 0,
        ;
        lemma_mul_nonnegative(lj, go);
        assert(lj == 0) by (nonlinear_arith)
            requires
                lj * go == 0,
                go > 0,
                0 <= lj,
        ;
        assert(lj * gn == 0 && ln2 * gj == 0) by (nonlinear_arith)
            requires
                lj == 0,
                gj == 0,
        ;
    } else {
        lemma_mul_inequality(lj * go, lo * gj, gn);
        vstd::arithmetic::mul::lemma_mul_strict_inequality(lo * gn, ln2 * go, gj);
        assert((lo * gj) * gn == (lo * gn) * gj) by (nonlinear_arith);
        assert((lj * go) * gn == (lj * gn) * go) by (nonlinear_arith);
        assert((ln2 * go) * gj == (ln2 * gj) * go) by (nonlinear_arith);
        vstd::arithmetic::mul::lemma_mul_strict_inequality_converse(lj * gn, ln2 * gj, go);
    }
}

/// Hyperparameter optimizer over an inclusive integer parameter range.
///
/// The generic parameter is the kernel type of the initial (prior)
/// estimator component.
pub struct Optimizer<KI> {
    cutoff: u64,
    n_candidates: usize,
    bandwidth: i64,
    min: i64,
    max: i64,
    init_kernel: KI,
    rng: Random,
    good_trials: Trials,
    bad_trials: Trials,
}

impl<KI: Density + Sample> Optimizer<KI> {
    /// The good ledger, as its metric-sorted trial sequence.
    pub closed spec fn good(&self) -> Seq<Trial> {
        self.good_trials@
    }

    /// The bad ledger, as its metric-sorted trial sequence.
    pub closed spec fn bad(&self) -> Seq<Trial> {
        self.bad_trials@
    }

    /// The configured cutoff, in fixed point.
    pub closed spec fn cutoff_spec(&self) -> int {
        self.cutoff as int
    }

    /// The configured candidate count.
    pub closed spec fn n_candidates_spec(&self) -> int {
        self.n_candidates as int
    }

    /// The configured bandwidth multiplier.
    pub closed spec fn bandwidth_spec(&self) -> int {
        self.bandwidth as int
    }

    /// The lower bound of the search range.
    pub closed spec fn min_spec(&self) -> int {
        self.min as int
    }

    /// The upper bound of the search range.
    pub closed spec fn max_spec(&self) -> int {
        self.max as int
    }

    /// The optimizer invariant: both ledgers are well-formed, the
    /// configuration is in range, every good trial sorts at or below every
    /// bad trial, no parameter is tried twice, and the good ledger holds
    /// exactly the cutoff share of the history.
    pub closed spec fn wf(&self) -> bool {
        &&& self.good_trials.wf()
        &&& self.bad_trials.wf()
        &&& 0 < self.cutoff < FP_ONE
        &&& 1 <= self.n_candidates
        &&& 1 <= self.bandwidth <= MULTIPLIER_BOUND
        &&& -PARAM_BOUND <= self.min < self.max <= PARAM_BOUND
        &&& self.init_kernel.density_wf()
        &&& self.init_kernel.sample_wf()
        &&& self.good().len() + self.bad().len() < 0x3FFF_FFFF
        &&& params_bounded(self.good())
        &&& params_bounded(self.bad())
        &&& separated(self.good(), self.bad())
        &&& params_disjoint(self.good(), self.bad())
        &&& self.good().len() == round_good(
            self.cutoff as int,
            self.good().len() + self.bad().len() as int,
        )
    }

    /// Construct the new optimizer over the parameter range `[min, max]`,
    /// with a prior belief kernel for candidate generation before any
    /// feedback arrives.
    pub fn new(min: i64, max: i64, init_kernel: KI, rng: Random) -> (r: Optimizer<KI>)
        requires
            -PARAM_BOUND <= min < max <= PARAM_BOUND,
            init_kernel.density_wf(),
            init_kernel.sample_wf(),
        ensures
            r.wf(),
            r.good().len() == 0,
            r.bad().len() == 0,
            r.cutoff_spec() == DEFAULT_CUTOFF,
            r.n_candidates_spec() == DEFAULT_N_CANDIDATES,
            r.bandwidth_spec() == 1,
            r.min_spec() == min,
            r.max_spec() == max,
            r.prior() == init_kernel,
            forall|x: int| #[trigger] r.init_density(x) == init_kernel.density_at(x),
    {
        proof {
            lemma_round_good_zero(DEFAULT_CUTOFF as int);
        }
        Optimizer {
            cutoff: DEFAULT_CUTOFF,
            n_candidates: DEFAULT_N_CANDIDATES,
            bandwidth: 1,
            min,
            max,
            init_kernel,
            rng,
            good_trials: Trials::new(),
            bad_trials: Trials::new(),
        }
    }

    /// Set the ratio of good trials, in fixed point, strictly between zero
    /// and one. The ratio is fixed before the first feedback arrives.
    pub fn cutoff(self, cutoff: u64) -> (r: Optimizer<KI>)
        requires
            self.wf(),
            0 < cutoff < FP_ONE,
            self.good().len() == 0,
            self.bad().len() == 0,
        ensures
            r.wf(),
            r.cutoff_spec() == cutoff,
            r.prior() == self.prior(),
            forall|x: int| #[trigger] r.init_density(x) == self.init_density(x),
            r.good() == self.good(),
            r.bad() == self.bad(),
            r.n_candidates_spec() == self.n_candidates_spec(),
            r.bandwidth_spec() == self.bandwidth_spec(),
            r.min_spec() == self.min_spec(),
            r.max_spec() == self.max_spec(),
    {
        proof {
            lemma_round_good_zero(cutoff as int);
        }
        Optimizer { cutoff, ..self }
    }

    /// Set the number of candidates to score for each proposal.
    pub fn n_candidates(self, n_candidates: usize) -> (r: Optimizer<KI>)
        requires
            self.wf(),
            1 <= n_candidates,
        ensures
            r.wf(),
            r.n_candidates_spec() == n_candidates,
            r.prior() == self.prior(),
            forall|x: int| #[trigger] r.init_density(x) == self.init_density(x),
            r.good() == self.good(),
            r.bad() == self.bad(),
            r.cutoff_spec() == self.cutoff_spec(),
            r.bandwidth_spec() == self.bandwidth_spec(),
            r.min_spec() == self.min_spec(),
            r.max_spec() == self.max_spec(),
    {
        Optimizer { n_candidates, ..self }
    }

    /// Set the bandwidth multiplier for the estimator kernels: the spread
    /// of each component kernel is the distance to its farthest neighbour,
    /// multiplied by this coefficient.
    pub fn bandwidth(self, bandwidth: i64) -> (r: Optimizer<KI>)
        requires
            self.wf(),
            1 <= bandwidth <= MULTIPLIER_BOUND,
        ensures
            r.wf(),
            r.bandwidth_spec() == bandwidth,
            r.prior() == self.prior(),
            forall|x: int| #[trigger] r.init_density(x) == self.init_density(x),
            r.good() == self.good(),
            r.bad() == self.bad(),
            r.cutoff_spec() == self.cutoff_spec(),
            r.n_candidates_spec() == self.n_candidates_spec(),
            r.min_spec() == self.min_spec(),
            r.max_spec() == self.max_spec(),
    {
        Optimizer { bandwidth, ..self }
    }

    /// How many trials the good ledger holds.
    pub fn n_good_trials(&self) -> (r: usize)
        ensures
            r == self.good().len(),
    {
        self.good_trials.len()
    }

    /// How many trials the bad ledger holds.
    pub fn n_bad_trials(&self) -> (r: usize)
        ensures
            r == self.bad().len(),
    {
        self.bad_trials.len()
    }

    /// Get the best trial: the lowest-metric trial of the good ledger, or
    /// of the bad ledger when the good one is empty.
    pub fn best_trial(&self) -> (r: Option<Trial>)
        requires
            self.wf(),
        ensures
            self.good().len() == 0 && self.bad().len() == 0 <==> r is None,
            self.good().len() > 0 ==> (r matches Some(t) && t == self.good()[0] && forall|
                x: Trial,
            | self.good().contains(x) ==> trial_le(t, x)),
            self.good().len() == 0 && self.bad().len() > 0 ==> (r matches Some(t) && t
                == self.bad()[0] && forall|x: Trial| self.bad().contains(x) ==> trial_le(t, x)),
    {
        match self.good_trials.best() {
            Some(t) => Some(*t),
            None => match self.bad_trials.best() {
                Some(t) => Some(*t),
                None => None,
            },
        }
    }

    /// Provide the information about a finished trial: record the
    /// parameter and its metric, and rebalance the two ledgers so that the
    /// good one keeps exactly the cutoff share of the history. A parameter
    /// that was already recorded leaves the optimizer unchanged.
    pub fn feed_back(&mut self, parameter: i64, metric: i64)
        requires
            old(self).wf(),
            -PARAM_BOUND <= parameter <= PARAM_BOUND,
            old(self).good().len() + old(self).bad().len() + 1 < 0x3FFF_FFFF,
        ensures
            final(self).wf(),
            final(self).cutoff_spec() == old(self).cutoff_spec(),
            final(self).n_candidates_spec() == old(self).n_candidates_spec(),
            final(self).bandwidth_spec() == old(self).bandwidth_spec(),
            final(self).min_spec() == old(self).min_spec(),
            final(self).max_spec() == old(self).max_spec(),
            final(self).prior() == old(self).prior(),
            forall|x: int|
                #[trigger] final(self).init_density(x) == old(self).init_density(x),
            (has_param(old(self).good(), parameter) || has_param(old(self).bad(), parameter))
                ==> final(self).good() == old(self).good() && final(self).bad() == old(
                self,
            ).bad(),
            !(has_param(old(self).good(), parameter) || has_param(old(self).bad(), parameter))
                ==> final(self).good().len() + final(self).bad().len() == old(self).good().len()
                + old(self).bad().len() + 1 && joint_members(
                final(self).good(),
                final(self).bad(),
                old(self).good(),
                old(self).bad(),
                Trial { metric, parameter },
            ),
            !(has_param(old(self).good(), parameter) || has_param(old(self).bad(), parameter))
                ==> has_param(final(self).good(), parameter) || has_param(
                final(self).bad(),
                parameter,
            ),
    {
        let trial = Trial { metric, parameter };
        if self.good_trials.contains(parameter) || self.bad_trials.contains(parameter) {
            return ;
        }
        let ghost g0 = self.good_trials@;
        let ghost b0 = self.bad_trials@;
        let ghost total1 = g0.len() + b0.len() + 1;

        let n_total = self.good_trials.len() + self.bad_trials.len() + 1;
        proof {
            lemma_round_good_step(self.cutoff as int, (n_total - 1) as int);
            assert((self.cutoff as int) * (n_total as int) + (FP_ONE as int) / 2 < (
            FP_ONE as int) * (n_total + 1)) by (nonlinear_arith)
                requires
                    0 < self.cutoff < FP_ONE,
                    1 <= n_total,
            ;
            lemma_multiply_divide_lt(
                (self.cutoff as int) * (n_total as int) + (FP_ONE as int) / 2,
                FP_ONE as int,
                (n_total + 1) as int,
            );
            lemma_mul_nonnegative(self.cutoff as int, n_total as int);
            lemma_div_pos_is_pos(
                (self.cutoff as int) * (n_total as int) + (FP_ONE as int) / 2,
                FP_ONE as int,
            );
        }
        let n_expected = (((self.cutoff as u128) * (n_total as u128) + 2147483648) / (
        FP_ONE as u128)) as usize;
        proof {
            assert(n_expected == round_good(self.cutoff as int, total1 as int));
        }

        // The new trial goes to the good ledger when it sorts at or below
        // the worst good trial; an empty good ledger sends it to the bad
        // ledger first, and the rebalancing loop pulls the best trial back
        // up if the share allows.
        let goes_good = match self.good_trials.worst() {
            Some(w) => !(w.metric < metric || (w.metric == metric && w.parameter < parameter)),
            None => false,
        };

        if goes_good {
            let inserted = self.good_trials.insert(trial);
            proof {
                assert(inserted);
                assert(self.good_trials@.len() == g0.len() + 1);
                // The new trial sorts below the old worst good trial, which
                // sorts below every bad trial.
                assert forall|i: int, j: int|
                    0 <= i < self.good_trials@.len() && 0 <= j
                        < self.bad_trials@.len() implies trial_le(
                    #[trigger] self.good_trials@[i],
                    #[trigger] self.bad_trials@[j],
                ) by {
                    let x = self.good_trials@[i];
                    assert(self.good_trials@.contains(x));
                    assert(b0.contains(b0[j]));
                    if g0.contains(x) {
                        let k = choose|k: int| 0 <= k < g0.len() && g0[k] == x;
                        assert(trial_le(g0[k], b0[j]));
                    } else {
                        assert(x == trial);
                        let w = g0[g0.len() - 1];
                        assert(trial_le(trial, w));
                        assert(trial_le(w, b0[j]));
                    }
                }
                self.lemma_rebalance_side_conditions(g0, b0, trial, true);
            }
            while self.good_trials.len() > n_expected
                invariant
                    self.good_trials.wf(),
                    self.bad_trials.wf(),
                    self.good_trials@.len() + self.bad_trials@.len() == total1,
                    total1 < 0x3FFF_FFFF,
                    n_expected <= self.good_trials@.len(),
                    params_bounded(self.good_trials@),
                    params_bounded(self.bad_trials@),
                    separated(self.good_trials@, self.bad_trials@),
                    params_disjoint(self.good_trials@, self.bad_trials@),
                    self.cutoff == old(self).cutoff,
                    self.n_candidates == old(self).n_candidates,
                    self.bandwidth == old(self).bandwidth,
                    self.min == old(self).min,
                    self.max == old(self).max,
                    self.init_kernel == old(self).init_kernel,
                    self.rng == old(self).rng,
                    joint_members(self.good_trials@, self.bad_trials@, g0, b0, trial),
                decreases self.good_trials@.len(),
            {
                let ghost gpre = self.good_trials@;
                let ghost bpre = self.bad_trials@;
                proof {
                    self.good_trials.lemma_wf();
                }
                let popped = self.good_trials.pop_worst();
                match popped {
                    Some(w) => {
                        proof {
                            assert(gpre.contains(w));
                            self.lemma_move_to_bad(gpre, bpre, w);
                        }
                        let moved = self.bad_trials.insert(w);
                        proof {
                            assert(moved);
                            self.lemma_after_move_to_bad(gpre, bpre, w, g0, b0, trial);
                        }
                    },
                    None => {
                        proof {
                            assert(false);
                        }
                    },
                }
            }
            proof {
                assert(self.good_trials@.contains(trial) || self.bad_trials@.contains(trial));
                if self.good_trials@.contains(trial) {
                    let i = choose|i: int|
                        0 <= i < self.good_trials@.len() && self.good_trials@[i] == trial;
                    assert(self.good_trials@[i].parameter == parameter);
                } else {
                    let i = choose|i: int|
                        0 <= i < self.bad_trials@.len() && self.bad_trials@[i] == trial;
                    assert(self.bad_trials@[i].parameter == parameter);
                }
                assert(has_param(self.good_trials@, parameter) || has_param(
                    self.bad_trials@,
                    parameter,
                ));
            }
        } else {
            let inserted = self.bad_trials.insert(trial);
            proof {
                assert(inserted);
                // Every good trial sorts strictly below the new trial,
                // which failed the good-ledger test.
                assert forall|i: int, j: int|
                    0 <= i < self.good_trials@.len() && 0 <= j
                        < self.bad_trials@.len() implies trial_le(
                    #[trigger] self.good_trials@[i],
                    #[trigger] self.bad_trials@[j],
                ) by {
                    let x = self.bad_trials@[j];
                    assert(self.bad_trials@.contains(x));
                    assert(g0.contains(g0[i]));
                    if b0.contains(x) {
                        let k = choose|k: int| 0 <= k < b0.len() && b0[k] == x;
                        assert(trial_le(g0[i], b0[k]));
                    } else {
                        assert(x == trial);
                        let w = g0[g0.len() - 1];
                        assert(trial_lt(w, trial));
                        assert(trial_le(g0[i], w));
                    }
                }
                self.lemma_rebalance_side_conditions(g0, b0, trial, false);
            }
            while self.good_trials.len() < n_expected
                invariant
                    self.good_trials.wf(),
                    self.bad_trials.wf(),
                    self.good_trials@.len() + self.bad_trials@.len() == total1,
                    total1 < 0x3FFF_FFFF,
                    n_expected <= total1,
                    self.good_trials@.len() <= n_expected,
                    params_bounded(self.good_trials@),
                    params_bounded(self.bad_trials@),
                    separated(self.good_trials@, self.bad_trials@),
                    params_disjoint(self.good_trials@, self.bad_trials@),
                    self.cutoff == old(self).cutoff,
                    self.n_candidates == old(self).n_candidates,
                    self.bandwidth == old(self).bandwidth,
                    self.min == old(self).min,
                    self.max == old(self).max,
                    self.init_kernel == old(self).init_kernel,
                    self.rng == old(self).rng,
                    joint_members(self.good_trials@, self.bad_trials@, g0, b0, trial),
                decreases n_expected - self.good_trials@.len(),
            {
                let ghost gpre = self.good_trials@;
                let ghost bpre = self.bad_trials@;
                proof {
                    self.bad_trials.lemma_wf();
                }
                let popped = self.bad_trials.pop_best();
                match popped {
                    Some(w) => {
                        proof {
                            assert(bpre.contains(w));
                            self.lemma_move_to_good(gpre, bpre, w);
                        }
                        let moved = self.good_trials.insert(w);
                        proof {
                            assert(moved);
                            self.lemma_after_move_to_good(gpre, bpre, w, g0, b0, trial);
                        }
                    },
                    None => {
                        proof {
                            assert(false);
                        }
                    },
                }
            }
            proof {
                assert(self.good_trials@.contains(trial) || self.bad_trials@.contains(trial));
                if self.good_trials@.contains(trial) {
                    let i = choose|i: int|
                        0 <= i < self.good_trials@.len() && self.good_trials@[i] == trial;
                    assert(self.good_trials@[i].parameter == parameter);
                } else {
                    let i = choose|i: int|
                        0 <= i < self.bad_trials@.len() && self.bad_trials@[i] == trial;
                    assert(self.bad_trials@[i].parameter == parameter);
                }
                assert(has_param(self.good_trials@, parameter) || has_param(
                    self.bad_trials@,
                    parameter,
                ));
            }
        }
        proof {
            assert(self.good_trials@.len() == n_expected);
            assert(self.good_trials@.len() == round_good(
                self.cutoff as int,
                self.good_trials@.len() + self.bad_trials@.len() as int,
            ));
        }
    }

    /// The good-ledger parameter sequence, ascending.
    pub closed spec fn good_params(&self) -> Seq<i64> {
        self.good_trials.params()
    }

    /// The bad-ledger parameter sequence, ascending.
    pub closed spec fn bad_params(&self) -> Seq<i64> {
        self.bad_trials.params()
    }

    /// The prior belief component the optimizer was built with.
    pub closed spec fn prior(&self) -> KI {
        self.init_kernel
    }

    /// The prior component's density at a point.
    pub closed spec fn init_density(&self, x: int) -> int {
        self.init_kernel.density_at(x)
    }

    /// The density of the good mixture at a point, under kernel `K`.
    pub closed spec fn good_density<K: Kernel>(&self, x: int) -> int {
        kde_density_at(
            kde_components::<K>(
                self.good_params(),
                self.min_spec(),
                self.max_spec(),
                self.bandwidth_spec(),
            ),
            x,
        )
    }

    /// The density of the bad mixture at a point, under kernel `K`.
    pub closed spec fn bad_density<K: Kernel>(&self, x: int) -> int {
        kde_density_at(
            kde_components::<K>(
                self.bad_params(),
                self.min_spec(),
                self.max_spec(),
                self.bandwidth_spec(),
            ),
            x,
        )
    }

    /// The smoothed good-class density `l(x)`: the prior density averaged
    /// in with the good mixture, so an empty class never yields an
    /// undefined score.
    pub closed spec fn acq_l<K: Kernel>(&self, x: int) -> int {
        (self.init_density(x) + self.good_density::<K>(x) * (self.good().len() as int)) / (
        self.good().len() as int + 1)
    }

    /// The smoothed bad-class density `g(x)`.
    pub closed spec fn acq_g<K: Kernel>(&self, x: int) -> int {
        (self.init_density(x) + self.bad_density::<K>(x) * (self.bad().len() as int)) / (
        self.bad().len() as int + 1)
    }

    /// Whether `x` strictly outscores `y` under the acquisition ratio
    /// `l / g`, compared as fractions by cross multiplication.
    pub closed spec fn scores_above<K: Kernel>(&self, x: int, y: int) -> bool {
        self.acq_l::<K>(x) * self.acq_g::<K>(y) > self.acq_l::<K>(y) * self.acq_g::<K>(x)
    }

    /// Whether a raw candidate value, once clamped into the range, is a
    /// parameter that neither ledger has tried.
    pub closed spec fn survives(&self, raw: i64) -> bool {
        let p = clamp_spec(raw, self.min as i64, self.max as i64);
        !has_param(self.good(), p) && !has_param(self.bad(), p)
    }

    /// Pick the best surviving candidate: clamp every raw candidate into
    /// the range, drop the ones already tried, score the rest with the
    /// acquisition ratio, and return the highest scorer, the earliest
    /// drawn on ties. `None` means every candidate was already tried.
    fn choose_candidate<K: Kernel>(
        &self,
        good_kde: &KernelDensityEstimator<K>,
        bad_kde: &KernelDensityEstimator<K>,
        candidates: &Vec<i64>,
    ) -> (r: Option<i64>)
        requires
            self.wf(),
            good_kde.0@ == kde_components::<K>(
                self.good_params(),
                self.min_spec(),
                self.max_spec(),
                self.bandwidth_spec(),
            ),
            bad_kde.0@ == kde_components::<K>(
                self.bad_params(),
                self.min_spec(),
                self.max_spec(),
                self.bandwidth_spec(),
            ),
            kde_density_wf(good_kde.0@),
            kde_density_wf(bad_kde.0@),
            good_kde.0@.len() < 0x8000_0000,
            bad_kde.0@.len() < 0x8000_0000,
        ensures
            (r is None) <==> (forall|i: int|
                0 <= i < candidates@.len() ==> !self.survives(#[trigger] candidates@[i])),
            r matches Some(p) ==> self.min_spec() <= p <= self.max_spec() && !has_param(
                self.good(),
                p,
            ) && !has_param(self.bad(), p) && (exists|i: int|
                0 <= i < candidates@.len() && self.survives(#[trigger] candidates@[i]) && p
                    == clamp_spec(candidates@[i], self.min as i64, self.max as i64)) && (forall|
                j: int,
            |
                0 <= j < candidates@.len() && self.survives(#[trigger] candidates@[j])
                    ==> !self.scores_above::<K>(
                    clamp_spec(candidates@[j], self.min as i64, self.max as i64) as int,
                    p as int,
                )),
    {
        let n_good = self.good_trials.len();
        let n_bad = self.bad_trials.len();
        let n = candidates.len();
        let mut found = false;
        let mut best_p: i64 = 0;
        let mut best_l: u64 = 0;
        let mut best_g: u64 = 0;
        let mut i: usize = 0;
        while i < n
            invariant
                self.wf(),
                n == candidates@.len(),
                n_good == self.good().len(),
                n_bad == self.bad().len(),
                i <= n,
                good_kde.0@ == kde_components::<K>(
                    self.good_params(),
                    self.min_spec(),
                    self.max_spec(),
                    self.bandwidth_spec(),
                ),
                bad_kde.0@ == kde_components::<K>(
                    self.bad_params(),
                    self.min_spec(),
                    self.max_spec(),
                    self.bandwidth_spec(),
                ),
                kde_density_wf(good_kde.0@),
                kde_density_wf(bad_kde.0@),
                good_kde.0@.len() < 0x8000_0000,
                bad_kde.0@.len() < 0x8000_0000,
                !found ==> (forall|j: int|
                    0 <= j < i ==> !self.survives(#[trigger] candidates@[j])),
                found ==> self.min <= best_p <= self.max && !has_param(self.good(), best_p)
                    && !has_param(self.bad(), best_p) && best_l == self.acq_l::<K>(best_p as int)
                    && best_g == self.acq_g::<K>(best_p as int) && best_l <= FP_ONE && best_g
                    <= FP_ONE && (exists|w: int|
                    0 <= w < i && self.survives(#[trigger] candidates@[w]) && best_p == clamp_spec(
                        candidates@[w],
                        self.min as i64,
                        self.max as i64,
                    )) && (forall|j: int|
                    0 <= j < i && self.survives(#[trigger] candidates@[j])
                        ==> !self.scores_above::<K>(
                        clamp_spec(candidates@[j], self.min as i64, self.max as i64) as int,
                        best_p as int,
                    )),
                forall|j: int|
                    0 <= j < i && self.survives(#[trigger] candidates@[j]) ==> {
                        let pj = clamp_spec(candidates@[j], self.min as i64, self.max as i64);
                        0 <= self.acq_l::<K>(pj as int) <= FP_ONE && 0 <= self.acq_g::<K>(
                            pj as int,
                        ) <= FP_ONE
                    },
            decreases n - i,
        {
            let raw = candidates[i];
            let p = if raw < self.min {
                self.min
            } else if raw > self.max {
                self.max
            } else {
                raw
            };
            let tried = self.good_trials.contains(p) || self.bad_trials.contains(p);
            if !tried {
                let d0 = self.init_kernel.density(p);
                let dg = good_kde.density(p);
                let db = bad_kde.density(p);
                proof {
                    assert((dg as int) * (n_good as int) + (d0 as int) <= ((n_good + 1) as int) * (
                    FP_ONE as int) && 0 <= (dg as int) * (n_good as int)) by (nonlinear_arith)
                        requires
                            0 <= d0 <= FP_ONE,
                            0 <= dg <= FP_ONE,
                            0 <= n_good < 0x4000_0000u64 as usize,
                    ;
                    lemma_multiply_divide_le(
                        (d0 as int) + (dg as int) * (n_good as int),
                        (n_good + 1) as int,
                        FP_ONE as int,
                    );
                    lemma_div_pos_is_pos(
                        (d0 as int) + (dg as int) * (n_good as int),
                        (n_good + 1) as int,
                    );
                    assert((db as int) * (n_bad as int) + (d0 as int) <= ((n_bad + 1) as int) * (
                    FP_ONE as int) && 0 <= (db as int) * (n_bad as int)) by (nonlinear_arith)
                        requires
                            0 <= d0 <= FP_ONE,
                            0 <= db <= FP_ONE,
                            0 <= n_bad < 0x4000_0000u64 as usize,
                    ;
                    lemma_multiply_divide_le(
                        (d0 as int) + (db as int) * (n_bad as int),
                        (n_bad + 1) as int,
                        FP_ONE as int,
                    );
                    lemma_div_pos_is_pos(
                        (d0 as int) + (db as int) * (n_bad as int),
                        (n_bad + 1) as int,
                    );
                }
                let l = (((d0 as u128) + (dg as u128) * (n_good as u128)) / ((n_good as u128)
                    + 1)) as u64;
                let g = (((d0 as u128) + (db as u128) * (n_bad as u128)) / ((n_bad as u128)
                    + 1)) as u64;
                proof {
                    assert(l == self.acq_l::<K>(p as int));
                    assert(g == self.acq_g::<K>(p as int));
                }
                if !found {
                    found = true;
                    best_p = p;
                    best_l = l;
                    best_g = g;
                } else {
                    proof {
                        assert((l as int) * (best_g as int) < 0x1_0000_0000_0000_0000_0000 && (
                        best_l as int) * (g as int) < 0x1_0000_0000_0000_0000_0000)
                            by (nonlinear_arith)
                            requires
                                0 <= l <= 4294967296u64,
                                0 <= g <= 4294967296u64,
                                0 <= best_l <= 4294967296u64,
                                0 <= best_g <= 4294967296u64,
                        ;
                    }
                    let better = (l as u128) * (best_g as u128) > (best_l as u128) * (g as u128);
                    if better {
                        proof {
                            assert forall|j: int|
                                0 <= j < i && self.survives(#[trigger] candidates@[j])
                                    implies !self.scores_above::<K>(
                                clamp_spec(
                                    candidates@[j],
                                    self.min as i64,
                                    self.max as i64,
                                ) as int,
                                p as int,
                            ) by {
                                let pj = clamp_spec(
                                    candidates@[j],
                                    self.min as i64,
                                    self.max as i64,
                                ) as int;
                                lemma_score_transfer(
                                    self.acq_l::<K>(pj),
                                    self.acq_g::<K>(pj),
                                    self.acq_l::<K>(best_p as int),
                                    self.acq_g::<K>(best_p as int),
                                    self.acq_l::<K>(p as int),
                                    self.acq_g::<K>(p as int),
                                );
                            }
                        }
                        best_p = p;
                        best_l = l;
                        best_g = g;
                    }
                }
            }
            i = i + 1;
        }
        if found {
            Some(best_p)
        } else {
            None
        }
    }

    /// Generate a parameter value for a new trial: build the good and bad
    /// mixtures, draw candidates from the prior or the good mixture, and
    /// return the untried candidate with the best acquisition score. The
    /// result is `None` when every candidate drawn was already tried: the
    /// caller may retry, widen the range, or treat the search as
    /// converged.
    pub fn new_trial<K: Kernel>(&mut self) -> (r: Option<i64>)
        requires
            old(self).wf(),
        ensures
            final(self).wf(),
            final(self).good() == old(self).good(),
            final(self).bad() == old(self).bad(),
            final(self).cutoff_spec() == old(self).cutoff_spec(),
            final(self).n_candidates_spec() == old(self).n_candidates_spec(),
            final(self).bandwidth_spec() == old(self).bandwidth_spec(),
            final(self).min_spec() == old(self).min_spec(),
            final(self).max_spec() == old(self).max_spec(),
            final(self).prior() == old(self).prior(),
            forall|x: int|
                #[trigger] final(self).init_density(x) == old(self).init_density(x),
            r matches Some(p) ==> old(self).min_spec() <= p <= old(self).max_spec() && !has_param(
                old(self).good(),
                p,
            ) && !has_param(old(self).bad(), p),
            (forall|p: i64|
                old(self).min_spec() <= p <= old(self).max_spec() ==> !has_param(
                    old(self).good(),
                    p,
                ) && !has_param(old(self).bad(), p)) ==> r is Some,
    {
        proof {
            self.good_trials.lemma_wf();
            self.bad_trials.lemma_wf();
        }
        let good_params = self.good_trials.iter_parameters();
        let bad_params = self.bad_trials.iter_parameters();
        proof {
            assert forall|j: int| 0 <= j < good_params@.len() implies -PARAM_BOUND <= (
            #[trigger] good_params@[j]) <= PARAM_BOUND by {
                assert(has_param(self.good_trials@, good_params@[j]));
                let k = choose|k: int|
                    0 <= k < self.good_trials@.len() && self.good_trials@[k].parameter
                        == good_params@[j];
            }
            assert forall|j: int| 0 <= j < bad_params@.len() implies -PARAM_BOUND <= (
            #[trigger] bad_params@[j]) <= PARAM_BOUND by {
                assert(has_param(self.bad_trials@, bad_params@[j]));
                let k = choose|k: int|
                    0 <= k < self.bad_trials@.len() && self.bad_trials@[k].parameter
                        == bad_params@[j];
            }
        }
        let good_kde = construct_kde::<K>(good_params, self.min, self.max, self.bandwidth);
        let bad_kde = construct_kde::<K>(bad_params, self.min, self.max, self.bandwidth);

        // Draw the candidates: from the prior with probability
        // `1 / (n + 1)` (or always, while fewer than two good trials
        // exist), and from the good mixture otherwise.
        let n_good = self.good_trials.len();
        let mut candidates: Vec<i64> = Vec::new();
        let mut k: usize = 0;
        let budget = self.n_candidates;
        while k < budget
            invariant
                self.wf(),
                candidates@.len() == k,
                k <= budget,
                budget >= 1,
                self.good_trials == old(self).good_trials,
                self.bad_trials == old(self).bad_trials,
                self.cutoff == old(self).cutoff,
                self.n_candidates == old(self).n_candidates,
                self.bandwidth == old(self).bandwidth,
                self.min == old(self).min,
                self.max == old(self).max,
                self.init_kernel == old(self).init_kernel,
                kde_sample_wf(good_kde.0@),
                kde_density_wf(good_kde.0@),
                kde_density_wf(bad_kde.0@),
                good_kde.0@.len() < 0x8000_0000,
                bad_kde.0@.len() < 0x8000_0000,
                n_good == self.good().len(),
                good_kde.0@ == kde_components::<K>(
                    self.good_params(),
                    self.min_spec(),
                    self.max_spec(),
                    self.bandwidth_spec(),
                ),
                bad_kde.0@ == kde_components::<K>(
                    self.bad_params(),
                    self.min_spec(),
                    self.max_spec(),
                    self.bandwidth_spec(),
                ),
            decreases budget - k,
        {
            let c = if n_good < 2 || self.rng.uniform_index(n_good) == 0 {
                self.init_kernel.sample(&mut self.rng)
            } else {
                match good_kde.sample(&mut self.rng) {
                    Some(s) => s,
                    None => self.init_kernel.sample(&mut self.rng),
                }
            };
            candidates.push(c);
            k = k + 1;
        }
        let r = self.choose_candidate::<K>(&good_kde, &bad_kde, &candidates);
        proof {
            // When no parameter of the whole range was tried, every drawn
            // candidate survives clamping and filtering, so a proposal is
            // owed whatever the generator returned.
            if forall|p: i64|
                self.min_spec() <= p <= self.max_spec() ==> !has_param(self.good(), p)
                    && !has_param(self.bad(), p) {
                let p0 = clamp_spec(candidates@[0], self.min as i64, self.max as i64);
                assert(self.min <= p0 <= self.max);
                assert(!has_param(self.good(), p0) && !has_param(self.bad(), p0));
                assert(self.survives(candidates@[0]));
            }
        }
        r
    }

    /// Law: after any sequence of feedback calls, the worst good trial
    /// sorts at or below the best bad trial — every good trial does.
    pub proof fn lemma_class_separation(&self)
        requires
            self.wf(),
        ensures
            forall|g: Trial, b: Trial|
                self.good().contains(g) && self.bad().contains(b) ==> trial_le(g, b),
    {
        assert forall|g: Trial, b: Trial|
            self.good().contains(g) && self.bad().contains(b) implies trial_le(g, b) by {
            let i = choose|i: int| 0 <= i < self.good().len() && self.good()[i] == g;
            let j = choose|j: int| 0 <= j < self.bad().len() && self.bad()[j] == b;
            assert(trial_le(self.good()[i], self.bad()[j]));
        }
    }

    /// Law: no parameter value ever appears in both ledgers, nor twice
    /// within one ledger.
    pub proof fn lemma_parameter_uniqueness(&self)
        requires
            self.wf(),
        ensures
            forall|p: i64|
                !(#[trigger] has_param(self.good(), p) && has_param(self.bad(), p)),
            crate::trial::distinct_params(self.good()),
            crate::trial::distinct_params(self.bad()),
    {
        self.good_trials.lemma_wf();
        self.bad_trials.lemma_wf();
        assert forall|p: i64|
            !(#[trigger] has_param(self.good(), p) && has_param(self.bad(), p)) by {
            if has_param(self.good(), p) && has_param(self.bad(), p) {
                let i = choose|i: int|
                    0 <= i < self.good().len() && self.good()[i].parameter == p;
                let j = choose|j: int| 0 <= j < self.bad().len() && self.bad()[j].parameter == p;
                assert(self.good()[i].parameter != self.bad()[j].parameter);
            }
        }
    }

    /// Law: the good ledger holds exactly the half-up rounded cutoff share
    /// of the recorded trials — in particular, within one of it.
    pub proof fn lemma_partition_share(&self)
        requires
            self.wf(),
        ensures
            self.good().len() == round_good(
                self.cutoff_spec(),
                self.good().len() + self.bad().len() as int,
            ),
    {
    }

    /// After the initial insertion, the untouched conditions of the
    /// rebalancing loops hold.
    proof fn lemma_rebalance_side_conditions(
        &self,
        g0: Seq<Trial>,
        b0: Seq<Trial>,
        trial: Trial,
        into_good: bool,
    )
        requires
            self.good_trials.wf(),
            self.bad_trials.wf(),
            params_bounded(g0),
            params_bounded(b0),
            params_disjoint(g0, b0),
            -PARAM_BOUND <= trial.parameter <= PARAM_BOUND,
            !has_param(g0, trial.parameter),
            !has_param(b0, trial.parameter),
            into_good ==> (forall|x: Trial|
                #![trigger self.good_trials@.contains(x)]
                #![trigger g0.contains(x)]
                self.good_trials@.contains(x) <==> (g0.contains(x) || x == trial)),
            into_good ==> self.bad_trials@ == b0,
            !into_good ==> (forall|x: Trial|
                #![trigger self.bad_trials@.contains(x)]
                #![trigger b0.contains(x)]
                self.bad_trials@.contains(x) <==> (b0.contains(x) || x == trial)),
            !into_good ==> self.good_trials@ == g0,
        ensures
            params_bounded(self.good_trials@),
            params_bounded(self.bad_trials@),
            params_disjoint(self.good_trials@, self.bad_trials@),
            joint_members(self.good_trials@, self.bad_trials@, g0, b0, trial),
    {
        let g1 = self.good_trials@;
        let b1 = self.bad_trials@;
        assert forall|i: int| 0 <= i < g1.len() implies -PARAM_BOUND <= (
        #[trigger] g1[i]).parameter <= PARAM_BOUND by {
            assert(g1.contains(g1[i]));
            if g0.contains(g1[i]) {
                let k = choose|k: int| 0 <= k < g0.len() && g0[k] == g1[i];
                assert(-PARAM_BOUND <= g0[k].parameter <= PARAM_BOUND);
            }
        }
        assert forall|i: int| 0 <= i < b1.len() implies -PARAM_BOUND <= (
        #[trigger] b1[i]).parameter <= PARAM_BOUND by {
            assert(b1.contains(b1[i]));
            if b0.contains(b1[i]) {
                let k = choose|k: int| 0 <= k < b0.len() && b0[k] == b1[i];
                assert(-PARAM_BOUND <= b0[k].parameter <= PARAM_BOUND);
            }
        }
        assert forall|i: int, j: int|
            0 <= i < g1.len() && 0 <= j < b1.len() implies (#[trigger] g1[i]).parameter != (
        #[trigger] b1[j]).parameter by {
            assert(g1.contains(g1[i]));
            assert(b1.contains(b1[j]));
            if into_good {
                let m = choose|m: int| 0 <= m < b0.len() && b0[m] == b1[j];
                if g0.contains(g1[i]) {
                    let k = choose|k: int| 0 <= k < g0.len() && g0[k] == g1[i];
                    assert(g0[k].parameter != b0[m].parameter);
                } else {
                    assert(g1[i] == trial);
                    if b1[j].parameter == trial.parameter {
                        assert(has_param(b0, trial.parameter));
                    }
                }
            } else {
                let k = choose|k: int| 0 <= k < g0.len() && g0[k] == g1[i];
                if b0.contains(b1[j]) {
                    let m = choose|m: int| 0 <= m < b0.len() && b0[m] == b1[j];
                    assert(g0[k].parameter != b0[m].parameter);
                } else {
                    assert(b1[j] == trial);
                    if g1[i].parameter == trial.parameter {
                        assert(has_param(g0, trial.parameter));
                    }
                }
            }
        }
    }

    /// A trial popped from the good ledger may move into the bad ledger:
    /// its parameter is not there.
    proof fn lemma_move_to_bad(&self, gpre: Seq<Trial>, bpre: Seq<Trial>, w: Trial)
        requires
            params_disjoint(gpre, bpre),
            gpre.contains(w),
            self.bad_trials@ == bpre,
        ensures
            !has_param(self.bad_trials@, w.parameter),
    {
        if has_param(bpre, w.parameter) {
            let j = choose|j: int| 0 <= j < bpre.len() && bpre[j].parameter == w.parameter;
            let i = choose|i: int| 0 <= i < gpre.len() && gpre[i] == w;
            assert(gpre[i].parameter != bpre[j].parameter);
        }
    }

    /// A trial popped from the bad ledger may move into the good ledger:
    /// its parameter is not there.
    proof fn lemma_move_to_good(&self, gpre: Seq<Trial>, bpre: Seq<Trial>, w: Trial)
        requires
            params_disjoint(gpre, bpre),
            bpre.contains(w),
            self.good_trials@ == gpre,
        ensures
            !has_param(self.good_trials@, w.parameter),
    {
        if has_param(gpre, w.parameter) {
            let i = choose|i: int| 0 <= i < gpre.len() && gpre[i].parameter == w.parameter;
            let j = choose|j: int| 0 <= j < bpre.len() && bpre[j] == w;
            assert(gpre[i].parameter != bpre[j].parameter);
        }
    }

    /// Moving the worst good trial into the bad ledger preserves the loop
    /// conditions.
    proof fn lemma_after_move_to_bad(
        &self,
        gpre: Seq<Trial>,
        bpre: Seq<Trial>,
        w: Trial,
        g0: Seq<Trial>,
        b0: Seq<Trial>,
        trial: Trial,
    )
        requires
            self.good_trials.wf(),
            self.bad_trials.wf(),
            params_bounded(gpre),
            params_bounded(bpre),
            separated(gpre, bpre),
            params_disjoint(gpre, bpre),
            gpre.len() > 0,
            crate::trial::distinct_params(gpre),
            w == gpre[gpre.len() - 1],
            forall|x: Trial| #![trigger gpre.contains(x)] gpre.contains(x) ==> trial_le(x, w),
            forall|x: Trial|
                #![trigger self.good_trials@.contains(x)]
                #![trigger gpre.contains(x)]
                self.good_trials@.contains(x) <==> (gpre.contains(x) && x != w),
            forall|x: Trial|
                #![trigger self.bad_trials@.contains(x)]
                #![trigger bpre.contains(x)]
                self.bad_trials@.contains(x) <==> (bpre.contains(x) || x == w),
            joint_members(gpre, bpre, g0, b0, trial),
        ensures
            params_bounded(self.good_trials@),
            params_bounded(self.bad_trials@),
            separated(self.good_trials@, self.bad_trials@),
            params_disjoint(self.good_trials@, self.bad_trials@),
            joint_members(self.good_trials@, self.bad_trials@, g0, b0, trial),
    {
        let g1 = self.good_trials@;
        let b1 = self.bad_trials@;
        assert forall|i: int| 0 <= i < g1.len() implies -PARAM_BOUND <= (
        #[trigger] g1[i]).parameter <= PARAM_BOUND by {
            assert(g1.contains(g1[i]));
            assert(gpre.contains(g1[i]));
            let k = choose|k: int| 0 <= k < gpre.len() && gpre[k] == g1[i];
            assert(-PARAM_BOUND <= gpre[k].parameter <= PARAM_BOUND);
        }
        assert forall|i: int| 0 <= i < b1.len() implies -PARAM_BOUND <= (
        #[trigger] b1[i]).parameter <= PARAM_BOUND by {
            assert(b1.contains(b1[i]));
            if bpre.contains(b1[i]) {
                let k = choose|k: int| 0 <= k < bpre.len() && bpre[k] == b1[i];
                assert(-PARAM_BOUND <= bpre[k].parameter <= PARAM_BOUND);
            } else {
                assert(b1[i] == w);
                assert(-PARAM_BOUND <= gpre[gpre.len() - 1].parameter <= PARAM_BOUND);
            }
        }
        assert forall|i: int, j: int|
            0 <= i < g1.len() && 0 <= j < b1.len() implies trial_le(
            #[trigger] g1[i],
            #[trigger] b1[j],
        ) by {
            assert(g1.contains(g1[i]));
            assert(b1.contains(b1[j]));
            assert(gpre.contains(g1[i]));
            let k = choose|k: int| 0 <= k < gpre.len() && gpre[k] == g1[i];
            if bpre.contains(b1[j]) {
                let m = choose|m: int| 0 <= m < bpre.len() && bpre[m] == b1[j];
                assert(trial_le(gpre[k], bpre[m]));
            } else {
                assert(b1[j] == w);
                assert(trial_le(g1[i], w));
            }
        }
        assert forall|i: int, j: int|
            0 <= i < g1.len() && 0 <= j < b1.len() implies (#[trigger] g1[i]).parameter != (
        #[trigger] b1[j]).parameter by {
            assert(g1.contains(g1[i]));
            assert(b1.contains(b1[j]));
            assert(gpre.contains(g1[i]));
            let k = choose|k: int| 0 <= k < gpre.len() && gpre[k] == g1[i];
            if bpre.contains(b1[j]) {
                let m = choose|m: int| 0 <= m < bpre.len() && bpre[m] == b1[j];
                assert(gpre[k].parameter != bpre[m].parameter);
            } else {
                assert(b1[j] == w);
                if g1[i].parameter == w.parameter {
                    assert(gpre[k] == g1[i]);
                    assert(g1[i] != w);
                    assert(k != gpre.len() - 1);
                    assert(gpre[k].parameter != gpre[gpre.len() - 1].parameter);
                }
            }
        }
        assert forall|x: Trial|
            #![trigger g1.contains(x)]
            #![trigger b1.contains(x)]
            #![trigger g0.contains(x)]
            #![trigger b0.contains(x)]
            (g1.contains(x) || b1.contains(x)) <==> (g0.contains(x) || b0.contains(x) || x
                == trial) by {
            if g1.contains(x) || b1.contains(x) {
                assert(gpre.contains(x) || bpre.contains(x));
            }
            if g0.contains(x) || b0.contains(x) || x == trial {
                assert(gpre.contains(x) || bpre.contains(x));
                if gpre.contains(x) {
                    if x == w {
                        assert(b1.contains(x));
                    } else {
                        assert(g1.contains(x));
                    }
                } else {
                    assert(b1.contains(x));
                }
            }
        }
    }

    /// Moving the best bad trial into the good ledger preserves the loop
    /// conditions.
    proof fn lemma_after_move_to_good(
        &self,
        gpre: Seq<Trial>,
        bpre: Seq<Trial>,
        w: Trial,
        g0: Seq<Trial>,
        b0: Seq<Trial>,
        trial: Trial,
    )
        requires
            self.good_trials.wf(),
            self.bad_trials.wf(),
            params_bounded(gpre),
            params_bounded(bpre),
            separated(gpre, bpre),
            params_disjoint(gpre, bpre),
            bpre.len() > 0,
            crate::trial::distinct_params(bpre),
            w == bpre[0],
            forall|x: Trial| #![trigger bpre.contains(x)] bpre.contains(x) ==> trial_le(w, x),
            forall|x: Trial|
                #![trigger self.bad_trials@.contains(x)]
                #![trigger bpre.contains(x)]
                self.bad_trials@.contains(x) <==> (bpre.contains(x) && x != w),
            forall|x: Trial|
                #![trigger self.good_trials@.contains(x)]
                #![trigger gpre.contains(x)]
                self.good_trials@.contains(x) <==> (gpre.contains(x) || x == w),
            joint_members(gpre, bpre, g0, b0, trial),
        ensures
            params_bounded(self.good_trials@),
            params_bounded(self.bad_trials@),
            separated(self.good_trials@, self.bad_trials@),
            params_disjoint(self.good_trials@, self.bad_trials@),
            joint_members(self.good_trials@, self.bad_trials@, g0, b0, trial),
    {
        let g1 = self.good_trials@;
        let b1 = self.bad_trials@;
        assert forall|i: int| 0 <= i < g1.len() implies -PARAM_BOUND <= (
        #[trigger] g1[i]).parameter <= PARAM_BOUND by {
            assert(g1.contains(g1[i]));
            if gpre.contains(g1[i]) {
                let k = choose|k: int| 0 <= k < gpre.len() && gpre[k] == g1[i];
                assert(-PARAM_BOUND <= gpre[k].parameter <= PARAM_BOUND);
            } else {
                assert(g1[i] == w);
                assert(-PARAM_BOUND <= bpre[0].parameter <= PARAM_BOUND);
            }
        }
        assert forall|i: int| 0 <= i < b1.len() implies -PARAM_BOUND <= (
        #[trigger] b1[i]).parameter <= PARAM_BOUND by {
            assert(b1.contains(b1[i]));
            assert(bpre.contains(b1[i]));
            let k = choose|k: int| 0 <= k < bpre.len() && bpre[k] == b1[i];
            assert(-PARAM_BOUND <= bpre[k].parameter <= PARAM_BOUND);
        }
        assert forall|i: int, j: int|
            0 <= i < g1.len() && 0 <= j < b1.len() implies trial_le(
            #[trigger] g1[i],
            #[trigger] b1[j],
        ) by {
            assert(g1.contains(g1[i]));
            assert(b1.contains(b1[j]));
            assert(bpre.contains(b1[j]));
            let m = choose|m: int| 0 <= m < bpre.len() && bpre[m] == b1[j];
            if gpre.contains(g1[i]) {
                let k = choose|k: int| 0 <= k < gpre.len() && gpre[k] == g1[i];
                assert(trial_le(gpre[k], bpre[m]));
            } else {
                assert(g1[i] == w);
                assert(trial_le(w, bpre[m]));
            }
        }
        assert forall|i: int, j: int|
            0 <= i < g1.len() && 0 <= j < b1.len() implies (#[trigger] g1[i]).parameter != (
        #[trigger] b1[j]).parameter by {
            assert(g1.contains(g1[i]));
            assert(b1.contains(b1[j]));
            assert(bpre.contains(b1[j]));
            let m = choose|m: int| 0 <= m < bpre.len() && bpre[m] == b1[j];
            if gpre.contains(g1[i]) {
                let k = choose|k: int| 0 <= k < gpre.len() && gpre[k] == g1[i];
                assert(gpre[k].parameter != bpre[m].parameter);
            } else {
                assert(g1[i] == w);
                if b1[j].parameter == w.parameter {
                    assert(bpre[m] == b1[j]);
                    assert(b1[j] != w);
                    assert(m != 0);
                    assert(bpre[m].parameter != bpre[0].parameter);
                }
            }
        }
        assert forall|x: Trial|
            #![trigger g1.contains(x)]
            #![trigger b1.contains(x)]
            #![trigger g0.contains(x)]
            #![trigger b0.contains(x)]
            (g1.contains(x) || b1.contains(x)) <==> (g0.contains(x) || b0.contains(x) || x
                == trial) by {
            if g1.contains(x) || b1.contains(x) {
                assert(gpre.contains(x) || bpre.contains(x));
            }
            if g0.contains(x) || b0.contains(x) || x == trial {
                assert(gpre.contains(x) || bpre.contains(x));
                if bpre.contains(x) {
                    if x == w {
                        assert(g1.contains(x));
                    } else {
                        assert(b1.contains(x));
                    }
                } else {
                    assert(g1.contains(x));
                }
            }
        }
    }
}

} // verus!
