//! The trial ledger: a duplicate-free collection of (parameter, metric)
//! trials that keeps two orderings in lockstep, one by metric (for the best
//! and worst trials) and one by parameter (for ascending iteration and
//! duplicate checks).

use vstd::prelude::*;
use vstd::seq::*;

verus! {

/// Single trial in the optimizer: a parameter and the metric the target
/// function returned for it. Trials order by metric first and break ties by
/// parameter.
#[derive(Copy, Clone, Debug, PartialEq, Eq, PartialOrd, Ord, Structural)]
pub struct Trial {
    /// The observed value of the target function; the less, the better.
    pub metric: i64,
    /// The parameter the target function was evaluated at.
    pub parameter: i64,
}

/// Trial ordering: by metric, then by parameter (weak form).
pub open spec fn trial_le(a: Trial, b: Trial) -> bool {
    a.metric < b.metric || (a.metric == b.metric && a.parameter <= b.parameter)
}

/// Trial ordering: by metric, then by parameter (strict form).
pub open spec fn trial_lt(a: Trial, b: Trial) -> bool {
    a.metric < b.metric || (a.metric == b.metric && a.parameter < b.parameter)
}

/// Strictly ascending by [`trial_lt`].
pub open spec fn sorted_trials(s: Seq<Trial>) -> bool {
    forall|i: int, j: int| 0 <= i < j < s.len() ==> trial_lt(s[i], s[j])
}

/// Strictly ascending integers.
pub open spec fn sorted_params(s: Seq<i64>) -> bool {
    forall|i: int, j: int| 0 <= i < j < s.len() ==> s[i] < s[j]
}

/// Whether some trial of `s` has the given parameter.
pub open spec fn has_param(s: Seq<Trial>, p: i64) -> bool {
    exists|i: int| 0 <= i < s.len() && s[i].parameter == p
}

/// No two trials of `s` share a parameter.
pub open spec fn distinct_params(s: Seq<Trial>) -> bool {
    forall|i: int, j: int|
        0 <= i < j < s.len() ==> s[i].parameter != s[j].parameter
}

/// Whether `a` is sound as the comparison `a < b` computes it.
fn trial_below(a: &Trial, b: &Trial) -> (r: bool)
    ensures
        r == trial_lt(*a, *b),
{
    a.metric < b.metric || (a.metric == b.metric && a.parameter < b.parameter)
}

/// Ordered, duplicate-free collection of trials.
///
/// Two inner orderings are maintained together: the trials sorted by
/// (metric, parameter), and their parameters sorted by value. Every mutation
/// updates both, so they always hold the same set of trials. The view of the
/// collection is the metric-sorted sequence of trials.
pub struct Trials {
    by_metric: Vec<Trial>,
    by_parameter: Vec<i64>,
}

impl View for Trials {
    type V = Seq<Trial>;

    closed spec fn view(&self) -> Seq<Trial> {
        self.by_metric@
    }
}

impl Trials {
    /// Both orderings are strictly sorted, hold the same parameters, and no
    /// parameter repeats.
    pub closed spec fn wf(&self) -> bool {
        &&& sorted_trials(self.by_metric@)
        &&& sorted_params(self.by_parameter@)
        &&& self.by_metric@.len() == self.by_parameter@.len()
        &&& self.by_metric@.len() < 0x4000_0000
        &&& (forall|i: int|
            0 <= i < self.by_metric@.len() ==> self.by_parameter@.contains(
                #[trigger] self.by_metric@[i].parameter,
            ))
        &&& (forall|j: int|
            0 <= j < self.by_parameter@.len() ==> has_param(
                self.by_metric@,
                #[trigger] self.by_parameter@[j],
            ))
        &&& distinct_params(self.by_metric@)
    }

    /// The ascending parameter sequence of the ledger.
    pub closed spec fn params(&self) -> Seq<i64> {
        self.by_parameter@
    }

    /// What well-formedness guarantees about the view.
    pub proof fn lemma_wf(&self)
        requires
            self.wf(),
        ensures
            sorted_trials(self@),
            distinct_params(self@),
            self@.len() < 0x4000_0000,
    {
    }

    /// Instantiate a new empty trial collection.
    pub fn new() -> (r: Trials)
        ensures
            r.wf(),
            r@.len() == 0,
    {
        Trials { by_metric: Vec::new(), by_parameter: Vec::new() }
    }

    /// How many trials the collection holds.
    pub fn len(&self) -> (r: usize)
        ensures
            r == self@.len(),
    {
        self.by_metric.len()
    }

    /// Whether a trial with this parameter is already recorded.
    pub fn contains(&self, parameter: i64) -> (r: bool)
        requires
            self.wf(),
        ensures
            r == has_param(self@, parameter),
    {
        let n = self.by_parameter.len();
        let mut i: usize = 0;
        loop
            invariant
                i <= n,
                n == self.by_parameter@.len(),
                self.wf(),
                forall|j: int| 0 <= j < i ==> self.by_parameter@[j] != parameter,
            ensures
                forall|j: int| 0 <= j < n ==> self.by_parameter@[j] != parameter,
            decreases n - i,
        {
            if i == n {
                break ;
            }
            if self.by_parameter[i] == parameter {
                proof {
                    assert(has_param(self.by_metric@, self.by_parameter@[i as int]));
                }
                return true;
            }
            i = i + 1;
        }
        proof {
            if has_param(self@, parameter) {
                let k = choose|k: int|
                    0 <= k < self.by_metric@.len() && self.by_metric@[k].parameter == parameter;
                assert(self.by_parameter@.contains(self.by_metric@[k].parameter));
            }
        }
        false
    }

    /// The parameters of the recorded trials, in ascending order.
    pub fn iter_parameters(&self) -> (r: Vec<i64>)
        requires
            self.wf(),
        ensures
            r@ == self.params(),
            sorted_params(r@),
            r@.len() == self@.len(),
            forall|p: i64| r@.contains(p) <==> has_param(self@, p),
            forall|j: int| 0 <= j < r@.len() ==> has_param(self@, #[trigger] r@[j]),
    {
        let r = self.by_parameter.clone();
        proof {
            assert(r@ == self.by_parameter@);
            assert forall|p: i64| r@.contains(p) <==> has_param(self@, p) by {
                if r@.contains(p) {
                    let j = choose|j: int| 0 <= j < r@.len() && r@[j] == p;
                    assert(has_param(self.by_metric@, self.by_parameter@[j]));
                }
                if has_param(self@, p) {
                    let k = choose|k: int| 0 <= k < self@.len() && self@[k].parameter == p;
                    assert(self.by_parameter@.contains(self.by_metric@[k].parameter));
                }
            }
        }
        r
    }

    /// Push a trial into the collection; a repeated parameter is ignored.
    /// Returns whether the trial was inserted.
    pub fn insert(&mut self, trial: Trial) -> (r: bool)
        requires
            old(self).wf(),
            old(self)@.len() < 0x3FFF_FFFF,
        ensures
            final(self).wf(),
            r == !has_param(old(self)@, trial.parameter),
            !r ==> final(self)@ == old(self)@,
            r ==> final(self)@.len() == old(self)@.len() + 1,
            r ==> forall|t: Trial|
                final(self)@.contains(t) <==> (old(self)@.contains(t) || t == trial),
            forall|p: i64|
                has_param(final(self)@, p) <==> (has_param(old(self)@, p) || (r && p
                    == trial.parameter)),
    {
        let p = trial.parameter;
        let n = self.by_parameter.len();

        // Find the insertion position in the parameter ordering, or find the
        // parameter already present.
        let mut i: usize = 0;
        loop
            invariant
                i <= n,
                self == old(self),
                old(self).wf(),
                p == trial.parameter,
                n == self.by_parameter@.len(),
                forall|j: int| 0 <= j < i ==> self.by_parameter@[j] < p,
            ensures
                i <= n,
                self == old(self),
                forall|j: int| 0 <= j < i ==> self.by_parameter@[j] < p,
                i < n ==> self.by_parameter@[i as int] > p,
            decreases n - i,
        {
            if i == n {
                break ;
            }
            let q = self.by_parameter[i];
            if q == p {
                // The parameter already exists: leave both orderings alone.
                proof {
                    assert(has_param(self.by_metric@, self.by_parameter@[i as int]));
                }
                return false;
            }
            if q > p {
                break ;
            }
            i = i + 1;
        }

        proof {
            // The parameter is nowhere in the ordering, hence in no trial.
            assert forall|j: int| 0 <= j < n implies self.by_parameter@[j] != p by {
                if j >= i {
                    if i < n {
                        if j > i {
                            assert(self.by_parameter@[i as int] < self.by_parameter@[j]);
                        }
                    }
                }
            }
            if has_param(self@, p) {
                let k = choose|k: int| 0 <= k < self@.len() && self@[k].parameter == p;
                assert(self.by_parameter@.contains(self.by_metric@[k].parameter));
            }
        }
        let ghost params0 = self.by_parameter@;
        let ghost trials0 = self.by_metric@;
        self.by_parameter.insert(i, p);
        proof {
            params0.insert_ensures(i as int, p);
        }

        // Find the insertion position in the metric ordering.
        let m = self.by_metric.len();
        let mut b: usize = 0;
        loop
            invariant
                b <= m,
                m == self.by_metric@.len(),
                i <= params0.len(),
                self.by_metric@ == trials0,
                self.by_parameter@ == params0.insert(i as int, p),
                forall|j: int| 0 <= j < b ==> trial_lt(self.by_metric@[j], trial),
            ensures
                b <= m,
                self.by_metric@ == trials0,
                self.by_parameter@ == params0.insert(i as int, p),
                forall|j: int| 0 <= j < b ==> trial_lt(self.by_metric@[j], trial),
                b < m ==> !trial_lt(self.by_metric@[b as int], trial),
            decreases m - b,
        {
            if b == m {
                break ;
            }
            if !trial_below(&self.by_metric[b], &trial) {
                break ;
            }
            b = b + 1;
        }

        proof {
            // The new trial sorts strictly before whatever follows position
            // `b`: equality is impossible because its parameter is fresh.
            if b < trials0.len() {
                assert(trials0.contains(trials0[b as int]));
                if trials0[b as int].parameter == p {
                    assert(has_param(trials0, p));
                    assert(false);
                }
                assert(trial_lt(trial, trials0[b as int]));
            }
        }
        self.by_metric.insert(b, trial);
        proof {
            trials0.insert_ensures(b as int, trial);
            let trials1 = self.by_metric@;
            let params1 = self.by_parameter@;
            assert(trials1 == trials0.insert(b as int, trial));

            // Sortedness of the metric ordering.
            assert forall|x: int, y: int| 0 <= x < y < trials1.len() implies trial_lt(
                trials1[x],
                trials1[y],
            ) by {
                if y < b {
                } else if x < b && y == b {
                } else if x < b && y > b {
                    assert(trials1[y] == trials0[y - 1]);
                    if y - 1 == b {
                        assert(trial_lt(trial, trials0[b as int]));
                        assert(trial_lt(trials1[x], trial));
                    } else {
                        assert(trial_lt(trials0[x], trials0[y - 1]));
                    }
                } else if x == b {
                    assert(trials1[y] == trials0[y - 1]);
                    if y - 1 == b {
                        assert(trial_lt(trial, trials0[b as int]));
                    } else {
                        assert(trial_lt(trial, trials0[b as int]));
                        assert(trial_lt(trials0[b as int], trials0[y - 1]));
                    }
                } else {
                    assert(trials1[x] == trials0[x - 1]);
                    assert(trials1[y] == trials0[y - 1]);
                }
            }

            // Sortedness of the parameter ordering.
            assert forall|x: int, y: int| 0 <= x < y < params1.len() implies params1[x]
                < params1[y] by {
                if y < i {
                } else if x < i && y == i {
                } else if x < i && y > i {
                    assert(params1[y] == params0[y - 1]);
                    if y - 1 == i {
                        assert(params0[i as int] > p);
                    } else {
                        assert(params0[x] < params0[y - 1]);
                    }
                } else if x == i {
                    assert(params1[y] == params0[y - 1]);
                    if y - 1 == i {
                        assert(params0[i as int] > p);
                    } else {
                        assert(params0[i as int] > p);
                        assert(params0[i as int] <= params0[y - 1]);
                    }
                } else {
                    assert(params1[x] == params0[x - 1]);
                    assert(params1[y] == params0[y - 1]);
                }
            }

            // Membership of trials.
            assert forall|t: Trial| trials1.contains(t) <==> (trials0.contains(t) || t
                == trial) by {
                if trials1.contains(t) {
                    let k = choose|k: int| 0 <= k < trials1.len() && trials1[k] == t;
                    if k < b {
                        assert(trials0[k] == t);
                        assert(trials0.contains(t));
                    } else if k == b {
                    } else {
                        assert(trials0[k - 1] == t);
                        assert(trials0.contains(t));
                    }
                }
                if trials0.contains(t) {
                    let k = choose|k: int| 0 <= k < trials0.len() && trials0[k] == t;
                    if k < b {
                        assert(trials1[k] == t);
                    } else {
                        assert(trials1[k + 1] == t);
                    }
                }
                if t == trial {
                    assert(trials1[b as int] == t);
                }
            }

            // Membership of parameters among the trials.
            assert forall|q: i64| has_param(trials1, q) <==> (has_param(trials0, q) || q == p) by {
                if has_param(trials1, q) {
                    let k = choose|k: int| 0 <= k < trials1.len() && trials1[k].parameter == q;
                    if k < b {
                        assert(trials0[k].parameter == q);
                        assert(has_param(trials0, q));
                    } else if k == b {
                    } else {
                        assert(trials0[k - 1].parameter == q);
                        assert(has_param(trials0, q));
                    }
                }
                if has_param(trials0, q) {
                    let k = choose|k: int| 0 <= k < trials0.len() && trials0[k].parameter == q;
                    if k < b {
                        assert(trials1[k].parameter == q);
                        assert(has_param(trials1, q));
                    } else {
                        assert(trials1[k + 1].parameter == q);
                        assert(has_param(trials1, q));
                    }
                }
                if q == p {
                    assert(trials1[b as int].parameter == q);
                }
            }

            // Membership of the parameter ordering.
            assert forall|q: i64| params1.contains(q) <==> (params0.contains(q) || q == p) by {
                if params1.contains(q) {
                    let k = choose|k: int| 0 <= k < params1.len() && params1[k] == q;
                    if k < i {
                        assert(params0[k] == q);
                        assert(params0.contains(q));
                    } else if k == i {
                    } else {
                        assert(params0[k - 1] == q);
                        assert(params0.contains(q));
                    }
                }
                if params0.contains(q) {
                    let k = choose|k: int| 0 <= k < params0.len() && params0[k] == q;
                    if k < i {
                        assert(params1[k] == q);
                    } else {
                        assert(params1[k + 1] == q);
                    }
                }
                if q == p {
                    assert(params1[i as int] == q);
                }
            }

            // The lockstep conditions of well-formedness.
            assert forall|k: int| 0 <= k < trials1.len() implies params1.contains(
                #[trigger] trials1[k].parameter,
            ) by {
                assert(trials1.contains(trials1[k]));
                if trials1[k] == trial {
                } else {
                    assert(trials0.contains(trials1[k]));
                    let x = choose|x: int| 0 <= x < trials0.len() && trials0[x] == trials1[k];
                    assert(params0.contains(trials0[x].parameter));
                }
            }
            assert forall|k: int| 0 <= k < params1.len() implies has_param(
                trials1,
                #[trigger] params1[k],
            ) by {
                assert(params1.contains(params1[k]));
                if params1[k] == p {
                } else {
                    assert(params0.contains(params1[k]));
                    assert(has_param(trials0, params1[k]));
                }
            }

            // Distinctness of parameters.
            assert forall|x: int, y: int| 0 <= x < y < trials1.len() implies trials1[x].parameter
                != trials1[y].parameter by {
                assert(trials1.contains(trials1[x]));
                assert(trials1.contains(trials1[y]));
                if trials1[x] == trial {
                    if trials0.contains(trials1[y]) {
                        if trials1[y].parameter == p {
                            assert(has_param(trials0, p));
                        }
                    }
                } else if trials1[y] == trial {
                    if trials0.contains(trials1[x]) {
                        if trials1[x].parameter == p {
                            assert(has_param(trials0, p));
                        }
                    }
                } else {
                    if x < b && y < b {
                    } else if x < b && y > b {
                        assert(trials1[y] == trials0[y - 1]);
                    } else if x > b {
                        assert(trials1[x] == trials0[x - 1]);
                        assert(trials1[y] == trials0[y - 1]);
                    }
                }
            }
        }
        true
    }

    /// The best (lowest-metric) trial, or `None` when empty.
    pub fn best(&self) -> (r: Option<&Trial>)
        requires
            self.wf(),
        ensures
            self@.len() == 0 <==> r is None,
            r matches Some(t) ==> *t == self@[0] && self@.contains(*t) && forall|x: Trial|
                self@.contains(x) ==> trial_le(*t, x),
    {
        if self.by_metric.len() == 0 {
            None
        } else {
            proof {
                self.lemma_first_is_min();
            }
            Some(&self.by_metric[0])
        }
    }

    /// The worst (highest-metric) trial, or `None` when empty.
    pub fn worst(&self) -> (r: Option<&Trial>)
        requires
            self.wf(),
        ensures
            self@.len() == 0 <==> r is None,
            r matches Some(t) ==> *t == self@[self@.len() - 1] && self@.contains(*t) && forall|
                x: Trial,
            |
                self@.contains(x) ==> trial_le(x, *t),
    {
        let n = self.by_metric.len();
        if n == 0 {
            None
        } else {
            proof {
                self.lemma_last_is_max();
            }
            Some(&self.by_metric[n - 1])
        }
    }

    proof fn lemma_first_is_min(&self)
        requires
            self.wf(),
            self@.len() > 0,
        ensures
            forall|x: Trial| self@.contains(x) ==> trial_le(self@[0], x),
    {
        assert forall|x: Trial| self@.contains(x) implies trial_le(self@[0], x) by {
            let k = choose|k: int| 0 <= k < self@.len() && self@[k] == x;
            if k > 0 {
                assert(trial_lt(self@[0], self@[k]));
            }
        }
    }

    proof fn lemma_last_is_max(&self)
        requires
            self.wf(),
            self@.len() > 0,
        ensures
            forall|x: Trial| self@.contains(x) ==> trial_le(x, self@[self@.len() - 1]),
    {
        assert forall|x: Trial| self@.contains(x) implies trial_le(x, self@[self@.len() - 1]) by {
            let k = choose|k: int| 0 <= k < self@.len() && self@[k] == x;
            if k < self@.len() - 1 {
                assert(trial_lt(self@[k], self@[self@.len() - 1]));
            }
        }
    }

    /// Remove and return the best trial from both orderings.
    pub fn pop_best(&mut self) -> (r: Option<Trial>)
        requires
            old(self).wf(),
        ensures
            final(self).wf(),
            old(self)@.len() == 0 <==> r is None,
            r is None ==> final(self)@ == old(self)@,
            r matches Some(t) ==> t == old(self)@[0] && final(self)@ == old(self)@.remove(0)
                && (forall|x: Trial| old(self)@.contains(x) ==> trial_le(t, x)) && (forall|x: Trial|
                final(self)@.contains(x) <==> (old(self)@.contains(x) && x != t)) && (forall|
                p: i64,
            |
                has_param(final(self)@, p) <==> (has_param(old(self)@, p) && p != t.parameter)),
    {
        if self.by_metric.len() == 0 {
            return None;
        }
        proof {
            self.lemma_first_is_min();
        }
        let t = self.by_metric[0];
        self.remove_at(0);
        Some(t)
    }

    /// Remove and return the worst trial from both orderings.
    pub fn pop_worst(&mut self) -> (r: Option<Trial>)
        requires
            old(self).wf(),
        ensures
            final(self).wf(),
            old(self)@.len() == 0 <==> r is None,
            r is None ==> final(self)@ == old(self)@,
            r matches Some(t) ==> t == old(self)@[old(self)@.len() - 1] && final(self)@ == old(
                self,
            )@.remove(old(self)@.len() - 1) && (forall|x: Trial|
                old(self)@.contains(x) ==> trial_le(x, t)) && (forall|x: Trial|
                final(self)@.contains(x) <==> (old(self)@.contains(x) && x != t)) && (forall|
                p: i64,
            |
                has_param(final(self)@, p) <==> (has_param(old(self)@, p) && p != t.parameter)),
    {
        let n = self.by_metric.len();
        if n == 0 {
            return None;
        }
        proof {
            self.lemma_last_is_max();
        }
        let t = self.by_metric[n - 1];
        self.remove_at(n - 1);
        Some(t)
    }

    /// Remove the trial at position `k` of the metric ordering, and its
    /// parameter from the parameter ordering.
    fn remove_at(&mut self, k: usize)
        requires
            old(self).wf(),
            k < old(self)@.len(),
        ensures
            final(self).wf(),
            final(self)@ == old(self)@.remove(k as int),
            forall|x: Trial|
                final(self)@.contains(x) <==> (old(self)@.contains(x) && x != old(self)@[k as int]),
            forall|p: i64|
                has_param(final(self)@, p) <==> (has_param(old(self)@, p) && p != old(
                    self,
                )@[k as int].parameter),
    {
        let ghost trials0 = self.by_metric@;
        let ghost params0 = self.by_parameter@;
        let t = self.by_metric.remove(k);
        let p = t.parameter;

        // Locate the parameter in the parameter ordering; well-formedness
        // guarantees it is there.
        proof {
            assert(has_param(trials0, trials0[k as int].parameter));
            assert(params0.contains(trials0[k as int].parameter));
        }
        let n = self.by_parameter.len();
        let mut i: usize = 0;
        loop
            invariant
                i <= n,
                n == params0.len(),
                self.by_parameter@ == params0,
                self.by_metric@ == trials0.remove(k as int),
                t == trials0[k as int],
                params0.contains(p),
                p == t.parameter,
                forall|j: int| 0 <= j < i ==> params0[j] != p,
            ensures
                i < n,
                self.by_parameter@ == params0,
                self.by_metric@ == trials0.remove(k as int),
                params0[i as int] == p,
            decreases n - i,
        {
            if i == n {
                proof {
                    let j = choose|j: int| 0 <= j < params0.len() && params0[j] == p;
                    assert(false);
                }
            }
            if self.by_parameter[i] == p {
                break ;
            }
            i = i + 1;
        }
        self.by_parameter.remove(i);

        proof {
            trials0.remove_ensures(k as int);
            params0.remove_ensures(i as int);
            let trials1 = self.by_metric@;
            let params1 = self.by_parameter@;

            // Membership of trials after removal: distinctness of parameters
            // makes trials distinct, so exactly one entry disappears.
            assert forall|x: Trial| trials1.contains(x) <==> (trials0.contains(x) && x != t) by {
                if trials1.contains(x) {
                    let a = choose|a: int| 0 <= a < trials1.len() && trials1[a] == x;
                    if a < k {
                        assert(trials0[a] == x);
                        assert(trials0.contains(x));
                        if x == t {
                            assert(trials0[a].parameter == trials0[k as int].parameter);
                            assert(false);
                        }
                    } else {
                        assert(trials0[a + 1] == x);
                        assert(trials0.contains(x));
                        if x == t {
                            assert(trials0[a + 1].parameter == trials0[k as int].parameter);
                            assert(false);
                        }
                    }
                }
                if trials0.contains(x) && x != t {
                    let a = choose|a: int| 0 <= a < trials0.len() && trials0[a] == x;
                    if a < k {
                        assert(trials1[a] == x);
                        assert(trials1.contains(x));
                    } else if a == k {
                        assert(false);
                    } else {
                        assert(trials1[a - 1] == x);
                        assert(trials1.contains(x));
                    }
                }
            }

            // Membership of parameters among the remaining trials.
            assert forall|q: i64| has_param(trials1, q) <==> (has_param(trials0, q) && q != p) by {
                if has_param(trials1, q) {
                    let a = choose|a: int| 0 <= a < trials1.len() && trials1[a].parameter == q;
                    assert(trials1.contains(trials1[a]));
                    assert(trials0.contains(trials1[a]) && trials1[a] != t);
                    let c = choose|c: int| 0 <= c < trials0.len() && trials0[c] == trials1[a];
                    assert(has_param(trials0, q));
                    if q == p {
                        assert(trials0[c].parameter == trials0[k as int].parameter);
                        assert(c == k);
                        assert(false);
                    }
                }
                if has_param(trials0, q) && q != p {
                    let a = choose|a: int| 0 <= a < trials0.len() && trials0[a].parameter == q;
                    assert(a != k);
                    assert(trials0.contains(trials0[a]));
                    assert(trials1.contains(trials0[a]));
                    let c = choose|c: int| 0 <= c < trials1.len() && trials1[c] == trials0[a];
                    assert(has_param(trials1, q));
                }
            }

            // Membership of the parameter ordering after removal.
            assert forall|q: i64| params1.contains(q) <==> (params0.contains(q) && q != p) by {
                if params1.contains(q) {
                    let a = choose|a: int| 0 <= a < params1.len() && params1[a] == q;
                    if a < i {
                        assert(params0[a] == q);
                        assert(params0.contains(q));
                        if q == p {
                            assert(params0[a] == params0[i as int]);
                            assert(false);
                        }
                    } else {
                        assert(params0[a + 1] == q);
                        assert(params0.contains(q));
                        if q == p {
                            assert(params0[a + 1] == params0[i as int]);
                            assert(false);
                        }
                    }
                }
                if params0.contains(q) && q != p {
                    let a = choose|a: int| 0 <= a < params0.len() && params0[a] == q;
                    if a < i {
                        assert(params1[a] == q);
                        assert(params1.contains(q));
                    } else if a == i {
                        assert(false);
                    } else {
                        assert(params1[a - 1] == q);
                        assert(params1.contains(q));
                    }
                }
            }

            // Sortedness is preserved by removal.
            assert forall|x: int, y: int| 0 <= x < y < trials1.len() implies trial_lt(
                trials1[x],
                trials1[y],
            ) by {
                let x0: int = if x < k {
                    x
                } else {
                    x + 1
                };
                let y0: int = if y < k {
                    y
                } else {
                    y + 1
                };
                assert(trials1[x] == trials0[x0]);
                assert(trials1[y] == trials0[y0]);
            }
            assert forall|x: int, y: int| 0 <= x < y < params1.len() implies params1[x]
                < params1[y] by {
                let x0: int = if x < i {
                    x
                } else {
                    x + 1
                };
                let y0: int = if y < i {
                    y
                } else {
                    y + 1
                };
                assert(params1[x] == params0[x0]);
                assert(params1[y] == params0[y0]);
            }

            // Distinctness is preserved by removal.
            assert forall|x: int, y: int| 0 <= x < y < trials1.len() implies trials1[x].parameter
                != trials1[y].parameter by {
                let x0: int = if x < k {
                    x
                } else {
                    x + 1
                };
                let y0: int = if y < k {
                    y
                } else {
                    y + 1
                };
                assert(trials1[x] == trials0[x0]);
                assert(trials1[y] == trials0[y0]);
            }

            // The lockstep conditions.
            assert forall|a: int| 0 <= a < trials1.len() implies params1.contains(
                #[trigger] trials1[a].parameter,
            ) by {
                assert(trials1.contains(trials1[a]));
                assert(trials0.contains(trials1[a]));
                let c = choose|c: int| 0 <= c < trials0.len() && trials0[c] == trials1[a];
                assert(params0.contains(trials0[c].parameter));
                assert(trials1[a].parameter != p);
            }
            assert forall|a: int| 0 <= a < params1.len() implies has_param(
                trials1,
                #[trigger] params1[a],
            ) by {
                assert(params1.contains(params1[a]));
                assert(params0.contains(params1[a]));
                assert(has_param(trials0, params1[a]));
                assert(params1[a] != p);
            }
        }
    }
}

} // verus!
