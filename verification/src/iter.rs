//! Adjacency windowing: for every position of an ascending sequence, the
//! variant of [`Triple`] that lists which of its neighbours exist.
//!
//! The windows of a sequence of length `n` form a sequence of `n + 2` tagged
//! items (none for an empty input): the run starts before the first element,
//! where only a right neighbour exists, and ends past the last one, where
//! only a left neighbour exists.

use vstd::prelude::*;

verus! {

/// A 3-tuple window over a sequence, including the partial windows at the
/// boundaries.
#[derive(Copy, Clone, Debug, PartialEq, Eq, Structural)]
pub enum Triple<T> {
    /// Only a right neighbour exists.
    Right(T),
    /// The centre and its right neighbour, at the left boundary.
    MiddleRight(T, T),
    /// Left neighbour, centre, and right neighbour: an interior position.
    Full(T, T, T),
    /// The left neighbour and the centre, at the right boundary.
    LeftMiddle(T, T),
    /// Only a left neighbour exists.
    Left(T),
    /// A lone centre, for a one-element sequence.
    Middle(T),
}

/// How many windows a sequence of the given length produces.
pub open spec fn triples_len<T>(s: Seq<T>) -> nat {
    if s.len() == 0 {
        0
    } else {
        s.len() + 2
    }
}

/// The window at position `i` of the run over `s`.
pub open spec fn window_at<T>(s: Seq<T>, i: int) -> Triple<T>
    recommends
        0 <= i < triples_len(s),
{
    let n = s.len() as int;
    if i == 0 {
        Triple::Right(s[0])
    } else if n == 1 {
        if i == 1 {
            Triple::Middle(s[0])
        } else {
            Triple::Left(s[0])
        }
    } else if i == 1 {
        Triple::MiddleRight(s[0], s[1])
    } else if i < n {
        Triple::Full(s[i - 2], s[i - 1], s[i])
    } else if i == n {
        Triple::LeftMiddle(s[n - 2], s[n - 1])
    } else {
        Triple::Left(s[n - 1])
    }
}

/// The full run of windows over `s`.
pub open spec fn triples_seq<T>(s: Seq<T>) -> Seq<Triple<T>> {
    Seq::new(triples_len(s), |i: int| window_at(s, i))
}

/// Restartable producer of the windows of a sequence, one per call of
/// [`Triples::next`].
pub struct Triples<T> {
    /// The underlying ascending items.
    pub items: Vec<T>,
    /// Position of the next window within the run.
    pub pos: usize,
}

impl<T: Copy> Triples<T> {
    /// Start a fresh run of windows over `items`.
    pub fn new(items: Vec<T>) -> (r: Triples<T>)
        ensures
            r.items@ == items@,
            r.pos == 0,
    {
        Triples { items, pos: 0 }
    }

    /// The next window, or `None` once the run is over.
    pub fn next(&mut self) -> (r: Option<Triple<T>>)
        requires
            old(self).items@.len() < 0x4000_0000,
        ensures
            final(self).items@ == old(self).items@,
            old(self).pos < triples_len(old(self).items@) ==> r == Some(
                window_at(old(self).items@, old(self).pos as int),
            ) && final(self).pos == old(self).pos + 1,
            old(self).pos >= triples_len(old(self).items@) ==> r == None::<Triple<T>>
                && final(self).pos == old(self).pos,
    {
        let n = self.items.len();
        if n == 0 || (self.pos >= n && self.pos - n >= 2) {
            return None;
        }
        let i = self.pos;
        self.pos = i + 1;
        if i == 0 {
            Some(Triple::Right(self.items[0]))
        } else if n == 1 {
            if i == 1 {
                Some(Triple::Middle(self.items[0]))
            } else {
                Some(Triple::Left(self.items[0]))
            }
        } else if i == 1 {
            Some(Triple::MiddleRight(self.items[0], self.items[1]))
        } else if i < n {
            Some(Triple::Full(self.items[i - 2], self.items[i - 1], self.items[i]))
        } else if i == n {
            Some(Triple::LeftMiddle(self.items[n - 2], self.items[n - 1]))
        } else {
            Some(Triple::Left(self.items[n - 1]))
        }
    }

    /// The remaining windows, collected in order.
    pub fn collect(&mut self) -> (r: Vec<Triple<T>>)
        requires
            old(self).pos == 0,
            old(self).items@.len() < 0x4000_0000,
        ensures
            r@ == triples_seq(old(self).items@),
            final(self).items@ == old(self).items@,
    {
        let ghost all = triples_seq(self.items@);
        let mut r: Vec<Triple<T>> = Vec::new();
        loop
            invariant
                self.items@ == old(self).items@,
                self.items@.len() < 0x4000_0000,
                self.pos == r.len(),
                self.pos <= triples_len(self.items@),
                r@ == all.take(self.pos as int),
                all == triples_seq(self.items@),
            ensures
                r@ == all,
                self.items@ == old(self).items@,
            decreases triples_len(self.items@) - self.pos,
        {
            let ghost pos0 = self.pos;
            match self.next() {
                Some(t) => {
                    r.push(t);
                    proof {
                        assert(all.take(pos0 as int + 1) == all.take(pos0 as int).push(
                            all[pos0 as int],
                        ));
                    }
                },
                None => {
                    proof {
                        assert(all.take(pos0 as int) == all);
                    }
                    break ;
                },
            }
        }
        r
    }
}

/// Endless arithmetic progression: each call of [`RangeStepFrom::next`]
/// yields the current item and advances it by the step.
pub struct RangeStepFrom {
    /// The item the next call yields.
    pub item: i64,
    /// Distance between consecutive items.
    pub step: i64,
}

/// Start an arithmetic progression at `start` with the given step.
pub fn range_step_from(start: i64, step: i64) -> (r: RangeStepFrom)
    ensures
        r.item == start,
        r.step == step,
{
    RangeStepFrom { item: start, step }
}

impl RangeStepFrom {
    /// Yield the current item and advance by the step.
    pub fn next(&mut self) -> (r: i64)
        requires
            i64::MIN <= old(self).item + old(self).step <= i64::MAX,
        ensures
            r == old(self).item,
            final(self).item == old(self).item + old(self).step,
            final(self).step == old(self).step,
    {
        let r = self.item;
        self.item = self.item + self.step;
        r
    }
}

/// All integers of `start..=end`, in ascending order.
pub fn range_inclusive(start: i64, end: i64) -> (r: Vec<i64>)
    requires
        end - start < 0x8000_0000,
        end < i64::MAX,
    ensures
        start > end ==> r@.len() == 0,
        start <= end ==> r@.len() == end - start + 1,
        forall|i: int| 0 <= i < r@.len() ==> r@[i] == start + i,
{
    let mut r: Vec<i64> = Vec::new();
    if start > end {
        return r;
    }
    let mut item = start;
    loop
        invariant
            start <= item <= end + 1,
            end < 0x8000_0000 + start,
            end < i64::MAX,
            r@.len() == item - start,
            forall|i: int| 0 <= i < r@.len() ==> r@[i] == start + i,
        ensures
            item == end + 1,
            r@.len() == end - start + 1,
            forall|i: int| 0 <= i < r@.len() ==> r@[i] == start + i,
        decreases end + 1 - item,
    {
        if item > end {
            break ;
        }
        r.push(item);
        item = item + 1;
    }
    r
}

} // verus!
