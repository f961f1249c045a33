//! Progress tracking: coalescing out-of-order completion notifications
//! into a single monotonically advancing high-water mark.
//!
//! Completions of byte ranges `[start, end)` may arrive in any order. The
//! tracker keeps the ranges that are not yet reachable from the mark and
//! advances the mark exactly as far as the completed prefix extends.
use vstd::prelude::*;

verus! {

/// Whether the point `p` lies inside the half-open interval `iv`.
pub open spec fn in_ival(iv: (u64, u64), p: int) -> bool {
    iv.0 <= p < iv.1
}

/// Merges completion notifications for byte ranges into a high-water mark:
/// the largest position such that everything from the initial position up
/// to it has completed.
pub struct ProgressTracker {
    mark: u64,
    pending: Vec<(u64, u64)>,
}

impl ProgressTracker {
    /// The high-water mark.
    pub closed spec fn spec_mark(self) -> u64 {
        self.mark
    }

    /// Every pending interval is non-empty and starts strictly past the
    /// mark, so the mark is always the exact end of the completed prefix.
    pub closed spec fn wf(self) -> bool {
        forall|i: int|
            0 <= i < self.pending@.len() ==> self.mark < (#[trigger] self.pending@[i]).0
                && self.pending@[i].0 < self.pending@[i].1
    }

    /// Whether the byte at position `p` has been reported complete.
    pub closed spec fn covers(self, p: int) -> bool {
        p < self.mark || exists|i: int|
            0 <= i < self.pending@.len() && in_ival(#[trigger] self.pending@[i], p)
    }

    /// The mark itself is never covered: it is the least incomplete
    /// position at or above the initial one.
    pub proof fn lemma_mark_not_covered(self)
        requires
            self.wf(),
        ensures
            !self.covers(self.spec_mark() as int),
    {
    }

    /// A tracker whose completed prefix ends at `d`.
    pub fn new(d: u64) -> (r: ProgressTracker)
        ensures
            r.wf(),
            r.spec_mark() == d,
            forall|p: int| r.covers(p) <==> p < d,
    {
        ProgressTracker { mark: d, pending: Vec::new() }
    }

    /// The current high-water mark.
    pub fn get(&self) -> (r: u64)
        ensures
            r == self.spec_mark(),
    {
        self.mark
    }

    /// The index of some pending interval that the mark has reached, if
    /// any.
    fn find_reached(&self) -> (r: Option<usize>)
        ensures
            r matches Some(i) ==> i < self.pending@.len() && self.pending@[i as int].0
                <= self.spec_mark(),
            r is None ==> forall|j: int|
                0 <= j < self.pending@.len() ==> (#[trigger] self.pending@[j]).0
                    > self.spec_mark(),
    {
        let mut i: usize = 0;
        while i < self.pending.len()
            invariant
                i <= self.pending@.len(),
                forall|j: int| 0 <= j < i ==> (#[trigger] self.pending@[j]).0 > self.mark,
            decreases self.pending@.len() - i,
        {
            if self.pending[i].0 <= self.mark {
                return Some(i);
            }
            i = i + 1;
        }
        None
    }

    /// Records that the byte range `[start, end)` has completed. Returns
    /// the new mark when the completed prefix grew, and nothing otherwise.
    pub fn done(&mut self, start: u64, end: u64) -> (r: Option<u64>)
        requires
            old(self).wf(),
            start < end,
        ensures
            final(self).wf(),
            final(self).spec_mark() >= old(self).spec_mark(),
            r matches Some(m) ==> m == final(self).spec_mark() && m > old(self).spec_mark(),
            r is None ==> final(self).spec_mark() == old(self).spec_mark(),
            forall|p: int|
                final(self).covers(p) <==> (old(self).covers(p) || start <= p < end),
            start <= old(self).spec_mark() ==> final(self).spec_mark() >= end,
            final(self).spec_mark() > old(self).spec_mark() ==> final(self).covers(
                final(self).spec_mark() - 1,
            ),
    {
        if end <= self.mark {
            proof {
                assert(forall|p: int| start <= p < end ==> old(self).covers(p));
            }
            return None;
        }
        if start > self.mark {
            self.pending.push((start, end));
            proof {
                let n = old(self).pending@.len() as int;
                assert forall|p: int|
                    self.covers(p) <==> (old(self).covers(p) || start <= p < end) by {
                    if old(self).covers(p) && p >= old(self).mark {
                        let i = choose|i: int|
                            0 <= i < old(self).pending@.len() && in_ival(
                                old(self).pending@[i],
                                p,
                            );
                        assert(in_ival(self.pending@[i], p));
                        assert(self.covers(p));
                    }
                    if start <= p < end {
                        assert(in_ival(self.pending@[n], p));
                        assert(self.covers(p));
                    }
                    if self.covers(p) && p >= self.mark {
                        let i = choose|i: int|
                            0 <= i < self.pending@.len() && in_ival(self.pending@[i], p);
                        if i < n {
                            assert(in_ival(old(self).pending@[i], p));
                            assert(old(self).covers(p));
                        } else {
                            assert(self.pending@[i] == (start, end));
                        }
                    }
                }
            }
            return None;
        }
        // start <= mark < end: the completed prefix grows at least to end.
        self.mark = end;
        proof {
            assert(forall|p: int|
                self.covers(p) <==> (old(self).covers(p) || start <= p < end));
        }
        loop
            invariant
                self.mark > old(self).spec_mark(),
                self.mark >= end,
                self.covers(self.mark - 1),
                forall|i: int|
                    0 <= i < self.pending@.len() ==> (#[trigger] self.pending@[i]).0
                        < self.pending@[i].1,
                forall|p: int|
                    self.covers(p) <==> (old(self).covers(p) || start <= p < end),
            ensures
                self.wf(),
                self.mark > old(self).spec_mark(),
                self.mark >= end,
                self.covers(self.mark - 1),
                forall|p: int| self.covers(p) <==> (old(self).covers(p) || start <= p < end),
            decreases self.pending@.len(),
        {
            let found = self.find_reached();
            match found {
                None => {
                    break ;
                },
                Some(i) => {
                    let ghost pre = *self;
                    let (a, b) = self.pending[i];
                    if b > self.mark {
                        self.mark = b;
                    }
                    self.pending.remove(i);
                    proof {
                        let n = pre.pending@.len() as int;
                        assert(forall|p: int| pre.covers(p) ==> self.covers(p)) by {
                            assert(forall|p: int, j: int|
                                0 <= j < n && #[trigger] in_ival(pre.pending@[j], p) ==> (j == i
                                    && p < self.mark) || (j < i && in_ival(
                                    self.pending@[j],
                                    p,
                                )) || (j > i && in_ival(self.pending@[j - 1], p)));
                        }
                        assert(forall|p: int| self.covers(p) ==> pre.covers(p)) by {
                            assert(forall|p: int, j: int|
                                0 <= j < n - 1 && #[trigger] in_ival(self.pending@[j], p) ==> (j
                                    < i && in_ival(pre.pending@[j], p)) || (j >= i && in_ival(
                                    pre.pending@[j + 1],
                                    p,
                                )));
                            assert(forall|p: int|
                                p < self.mark ==> p < pre.mark || in_ival(
                                    pre.pending@[i as int],
                                    p,
                                ));
                        }
                    }
                },
            }
        }
        Some(self.mark)
    }
}

} // verus!
