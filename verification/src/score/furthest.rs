//! What the furthest-point scans of one anchor found: for each fix found furthest, how far the
//! scan that found it reached.
//!
//! Positions count from the end of the window the scan grows away from, so both directions grow
//! from 0. A distance is carried as a code that orders as the distance does.

use vstd::prelude::*;

verus! {

/// A scan: the fix it found furthest, the bound it covered, how far that fix lies.
#[derive(Debug, Clone, Copy, PartialEq, Eq)]
pub struct Reach {
    pub start: usize,
    pub stop: usize,
    pub distance: u64,
}

/// Entries in increasing order of the fix found, each fix once.
pub open spec fn ordered(q: Seq<Reach>) -> bool {
    forall|i: int, j: int| 0 <= i < j < q.len() ==> (#[trigger] q[i]).start < (#[trigger] q[j]).start
}

/// `k` splits `q` into the entries found at or before `x` and those found after it.
pub open spec fn splits_at(q: Seq<Reach>, x: usize, k: int) -> bool {
    &&& 0 <= k <= q.len()
    &&& forall|i: int| 0 <= i < k ==> (#[trigger] q[i]).start <= x
    &&& forall|i: int| k <= i < q.len() ==> (#[trigger] q[i]).start > x
}

/// `p` is where a scan that found `s` goes among the entries of `q`, none of which found it.
pub open spec fn slot(q: Seq<Reach>, s: usize, p: int) -> bool {
    &&& 0 <= p <= q.len()
    &&& forall|i: int| 0 <= i < p ==> (#[trigger] q[i]).start < s
    &&& forall|i: int| p <= i < q.len() ==> (#[trigger] q[i]).start > s
}

/// The scans of one anchor.
#[derive(Debug)]
pub struct FurthestList {
    entries: Vec<Reach>,
}

impl FurthestList {
    pub closed spec fn spec_entries(&self) -> Seq<Reach> {
        self.entries@
    }

    pub open spec fn wf(&self) -> bool {
        ordered(self.spec_entries())
    }

    pub fn new() -> (l: FurthestList)
        ensures
            l.wf(),
            l.spec_entries().len() == 0,
    {
        FurthestList { entries: Vec::new() }
    }

    /// How many entries found a fix at or before `x`.
    fn count_le(&self, x: usize) -> (k: usize)
        requires
            self.wf(),
        ensures
            splits_at(self.spec_entries(), x, k as int),
    {
        let mut lo: usize = 0;
        let mut hi: usize = self.entries.len();
        while lo < hi
            invariant
                ordered(self.entries@),
                0 <= lo <= hi <= self.entries@.len(),
                forall|i: int| 0 <= i < lo ==> (#[trigger] self.entries@[i]).start <= x,
                forall|i: int| hi <= i < self.entries@.len() ==> (#[trigger] self.entries@[i]).start > x,
            decreases hi - lo,
        {
            let mid = lo + (hi - lo) / 2;
            if self.entries[mid].start <= x {
                proof {
                    assert forall|i: int| 0 <= i < mid + 1 implies (#[trigger] self.entries@[i]).start
                        <= x by {
                        if i < mid {
                            assert(self.entries@[i].start < self.entries@[mid as int].start);
                        }
                    }
                }
                lo = mid + 1;
            } else {
                proof {
                    assert forall|i: int| mid <= i < self.entries@.len() implies (
                    #[trigger] self.entries@[i]).start > x by {
                        if i > mid {
                            assert(self.entries@[mid as int].start < self.entries@[i].start);
                        }
                    }
                }
                hi = mid;
            }
        }
        lo
    }

    /// The scan found closest to `stop` at or before it, the likeliest to cover it, and whether
    /// it does; `None` when every scan found a fix past `stop`.
    pub fn get(&self, stop: usize) -> (r: Option<(Reach, bool)>)
        requires
            self.wf(),
        ensures
            match r {
                None => forall|i: int|
                    0 <= i < self.spec_entries().len() ==> (#[trigger] self.spec_entries()[i]).start
                        > stop,
                Some((e, covered)) => exists|k: int|
                    #![trigger self.spec_entries()[k]]
                    splits_at(self.spec_entries(), stop, k + 1) && self.spec_entries()[k] == e
                        && covered == (stop <= e.stop),
            },
    {
        let k = self.count_le(stop);
        if k == 0 {
            return None;
        }
        let e = self.entries[k - 1];
        Some((e, stop <= e.stop))
    }

    /// Records a scan over positions up to `stop` that found `start` at `distance`. An earlier
    /// scan whose fix at or before `stop` lies further is adopted instead, its bound stretched
    /// over the range just scanned; so is an entry that found the same fix. Returns the furthest
    /// fix over the whole range and its distance.
    pub fn insert(&mut self, start: usize, stop: usize, distance: u64) -> (r: (usize, u64))
        requires
            old(self).wf(),
        ensures
            final(self).wf(),
            exists|k: int|
                splits_at(old(self).spec_entries(), stop, k) && r == (if k > 0 && old(
                    self,
                ).spec_entries()[k - 1].distance > distance {
                    (old(self).spec_entries()[k - 1].start, old(self).spec_entries()[k - 1].distance)
                } else {
                    (start, distance)
                }),
            (exists|i: int|
                0 <= i < old(self).spec_entries().len() && (#[trigger] old(self).spec_entries()[i]).start
                    == r.0) ==> exists|i: int|
                0 <= i < old(self).spec_entries().len() && (#[trigger] old(self).spec_entries()[i]).start
                    == r.0 && final(self).spec_entries() == old(self).spec_entries().update(
                    i,
                    Reach {
                        start: r.0,
                        stop: if stop >= old(self).spec_entries()[i].stop {
                            stop
                        } else {
                            old(self).spec_entries()[i].stop
                        },
                        distance: old(self).spec_entries()[i].distance,
                    },
                ),
            (forall|i: int|
                0 <= i < old(self).spec_entries().len() ==> (#[trigger] old(self).spec_entries()[i]).start
                    != r.0) ==> exists|p: int|
                slot(old(self).spec_entries(), r.0, p) && final(self).spec_entries() == old(
                    self,
                ).spec_entries().insert(p, Reach { start: r.0, stop, distance: r.1 }),
    {
        let ghost q = self.entries@;
        let k = self.count_le(stop);
        let (s, d) = if k > 0 && self.entries[k - 1].distance > distance {
            (self.entries[k - 1].start, self.entries[k - 1].distance)
        } else {
            (start, distance)
        };
        // Where a scan that found `s` sits, or goes.
        let mut lo: usize = 0;
        let mut hi: usize = self.entries.len();
        while lo < hi
            invariant
                self.entries@ == q,
                ordered(q),
                0 <= lo <= hi <= q.len(),
                forall|i: int| 0 <= i < lo ==> (#[trigger] q[i]).start < s,
                forall|i: int| hi <= i < q.len() ==> (#[trigger] q[i]).start >= s,
            decreases hi - lo,
        {
            let mid = lo + (hi - lo) / 2;
            if self.entries[mid].start < s {
                proof {
                    assert forall|i: int| 0 <= i < mid + 1 implies (#[trigger] q[i]).start < s by {
                        if i < mid {
                            assert(q[i].start < q[mid as int].start);
                        }
                    }
                }
                lo = mid + 1;
            } else {
                proof {
                    assert forall|i: int| mid <= i < q.len() implies (#[trigger] q[i]).start >= s by {
                        if i > mid {
                            assert(q[mid as int].start < q[i].start);
                        }
                    }
                }
                hi = mid;
            }
        }
        if lo < self.entries.len() && self.entries[lo].start == s {
            let e = self.entries[lo];
            let grown = if stop >= e.stop {
                stop
            } else {
                e.stop
            };
            self.entries.set(lo, Reach { start: e.start, stop: grown, distance: e.distance });
            proof {
                assert forall|i: int, j: int| 0 <= i < j < self.entries@.len() implies (
                #[trigger] self.entries@[i]).start < (#[trigger] self.entries@[j]).start by {
                    assert(self.entries@[i].start == q[i].start);
                    assert(self.entries@[j].start == q[j].start);
                }
            }
        } else {
            proof {
                assert forall|i: int| lo <= i < q.len() implies (#[trigger] q[i]).start > s by {}
                assert forall|i: int| 0 <= i < q.len() implies (#[trigger] q[i]).start != s by {}
            }
            self.entries.insert(lo, Reach { start: s, stop, distance: d });
            proof {
                let after = self.entries@;
                assert(after == q.insert(lo as int, Reach { start: s, stop, distance: d }));
                assert forall|i: int, j: int| 0 <= i < j < after.len() implies (
                #[trigger] after[i]).start < (#[trigger] after[j]).start by {
                    if j < lo {
                        assert(after[i] == q[i] && after[j] == q[j]);
                    } else if i > lo {
                        assert(after[i] == q[i - 1] && after[j] == q[j - 1]);
                    } else if i < lo {
                        assert(after[i] == q[i]);
                        if j > lo {
                            assert(after[j] == q[j - 1]);
                        }
                    } else {
                        assert(after[j] == q[j - 1]);
                    }
                }
                assert(slot(q, s, lo as int));
            }
        }
        (s, d)
    }
}

} // verus!
