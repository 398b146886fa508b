//! Nodes of the branch-and-bound search: one fix-index range per turnpoint.
//!
//! A split cuts one range at its midpoint, giving two children. Trimming keeps every choice of one
//! fix per range chronological, and every split leaves less to search, so the search ends.

use vstd::prelude::*;

verus! {

/// First fix of a range.
pub open spec fn lo(r: [usize; 2]) -> usize {
    r@[0]
}

/// Last fix of a range.
pub open spec fn hi(r: [usize; 2]) -> usize {
    r@[1]
}

/// Fixes a range spans past its first, nothing once it is empty or a single fix.
pub open spec fn span(r: [usize; 2]) -> nat {
    if hi(r) >= lo(r) {
        (hi(r) - lo(r)) as nat
    } else {
        0
    }
}

/// Latest start among the ranges up to `i`: turnpoint `i` cannot start before an earlier one.
pub open spec fn start_bound(s: Seq<[usize; 2]>, i: int) -> usize
    decreases i,
{
    if i <= 0 {
        lo(s[0])
    } else {
        let p = start_bound(s, i - 1);
        if p >= lo(s[i]) {
            p
        } else {
            lo(s[i])
        }
    }
}

/// Earliest end among the ranges from `i` on: turnpoint `i` cannot end after a later one.
pub open spec fn stop_bound(s: Seq<[usize; 2]>, i: int) -> usize
    decreases s.len() - i,
{
    if i >= s.len() - 1 {
        hi(s[s.len() - 1])
    } else {
        let n = stop_bound(s, i + 1);
        if hi(s[i]) <= n {
            hi(s[i])
        } else {
            n
        }
    }
}

/// `t` is `s` trimmed to what turnpoints flown in order allow.
pub open spec fn is_trimmed(t: Seq<[usize; 2]>, s: Seq<[usize; 2]>) -> bool {
    &&& t.len() == s.len()
    &&& forall|i: int|
        0 <= i < s.len() ==> lo(#[trigger] t[i]) == start_bound(s, i) && hi(t[i]) == stop_bound(
            s,
            i,
        )
}

/// Every range is down to a single fix, or empty.
pub open spec fn collapsed(s: Seq<[usize; 2]>) -> bool {
    forall|i: int| 0 <= i < s.len() ==> hi(#[trigger] s[i]) <= lo(s[i])
}

/// Starts and ends both run in flight order.
pub open spec fn chronological(s: Seq<[usize; 2]>) -> bool {
    forall|i: int, j: int|
        0 <= i <= j < s.len() ==> lo(#[trigger] s[i]) <= lo(#[trigger] s[j]) && hi(s[i]) <= hi(
            s[j],
        )
}

/// What is left to search: the spans of all the ranges, added up.
pub open spec fn width(s: Seq<[usize; 2]>) -> nat
    decreases s.len(),
{
    if s.len() == 0 {
        0
    } else {
        width(s.drop_last()) + span(s.last())
    }
}

/// A node of the search: one fix-index range per turnpoint.
#[derive(Debug, Clone)]
pub struct Candidate {
    pub ranges: Vec<[usize; 2]>,
    /// Whether every range is down to a single fix.
    pub leaf: bool,
}

impl Candidate {
    /// Whether the candidate is down to one fix per range.
    pub open spec fn spec_leaf(&self) -> bool {
        self.leaf
    }

    /// A candidate as the search builds them: at least one range, trimmed, and a leaf exactly
    /// when every range is down to a single fix.
    pub open spec fn wf(&self) -> bool {
        &&& self.ranges@.len() > 0
        &&& chronological(self.ranges@)
        &&& self.spec_leaf() == collapsed(self.ranges@)
    }

    /// Fixes range `i` spans past its first.
    pub fn rlen(&self, i: usize) -> (n: usize)
        requires
            i < self.ranges@.len(),
        ensures
            n == span(self.ranges@[i as int]),
    {
        let r = self.ranges[i];
        r[1].saturating_sub(r[0])
    }

    pub fn is_leaf(&self) -> (b: bool)
        ensures
            b == self.spec_leaf(),
    {
        self.leaf
    }

    /// Whether the first turnpoint can still end where the last one starts: nothing to close yet.
    pub fn first_last_overlap(&self) -> (b: bool)
        requires
            self.ranges@.len() > 0,
        ensures
            b == (hi(self.ranges@[0]) >= lo(self.ranges@.last())),
    {
        let first = self.ranges[0];
        let last = self.ranges[self.ranges.len() - 1];
        first[1] >= last[0]
    }

    /// The first fix of every range: on a leaf, the fixes the candidate flies through.
    pub fn positions(&self) -> (v: Vec<usize>)
        ensures
            v@.len() == self.ranges@.len(),
            forall|i: int| 0 <= i < v@.len() ==> v@[i] == lo(#[trigger] self.ranges@[i]),
    {
        let mut v: Vec<usize> = Vec::new();
        let mut i: usize = 0;
        while i < self.ranges.len()
            invariant
                i <= self.ranges@.len(),
                v@.len() == i,
                forall|k: int| 0 <= k < i ==> v@[k] == lo(#[trigger] self.ranges@[k]),
            decreases self.ranges@.len() - i,
        {
            let r = self.ranges[i];
            v.push(r[0]);
            i = i + 1;
        }
        v
    }

    /// A candidate over `ranges`, trimmed to what turnpoints flown in order allow: turnpoint
    /// `i + 1` cannot start before turnpoint `i` does, turnpoint `i` cannot end after turnpoint
    /// `i + 1` does. Any choice of one fix per range is then chronological.
    pub fn new(ranges: Vec<[usize; 2]>) -> (c: Candidate)
        requires
            ranges@.len() > 0,
        ensures
            is_trimmed(c.ranges@, ranges@),
            c.wf(),
    {
        let ghost s = ranges@;
        let mut ranges = ranges;
        let len = ranges.len() - 1;
        let mut i: usize = 0;
        while i < len
            invariant
                len == s.len() - 1,
                i <= len,
                ranges@.len() == s.len(),
                forall|k: int| 0 <= k <= i ==> lo(#[trigger] ranges@[k]) == start_bound(s, k),
                forall|k: int| i < k < s.len() ==> lo(#[trigger] ranges@[k]) == lo(s[k]),
                forall|k: int| 0 <= k < s.len() ==> hi(#[trigger] ranges@[k]) == hi(s[k]),
            decreases len - i,
        {
            let prev = ranges[i];
            let cur = ranges[i + 1];
            let start = if prev[0] >= cur[0] {
                prev[0]
            } else {
                cur[0]
            };
            ranges.set(i + 1, [start, cur[1]]);
            i = i + 1;
        }
        let mut j: usize = len;
        while j > 0
            invariant
                len == s.len() - 1,
                j <= len,
                ranges@.len() == s.len(),
                forall|k: int| 0 <= k < s.len() ==> lo(#[trigger] ranges@[k]) == start_bound(s, k),
                forall|k: int| j <= k < s.len() ==> hi(#[trigger] ranges@[k]) == stop_bound(s, k),
                forall|k: int| 0 <= k < j ==> hi(#[trigger] ranges@[k]) == hi(s[k]),
            decreases j,
        {
            let cur = ranges[j - 1];
            let next = ranges[j];
            let stop = if cur[1] <= next[1] {
                cur[1]
            } else {
                next[1]
            };
            ranges.set(j - 1, [cur[0], stop]);
            j = j - 1;
        }
        let mut leaf = true;
        let mut k: usize = 0;
        while k < ranges.len()
            invariant
                ranges@.len() == s.len(),
                k <= s.len(),
                leaf == (forall|m: int| 0 <= m < k ==> hi(#[trigger] ranges@[m]) <= lo(ranges@[m])),
            decreases s.len() - k,
        {
            let r = ranges[k];
            if r[1] > r[0] {
                leaf = false;
            }
            k = k + 1;
        }
        proof {
            lemma_trimmed_chronological(ranges@, s);
        }
        Candidate { ranges, leaf }
    }

    /// Root of the search: `turnpoints` ranges, each over the whole window of `size` fixes.
    pub fn initial(size: usize, turnpoints: usize) -> (c: Candidate)
        requires
            size >= 1,
            turnpoints >= 1,
        ensures
            c.wf(),
            c.ranges@.len() == turnpoints,
            forall|i: int|
                0 <= i < turnpoints ==> lo(#[trigger] c.ranges@[i]) == 0 && hi(c.ranges@[i]) == size
                    - 1,
    {
        let mut v: Vec<[usize; 2]> = Vec::new();
        let mut i: usize = 0;
        while i < turnpoints
            invariant
                size >= 1,
                i <= turnpoints,
                v@.len() == i,
                forall|k: int| 0 <= k < i ==> lo(#[trigger] v@[k]) == 0 && hi(v@[k]) == size - 1,
            decreases turnpoints - i,
        {
            v.push([0, size - 1]);
            i = i + 1;
        }
        proof {
            lemma_uniform_bounds(v@, 0, (size - 1) as usize);
        }
        Candidate::new(v)
    }

    /// The range a split cuts when nothing else decides: the widest, the first of them on a tie.
    pub fn widest(&self) -> (best: usize)
        requires
            self.ranges@.len() > 0,
        ensures
            best < self.ranges@.len(),
            forall|i: int|
                0 <= i < self.ranges@.len() ==> span(#[trigger] self.ranges@[i]) <= span(
                    self.ranges@[best as int],
                ),
            forall|i: int|
                0 <= i < best ==> span(#[trigger] self.ranges@[i]) < span(
                    self.ranges@[best as int],
                ),
    {
        let mut best: usize = 0;
        let mut i: usize = 1;
        while i < self.ranges.len()
            invariant
                1 <= i <= self.ranges@.len(),
                best < i,
                forall|k: int|
                    0 <= k < i ==> span(#[trigger] self.ranges@[k]) <= span(
                        self.ranges@[best as int],
                    ),
                forall|k: int|
                    0 <= k < best ==> span(#[trigger] self.ranges@[k]) < span(
                        self.ranges@[best as int],
                    ),
            decreases self.ranges@.len() - i,
        {
            if self.rlen(i) > self.rlen(best) {
                best = i;
            }
            i = i + 1;
        }
        best
    }

    /// Cuts range `best` at its midpoint: the left child keeps its first half, the right child
    /// the rest, each trimmed again.
    pub fn halves(&self, best: usize) -> (children: (Candidate, Candidate))
        requires
            best < self.ranges@.len(),
            lo(self.ranges@[best as int]) + hi(self.ranges@[best as int]) <= usize::MAX,
        ensures
            ({
                let r = self.ranges@[best as int];
                let mid = ((lo(r) + hi(r)) / 2) as usize;
                &&& is_trimmed(
                    children.0.ranges@,
                    self.ranges@.update(best as int, [lo(r), mid]),
                )
                &&& is_trimmed(
                    children.1.ranges@,
                    self.ranges@.update(best as int, [(mid + 1) as usize, hi(r)]),
                )
            }),
            children.0.wf(),
            children.1.wf(),
    {
        let r = self.ranges[best];
        let mid = (r[0] + r[1]) / 2;
        let left = replaced(&self.ranges, best, [r[0], mid]);
        let right = replaced(&self.ranges, best, [mid + 1, r[1]]);
        (Candidate::new(left), Candidate::new(right))
    }
}

/// A copy of `s` with range `i` replaced by `r`.
fn replaced(s: &Vec<[usize; 2]>, i: usize, r: [usize; 2]) -> (t: Vec<[usize; 2]>)
    requires
        i < s@.len(),
    ensures
        t@ == s@.update(i as int, r),
{
    let mut t: Vec<[usize; 2]> = Vec::new();
    let mut k: usize = 0;
    while k < s.len()
        invariant
            k <= s@.len(),
            i < s@.len(),
            t@ == s@.update(i as int, r).take(k as int),
        decreases s@.len() - k,
    {
        if k == i {
            t.push(r);
        } else {
            t.push(s[k]);
        }
        proof {
            assert(s@.update(i as int, r).take(k as int + 1) =~= s@.update(i as int, r).take(
                k as int,
            ).push(s@.update(i as int, r)[k as int]));
        }
        k = k + 1;
    }
    assert(s@.update(i as int, r).take(s@.len() as int) =~= s@.update(i as int, r));
    t
}

proof fn lemma_start_bound_step(s: Seq<[usize; 2]>, i: int)
    requires
        0 <= i < s.len(),
    ensures
        start_bound(s, i) >= lo(s[i]),
        i > 0 ==> start_bound(s, i) >= start_bound(s, i - 1),
{
}

proof fn lemma_stop_bound_step(s: Seq<[usize; 2]>, i: int)
    requires
        0 <= i < s.len(),
    ensures
        stop_bound(s, i) <= hi(s[i]),
        i < s.len() - 1 ==> stop_bound(s, i) <= stop_bound(s, i + 1),
{
}

proof fn lemma_start_bound_mono(s: Seq<[usize; 2]>, i: int, j: int)
    requires
        0 <= i <= j < s.len(),
    ensures
        start_bound(s, i) <= start_bound(s, j),
    decreases j - i,
{
    if i < j {
        lemma_start_bound_mono(s, i, j - 1);
        lemma_start_bound_step(s, j);
    }
}

proof fn lemma_stop_bound_mono(s: Seq<[usize; 2]>, i: int, j: int)
    requires
        0 <= i <= j < s.len(),
    ensures
        stop_bound(s, i) <= stop_bound(s, j),
    decreases j - i,
{
    if i < j {
        lemma_stop_bound_mono(s, i + 1, j);
        lemma_stop_bound_step(s, i);
    }
}

/// Trimmed ranges run in flight order.
proof fn lemma_trimmed_chronological(t: Seq<[usize; 2]>, s: Seq<[usize; 2]>)
    requires
        is_trimmed(t, s),
    ensures
        chronological(t),
{
    assert forall|i: int, j: int| 0 <= i <= j < t.len() implies lo(#[trigger] t[i]) <= lo(
        #[trigger] t[j],
    ) && hi(t[i]) <= hi(t[j]) by {
        lemma_start_bound_mono(s, i, j);
        lemma_stop_bound_mono(s, i, j);
    }
}

/// Ranges all alike trim to themselves.
proof fn lemma_uniform_bounds(s: Seq<[usize; 2]>, a: usize, b: usize)
    requires
        s.len() > 0,
        forall|k: int| 0 <= k < s.len() ==> lo(#[trigger] s[k]) == a && hi(s[k]) == b,
    ensures
        forall|k: int| 0 <= k < s.len() ==> start_bound(s, k) == a && stop_bound(s, k) == b,
{
    assert forall|k: int| 0 <= k < s.len() implies start_bound(s, k) == a by {
        lemma_start_uniform(s, a, b, k);
    }
    assert forall|k: int| 0 <= k < s.len() implies stop_bound(s, k) == b by {
        lemma_stop_uniform(s, a, b, k);
    }
}

proof fn lemma_start_uniform(s: Seq<[usize; 2]>, a: usize, b: usize, k: int)
    requires
        0 <= k < s.len(),
        forall|m: int| 0 <= m < s.len() ==> lo(#[trigger] s[m]) == a && hi(s[m]) == b,
    ensures
        start_bound(s, k) == a,
    decreases k,
{
    if k > 0 {
        lemma_start_uniform(s, a, b, k - 1);
    }
}

proof fn lemma_stop_uniform(s: Seq<[usize; 2]>, a: usize, b: usize, k: int)
    requires
        0 <= k < s.len(),
        forall|m: int| 0 <= m < s.len() ==> lo(#[trigger] s[m]) == a && hi(s[m]) == b,
    ensures
        stop_bound(s, k) == b,
    decreases s.len() - k,
{
    if k < s.len() - 1 {
        lemma_stop_uniform(s, a, b, k + 1);
    }
}

/// Trimming never widens a range.
proof fn lemma_trim_narrows(t: Seq<[usize; 2]>, x: Seq<[usize; 2]>)
    requires
        is_trimmed(t, x),
    ensures
        forall|i: int| 0 <= i < x.len() ==> span(#[trigger] t[i]) <= span(x[i]),
{
    assert forall|i: int| 0 <= i < x.len() implies span(#[trigger] t[i]) <= span(x[i]) by {
        lemma_start_bound_step(x, i);
        lemma_stop_bound_step(x, i);
    }
}

/// Narrower ranges, one by one, leave less to search; strictly less if one is strictly narrower.
proof fn lemma_width_le(a: Seq<[usize; 2]>, b: Seq<[usize; 2]>, k: int)
    requires
        a.len() == b.len(),
        forall|i: int| 0 <= i < a.len() ==> span(#[trigger] a[i]) <= span(b[i]),
        0 <= k < a.len() ==> span(a[k]) < span(b[k]),
    ensures
        width(a) <= width(b),
        0 <= k < a.len() ==> width(a) < width(b),
    decreases a.len(),
{
    if a.len() > 0 {
        let n = a.len() - 1;
        assert forall|i: int| 0 <= i < n implies span(#[trigger] a.drop_last()[i]) <= span(
            b.drop_last()[i],
        ) by {
            assert(a.drop_last()[i] == a[i] && b.drop_last()[i] == b[i]);
        }
        if 0 <= k < n {
            assert(a.drop_last()[k] == a[k] && b.drop_last()[k] == b[k]);
        }
        lemma_width_le(a.drop_last(), b.drop_last(), k);
        assert(span(a.last()) <= span(b.last()));
    }
}

/// Splitting a range that still spans something leaves each child less to search than its
/// parent, so the search always ends.
pub proof fn lemma_split_narrows(s: Seq<[usize; 2]>, best: int, left: Seq<[usize; 2]>, right: Seq<
    [usize; 2],
>)
    requires
        0 <= best < s.len(),
        span(s[best]) > 0,
        lo(s[best]) + hi(s[best]) <= usize::MAX,
        is_trimmed(
            left,
            s.update(best, [lo(s[best]), ((lo(s[best]) + hi(s[best])) / 2) as usize]),
        ),
        is_trimmed(
            right,
            s.update(best, [(((lo(s[best]) + hi(s[best])) / 2) + 1) as usize, hi(s[best])]),
        ),
    ensures
        width(left) < width(s),
        width(right) < width(s),
{
    let r = s[best];
    let mid = ((lo(r) + hi(r)) / 2) as usize;
    let l = [lo(r), mid];
    let h = [(mid + 1) as usize, hi(r)];
    let xl = s.update(best, l);
    let xr = s.update(best, h);
    assert(lo(l) == lo(r) && hi(l) == mid);
    assert(lo(h) == mid + 1 && hi(h) == hi(r));
    lemma_trim_narrows(left, xl);
    lemma_trim_narrows(right, xr);
    assert forall|i: int| 0 <= i < s.len() implies span(#[trigger] xl[i]) <= span(s[i]) by {}
    assert forall|i: int| 0 <= i < s.len() implies span(#[trigger] xr[i]) <= span(s[i]) by {}
    lemma_width_le(xl, s, best);
    lemma_width_le(xr, s, best);
    lemma_width_le(left, xl, -1);
    lemma_width_le(right, xr, -1);
}

} // verus!
