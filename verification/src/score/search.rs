//! The search's queue: candidates waiting to be split, best bound first, and the floor every one
//! of them must still be able to beat.
//!
//! The floor is the best score found so far, all rules included. A candidate whose bound falls
//! under it can no longer win and leaves the queue; one whose bound is nothing never enters it.

use vstd::prelude::*;

use crate::score::candidate::Candidate;

verus! {

/// A candidate of one rule, with the most any geometry below it can score, in micrometres.
#[derive(Debug, Clone)]
pub struct Solution {
    pub bound: u128,
    pub candidate: Candidate,
    /// Index of the rule, in the list the search runs.
    pub rule: usize,
}

/// Whether a candidate can still raise the floor: its bound reaches it and is something.
pub open spec fn worth(bound: u128, floor: u128) -> bool {
    bound >= floor && bound > 0
}

/// Bounds in increasing order, the best last.
pub open spec fn sorted(s: Seq<Solution>) -> bool {
    forall|i: int, j: int| 0 <= i <= j < s.len() ==> (#[trigger] s[i]).bound <= (#[trigger] s[j]).bound
}

/// Candidates waiting to be split, best bound last, and the floor.
#[derive(Debug)]
pub struct Search {
    queue: Vec<Solution>,
    floor: u128,
}

/// What the search does next with its queue.
#[derive(Debug)]
pub enum Step {
    /// Nothing is left that can beat the floor: the search is over.
    Exhausted,
    /// The best candidate is a single geometry: price and report it.
    Report(Solution),
    /// The best candidate still spans many geometries: split it.
    Split(Solution),
}

impl Search {
    /// The queued candidates, best bound last.
    pub closed spec fn spec_queue(&self) -> Seq<Solution> {
        self.queue@
    }

    pub closed spec fn spec_floor(&self) -> u128 {
        self.floor
    }

    /// What every operation keeps: the queue in bound order, and nothing in it that can no
    /// longer beat the floor.
    pub open spec fn wf(&self) -> bool {
        &&& sorted(self.spec_queue())
        &&& forall|i: int|
            0 <= i < self.spec_queue().len() ==> worth(
                (#[trigger] self.spec_queue()[i]).bound,
                self.spec_floor(),
            )
    }

    /// An empty queue under `floor`.
    pub fn new(floor: u128) -> (s: Search)
        ensures
            s.wf(),
            s.spec_queue().len() == 0,
            s.spec_floor() == floor,
    {
        Search { queue: Vec::new(), floor }
    }

    /// The best score found so far.
    pub fn floor(&self) -> (f: u128)
        ensures
            f == self.spec_floor(),
    {
        self.floor
    }

    /// How many candidates wait.
    pub fn len(&self) -> (n: usize)
        ensures
            n == self.spec_queue().len(),
    {
        self.queue.len()
    }

    /// Queues `s` when it can still beat the floor, after every queued candidate whose bound is
    /// not above its own and before every one whose bound is; drops it otherwise.
    pub fn offer(&mut self, s: Solution)
        requires
            old(self).wf(),
        ensures
            final(self).wf(),
            final(self).spec_floor() == old(self).spec_floor(),
            worth(s.bound, old(self).spec_floor()) ==> exists|k: int|
                0 <= k <= old(self).spec_queue().len() && final(self).spec_queue()
                    == old(self).spec_queue().insert(k, s) && (forall|i: int|
                    0 <= i < k ==> (#[trigger] old(self).spec_queue()[i]).bound <= s.bound) && (
                forall|i: int|
                    k <= i < old(self).spec_queue().len() ==> (
                    #[trigger] old(self).spec_queue()[i]).bound > s.bound),
            !worth(s.bound, old(self).spec_floor()) ==> final(self).spec_queue()
                == old(self).spec_queue(),
    {
        if !(s.bound >= self.floor && s.bound > 0) {
            return;
        }
        // First position whose bound is past `s`'s.
        let mut lo: usize = 0;
        let mut hi: usize = self.queue.len();
        while lo < hi
            invariant
                sorted(self.queue@),
                0 <= lo <= hi <= self.queue@.len(),
                forall|i: int| 0 <= i < lo ==> (#[trigger] self.queue@[i]).bound <= s.bound,
                forall|i: int|
                    hi <= i < self.queue@.len() ==> (#[trigger] self.queue@[i]).bound > s.bound,
            decreases hi - lo,
        {
            let mid = lo + (hi - lo) / 2;
            if self.queue[mid].bound <= s.bound {
                lo = mid + 1;
            } else {
                hi = mid;
            }
        }
        let ghost before = self.queue@;
        self.queue.insert(lo, s);
        proof {
            let after = self.queue@;
            assert(after == before.insert(lo as int, s));
            assert forall|i: int, j: int| 0 <= i <= j < after.len() implies (
            #[trigger] after[i]).bound <= (#[trigger] after[j]).bound by {
                if i < lo && j < lo {
                    assert(after[i] == before[i] && after[j] == before[j]);
                } else if i > lo && j > lo {
                    assert(after[i] == before[i - 1] && after[j] == before[j - 1]);
                } else if i < lo {
                    assert(after[i] == before[i]);
                    if j > lo {
                        assert(after[j] == before[j - 1]);
                    }
                } else if i == lo {
                    if j > lo {
                        assert(after[j] == before[j - 1]);
                    }
                }
            }
            assert forall|i: int| 0 <= i < after.len() implies worth(
                (#[trigger] after[i]).bound,
                self.floor,
            ) by {
                if i < lo {
                    assert(after[i] == before[i]);
                } else if i > lo {
                    assert(after[i] == before[i - 1]);
                }
            }
        }
    }

    /// Takes out the candidate with the best bound, the last queued of them on a tie; `None`
    /// when nothing waits.
    pub fn pop(&mut self) -> (r: Option<Solution>)
        requires
            old(self).wf(),
        ensures
            final(self).wf(),
            final(self).spec_floor() == old(self).spec_floor(),
            r is None <==> old(self).spec_queue().len() == 0,
            r is None ==> final(self).spec_queue() == old(self).spec_queue(),
            r matches Some(s) ==> s == old(self).spec_queue().last()
                && final(self).spec_queue() == old(self).spec_queue().drop_last()
                && forall|i: int| 0 <= i < old(self).spec_queue().len()
                    ==> (#[trigger] old(self).spec_queue()[i]).bound <= s.bound,
    {
        let r = self.queue.pop();
        proof {
            if old(self).queue@.len() > 0 {
                let q = old(self).queue@;
                assert forall|i: int| 0 <= i < q.len() implies (#[trigger] q[i]).bound
                    <= q.last().bound by {
                    assert(q.last() == q[q.len() - 1]);
                }
                assert(self.queue@ =~= q.drop_last());
                assert forall|i: int| 0 <= i < self.queue@.len() implies worth(
                    (#[trigger] self.queue@[i]).bound,
                    self.floor,
                ) by {
                    assert(self.queue@[i] == q[i]);
                }
            }
        }
        r
    }

    /// Takes the best candidate off the queue and says what to do with it: report it when it is
    /// a single geometry, split it otherwise; `Exhausted` when the queue is empty.
    pub fn next(&mut self) -> (r: Step)
        requires
            old(self).wf(),
        ensures
            final(self).wf(),
            final(self).spec_floor() == old(self).spec_floor(),
            r is Exhausted <==> old(self).spec_queue().len() == 0,
            r is Exhausted ==> final(self).spec_queue() == old(self).spec_queue(),
            match r {
                Step::Exhausted => true,
                Step::Report(s) => s == old(self).spec_queue().last() && s.candidate.spec_leaf()
                    && final(self).spec_queue() == old(self).spec_queue().drop_last(),
                Step::Split(s) => s == old(self).spec_queue().last() && !s.candidate.spec_leaf()
                    && final(self).spec_queue() == old(self).spec_queue().drop_last(),
            },
    {
        match self.pop() {
            None => Step::Exhausted,
            Some(s) => if s.candidate.is_leaf() {
                Step::Report(s)
            } else {
                Step::Split(s)
            },
        }
    }

    /// Raises the floor to `score` when it is higher, dropping every candidate that can no longer
    /// beat it; tells whether it rose.
    pub fn raise(&mut self, score: u128) -> (rose: bool)
        requires
            old(self).wf(),
        ensures
            final(self).wf(),
            rose == (score > old(self).spec_floor()),
            final(self).spec_floor() == if rose {
                score
            } else {
                old(self).spec_floor()
            },
            exists|k: int|
                0 <= k <= old(self).spec_queue().len()
                && final(self).spec_queue() == old(self).spec_queue().subrange(k, old(self).spec_queue().len() as int)
                && forall|i: int| 0 <= i < k
                    ==> (#[trigger] old(self).spec_queue()[i]).bound < final(self).spec_floor(),
    {
        if score <= self.floor {
            proof {
                assert(self.queue@ =~= self.queue@.subrange(0, self.queue@.len() as int));
            }
            return false;
        }
        self.floor = score;
        // First position whose bound reaches the new floor.
        let mut lo: usize = 0;
        let mut hi: usize = self.queue.len();
        while lo < hi
            invariant
                sorted(self.queue@),
                0 <= lo <= hi <= self.queue@.len(),
                forall|i: int| 0 <= i < lo ==> (#[trigger] self.queue@[i]).bound < score,
                forall|i: int| hi <= i < self.queue@.len() ==> (#[trigger] self.queue@[i]).bound >= score,
            decreases hi - lo,
        {
            let mid = lo + (hi - lo) / 2;
            if self.queue[mid].bound < score {
                lo = mid + 1;
            } else {
                hi = mid;
            }
        }
        let ghost before = self.queue@;
        let kept = self.queue.split_off(lo);
        self.queue = kept;
        proof {
            let after = self.queue@;
            assert(after =~= before.subrange(lo as int, before.len() as int));
            assert forall|i: int, j: int| 0 <= i <= j < after.len() implies (
            #[trigger] after[i]).bound <= (#[trigger] after[j]).bound by {
                assert(after[i] == before[i + lo] && after[j] == before[j + lo]);
            }
            assert forall|i: int| 0 <= i < after.len() implies worth(
                (#[trigger] after[i]).bound,
                self.floor,
            ) by {
                assert(after[i] == before[i + lo]);
            }
        }
        true
    }
}

/// A queued candidate can still beat the floor, and none waits with a better bound than the one
/// taken out next: the search never splits a candidate that cannot win, and always splits the
/// most promising first.
pub proof fn lemma_queue_order(s: Search, i: int)
    requires
        s.wf(),
        0 <= i < s.spec_queue().len(),
    ensures
        s.spec_queue()[i].bound >= s.spec_floor(),
        s.spec_queue()[i].bound > 0,
        s.spec_queue()[i].bound <= s.spec_queue().last().bound,
{
    assert(s.spec_queue().last() == s.spec_queue()[s.spec_queue().len() - 1]);
    assert(worth(s.spec_queue()[i].bound, s.spec_floor()));
}

} // verus!
