//! The two ends of a turnpoint chain an open distance hangs a leg off.

use vstd::prelude::*;

verus! {

/// Which end of the turnpoint chain a leg hangs off, and so which way its scan runs.
#[derive(Debug, Clone, Copy, PartialEq, Eq)]
pub enum Leg {
    Entry,
    Exit,
}

pub open spec fn leg_index(leg: Leg) -> usize {
    match leg {
        Leg::Entry => 0,
        Leg::Exit => 1,
    }
}

impl Leg {
    /// Slot of this leg in a per-direction pair: the entry first.
    pub fn index(self) -> (i: usize)
        ensures
            i == leg_index(self),
            i < 2,
    {
        match self {
            Leg::Entry => 0,
            Leg::Exit => 1,
        }
    }

    /// Fix a scan for this leg stops at, out of the turnpoint range the leg hangs off: the edge
    /// facing it, the start for the entry and the end for the exit.
    pub fn tp(self, range: &[usize; 2]) -> (f: usize)
        ensures
            f == range@[leg_index(self) as int],
    {
        range[self.index()]
    }
}

} // verus!
