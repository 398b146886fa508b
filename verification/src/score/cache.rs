//! Bounding-box cache, keyed on the inclusive `(start, end)` fix-index range.
//!
//! Building a box is linear in the range length and the search keeps revisiting the same ranges as
//! it splits neighbouring candidates.

use rustc_hash::FxHashMap;
use vstd::prelude::*;

use crate::utils::geometry::{bounds, BBox};

verus! {

/// The hasher of the boxes' map.
#[verifier::external_type_specification]
#[verifier::external_body]
pub struct ExFxBuildHasher(rustc_hash::FxBuildHasher);

/// An inclusive range of fix indices.
pub type FixRange = (usize, usize);

/// The two corners of a box, southwest then northeast.
pub type Corners = ([i64; 2], [i64; 2]);

/// Corners of boxes, keyed by the inclusive range of fixes each one covers.
pub type HeldBoxes = FxHashMap<FixRange, Corners>;

/// Corners of boxes by range, as a mathematical map.
pub type HeldView = Map<FixRange, Corners>;

/// What a map of boxes holds: the corners stored under each range.
pub uninterp spec fn boxes_held(m: HeldBoxes) -> HeldView;

/// `FxHashMap::default`: a map that holds nothing.
#[verifier::external_body]
fn held_none() -> (held: HeldBoxes)
    ensures
        boxes_held(held) == HeldView::empty(),
{
    FxHashMap::default()
}

/// `HashMap::get`: the corners stored under `key`, if any.
#[verifier::external_body]
fn held_get(m: &HeldBoxes, key: FixRange) -> (r: Option<Corners>)
    ensures
        r == (if boxes_held(*m).contains_key(key) {
            Some(boxes_held(*m)[key])
        } else {
            None
        }),
{
    m.get(&key).copied()
}

/// `HashMap::insert`: stores `value` under `key`, replacing what was there.
#[verifier::external_body]
fn held_insert(
    m: &mut HeldBoxes,
    key: FixRange,
    value: Corners,
)
    ensures
        boxes_held(*final(m)) == boxes_held(*old(m)).insert(key, value),
{
    m.insert(key, value);
}

/// `HashMap::len`: how many ranges are stored.
#[verifier::external_body]
fn held_len(m: &HeldBoxes) -> (n: usize)
    ensures
        n == boxes_held(*m).len(),
{
    m.len()
}

/// Boxes of ranges of one track, each computed once.
#[derive(Debug)]
pub struct BoxCache {
    boxes: HeldBoxes,
}

impl View for BoxCache {
    type V = HeldView;

    closed spec fn view(&self) -> Self::V {
        boxes_held(self.boxes)
    }
}

/// Every range stored lies in `p` and holds the box of its fixes.
pub open spec fn covers(held: HeldView, p: Seq<[i64; 2]>) -> bool {
    forall|k: FixRange|
        #[trigger] held.contains_key(k) ==> k.0 <= k.1 < p.len() && bounds(
            BBox { min: held[k].0, max: held[k].1 },
            p.subrange(k.0 as int, k.1 + 1),
        )
}

/// What one call with `key` does to what a cache of `p`'s boxes holds: a range seen before leaves
/// it as it was; a new range, which must lie in `p`, is stored with the box of its fixes.
pub open spec fn recorded(before: HeldView, after: HeldView, p: Seq<[i64; 2]>, key: FixRange) -> bool {
    if before.contains_key(key) {
        after == before
    } else {
        key.0 <= key.1 < p.len() && exists|c: Corners|
            after == before.insert(key, c) && bounds(
                BBox { min: c.0, max: c.1 },
                p.subrange(key.0 as int, key.1 + 1),
            )
    }
}

/// A cache built from nothing by calls on one track holds, after any history of calls, only
/// exact boxes of that track's ranges; so every later call answers the exact box of its range,
/// whatever calls came before.
pub proof fn lemma_history_covers(p: Seq<[i64; 2]>, states: Seq<HeldView>, keys: Seq<FixRange>)
    requires
        states.len() == keys.len() + 1,
        states[0] == HeldView::empty(),
        forall|i: int|
            0 <= i < keys.len() ==> recorded(#[trigger] states[i], states[i + 1], p, keys[i]),
    ensures
        forall|i: int| 0 <= i < states.len() ==> covers(#[trigger] states[i], p),
    decreases keys.len(),
{
    if keys.len() > 0 {
        let n = keys.len() - 1;
        lemma_history_covers(p, states.drop_last(), keys.drop_last());
        assert forall|i: int| 0 <= i < states.len() implies covers(#[trigger] states[i], p) by {
            if i < states.len() - 1 {
                assert(states[i] == states.drop_last()[i]);
            } else {
                let before = states[n];
                assert(states.drop_last()[n] == before);
                assert(covers(before, p));
                assert(recorded(states[n], states[n + 1], p, keys[n]));
                let key = keys[n];
                if !before.contains_key(key) {
                    let c = choose|c: Corners|
                        states[i] == before.insert(key, c) && bounds(
                            BBox { min: c.0, max: c.1 },
                            p.subrange(key.0 as int, key.1 + 1),
                        );
                    assert forall|k: FixRange| #[trigger] states[i].contains_key(k) implies k.0
                        <= k.1 < p.len() && bounds(
                        BBox { min: states[i][k].0, max: states[i][k].1 },
                        p.subrange(k.0 as int, k.1 + 1),
                    ) by {
                        if k != key {
                            assert(before.contains_key(k));
                        }
                    }
                }
            }
        }
    }
}

impl BoxCache {
    /// A cache holding nothing.
    pub fn new() -> (c: BoxCache)
        ensures
            c@ == HeldView::empty(),
    {
        BoxCache { boxes: held_none() }
    }

    /// Get-or-compute the bounding box covering the fixes of `p` in `range`, both ends included.
    /// A range seen before answers what was stored for it; a new one is measured and stored.
    pub fn bbox(&mut self, p: &[[i64; 2]], range: &[usize; 2]) -> (b: BBox<[i64; 2]>)
        requires
            range[0] <= range[1] < p@.len(),
        ensures
            old(self)@.contains_key((range[0], range[1])) ==> final(self)@ == old(self)@ && (
            b.min,
            b.max,
            ) == old(self)@[(range[0], range[1])],
            !old(self)@.contains_key((range[0], range[1])) ==> bounds(
                b,
                p@.subrange(range[0] as int, range[1] + 1),
            ) && final(self)@ == old(self)@.insert((range[0], range[1]), (b.min, b.max)),
            recorded(old(self)@, final(self)@, p@, (range[0], range[1])),
            covers(old(self)@, p@) ==> covers(final(self)@, p@) && bounds(
                b,
                p@.subrange(range[0] as int, range[1] + 1),
            ),
    {
        let key = (range[0], range[1]);
        if let Some((min, max)) = held_get(&self.boxes, key) {
            return BBox { min, max };
        }
        let n = p.len();
        assert(range[1] < n);
        let fixes = &p[range[0]..range[1] + 1];
        let found: Option<BBox<[i64; 2]>> = BBox::from_items(fixes);
        let b = found.unwrap();
        let ghost before = self@;
        held_insert(&mut self.boxes, key, (b.min, b.max));
        proof {
            assert(fixes@ == p@.subrange(range[0] as int, range[1] + 1));
            if covers(before, p@) {
                assert forall|k: FixRange| #[trigger] self@.contains_key(k) implies k.0 <= k.1
                    < p@.len() && bounds(
                    BBox { min: self@[k].0, max: self@[k].1 },
                    p@.subrange(k.0 as int, k.1 + 1),
                ) by {
                    if k != key {
                        assert(before.contains_key(k));
                    }
                }
            }
        }
        b
    }

    /// How many ranges are stored.
    pub fn len(&self) -> (n: usize)
        ensures
            n == self@.len(),
    {
        held_len(&self.boxes)
    }
}

} // verus!
