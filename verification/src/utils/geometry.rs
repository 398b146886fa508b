//! Geometry on integer coordinates: points, the antimeridian, bounding boxes.
//!
//! A coordinate is a whole number of thousandths of an arc minute, as an IGC file writes it: a
//! degree is 60 000 of them, half a turn [`HALF_TURN`]. A plain point is a `[y, x]` pair, so a
//! geographic one reads `[lat, lon]`.

use vstd::prelude::*;

use crate::decode::fix::Fix;

verus! {

/// Half a turn of longitude, 180 degrees.
pub const HALF_TURN: i64 = 10_800_000;

/// A whole turn of longitude, 360 degrees.
pub const FULL_TURN: i64 = 21_600_000;

// ============= Points =============

/// Read access to 2D coordinates.
pub trait PointCoords {
    spec fn spec_x(&self) -> int;

    spec fn spec_y(&self) -> int;

    /// X coordinate, the longitude of a geographic point.
    fn x(&self) -> (r: i64)
        ensures
            r == self.spec_x(),
    ;

    /// Y coordinate, the latitude of a geographic point.
    fn y(&self) -> (r: i64)
        ensures
            r == self.spec_y(),
    ;
}

/// Write access to 2D coordinates.
pub trait PointSetCoords: PointCoords {
    fn set_x(&mut self, x: i64)
        ensures
            final(self).spec_x() == x,
            final(self).spec_y() == old(self).spec_y(),
    ;

    fn set_y(&mut self, y: i64)
        ensures
            final(self).spec_y() == y,
            final(self).spec_x() == old(self).spec_x(),
    ;
}

/// A point built from its two coordinates.
pub trait PointNew: PointCoords + Sized {
    fn new(x: i64, y: i64) -> (p: Self)
        ensures
            p.spec_x() == x,
            p.spec_y() == y,
    ;
}

impl PointCoords for [i64; 2] {
    open spec fn spec_x(&self) -> int {
        self@[1] as int
    }

    open spec fn spec_y(&self) -> int {
        self@[0] as int
    }

    fn x(&self) -> (r: i64) {
        self[1]
    }

    fn y(&self) -> (r: i64) {
        self[0]
    }
}

impl PointSetCoords for [i64; 2] {
    fn set_x(&mut self, x: i64) {
        let y = self[0];
        *self = [y, x];
    }

    fn set_y(&mut self, y: i64) {
        let x = self[1];
        *self = [y, x];
    }
}

impl PointNew for [i64; 2] {
    fn new(x: i64, y: i64) -> (p: [i64; 2]) {
        [y, x]
    }
}

impl PointCoords for Fix {
    open spec fn spec_x(&self) -> int {
        self.lon as int
    }

    open spec fn spec_y(&self) -> int {
        self.lat as int
    }

    fn x(&self) -> (r: i64) {
        self.lon as i64
    }

    fn y(&self) -> (r: i64) {
        self.lat as i64
    }
}

// ==== Euclidean ====

/// A coordinate a squared distance can be taken from without overflow: within 2^62 either way.
pub open spec fn within_reach(v: int) -> bool {
    -0x4000_0000_0000_0000 <= v < 0x4000_0000_0000_0000
}

/// Euclidean plane.
pub struct Flat;

impl Flat {
    /// Squared distance, for ranking only: the order of the distances, without a root.
    pub fn distance_squared<P: PointCoords>(a: &P, b: &P) -> (d: i128)
        requires
            within_reach(a.spec_x()),
            within_reach(a.spec_y()),
            within_reach(b.spec_x()),
            within_reach(b.spec_y()),
        ensures
            d == (b.spec_x() - a.spec_x()) * (b.spec_x() - a.spec_x()) + (b.spec_y() - a.spec_y())
                * (b.spec_y() - a.spec_y()),
    {
        let dx = (b.x() as i128) - (a.x() as i128);
        let dy = (b.y() as i128) - (a.y() as i128);
        assert(dx * dx < 0x4000_0000_0000_0000_0000_0000_0000_0000) by (nonlinear_arith)
            requires
                -0x8000_0000_0000_0000 < dx < 0x8000_0000_0000_0000,
        ;
        assert(dy * dy < 0x4000_0000_0000_0000_0000_0000_0000_0000) by (nonlinear_arith)
            requires
                -0x8000_0000_0000_0000 < dy < 0x8000_0000_0000_0000,
        ;
        assert(0 <= dx * dx && 0 <= dy * dy) by (nonlinear_arith);
        dx * dx + dy * dy
    }
}

// ============= The antimeridian =============

/// A longitude difference wrapped into half a turn either way. A difference of two longitudes
/// lies within a turn either way, and that is wrapped once.
pub open spec fn spec_lon_round(d: int) -> int {
    if d >= HALF_TURN {
        d - FULL_TURN
    } else if d <= -HALF_TURN {
        d + FULL_TURN
    } else {
        d
    }
}

/// Wraps a longitude difference into half a turn either way.
pub fn lon_round(d: i64) -> (r: i64)
    ensures
        r == spec_lon_round(d as int),
{
    if d >= HALF_TURN {
        d - FULL_TURN
    } else if d <= -HALF_TURN {
        d + FULL_TURN
    } else {
        d
    }
}

/// Whether some step of `xs` goes more than half a turn: the track crosses the antimeridian.
pub open spec fn crosses(xs: Seq<int>) -> bool {
    exists|i: int| 0 <= i < xs.len() - 1 && abs(#[trigger] xs[i + 1] - xs[i]) > HALF_TURN
}

pub open spec fn abs(v: int) -> int {
    if v < 0 {
        -v
    } else {
        v
    }
}

/// The longitudes of a sequence of points.
pub open spec fn lons<P: PointCoords>(s: Seq<P>) -> Seq<int> {
    s.map_values(|p: P| p.spec_x())
}

/// Whether a track crosses the antimeridian: some step between consecutive points goes more than
/// half a turn of longitude.
pub trait AntimeridianCheck {
    spec fn spec_crosses(&self) -> bool;

    fn crosses_antimeridian(&self) -> (b: bool)
        ensures
            b == self.spec_crosses(),
    ;
}

impl<P: PointCoords> AntimeridianCheck for [P] {
    open spec fn spec_crosses(&self) -> bool {
        crosses(lons(self@))
    }

    fn crosses_antimeridian(&self) -> (b: bool) {
        let ghost xs = lons(self@);
        if self.len() < 2 {
            return false;
        }
        let mut i: usize = 0;
        while i < self.len() - 1
            invariant
                xs == lons(self@),
                self@.len() >= 2,
                i + 1 <= self@.len(),
                forall|k: int| 0 <= k < i ==> abs(#[trigger] xs[k + 1] - xs[k]) <= HALF_TURN,
            decreases self@.len() - i,
        {
            let d = (self[i + 1].x() as i128) - (self[i].x() as i128);
            let far = d > HALF_TURN as i128 || d < -(HALF_TURN as i128);
            proof {
                assert(xs[i as int] == self@[i as int].spec_x());
                assert(xs[i + 1] == self@[i + 1].spec_x());
            }
            if far {
                return true;
            }
            i = i + 1;
        }
        false
    }
}

/// Longitude `k` of `xs` once made continuous: the first kept, every later one reached by the
/// shortest step from the one before.
pub open spec fn unwrap_at(xs: Seq<int>, k: int) -> int
    decreases k,
{
    if k <= 0 {
        xs[0]
    } else {
        unwrap_at(xs, k - 1) + spec_lon_round(xs[k] - xs[k - 1])
    }
}

/// A point is a longitude: within half a turn either way.
pub open spec fn on_earth(x: int) -> bool {
    -HALF_TURN <= x <= HALF_TURN
}

/// A longitude that a fix can hold: one that fits in 32 bits.
pub open spec fn fits_i32(x: int) -> bool {
    -0x8000_0000 <= x < 0x8000_0000
}

/// Unwrapping moves by at most one 32-bit range per step.
proof fn lemma_unwrap_bound(xs: Seq<int>, k: int)
    requires
        0 <= k < xs.len(),
        forall|i: int| 0 <= i < xs.len() ==> fits_i32(#[trigger] xs[i]),
    ensures
        abs(unwrap_at(xs, k)) <= 0x8000_0000 + k * 0x1_0000_0000,
    decreases k,
{
    if k > 0 {
        lemma_unwrap_bound(xs, k - 1);
        assert(fits_i32(xs[k]) && fits_i32(xs[k - 1]));
        assert(abs(spec_lon_round(xs[k] - xs[k - 1])) <= 0x1_0000_0000);
    } else {
        assert(fits_i32(xs[0]));
    }
}

/// Longitudes made continuous across the antimeridian: every point keeps the shortest step from
/// the one before, so a track straddling it reads as one interval instead of two.
pub trait AntimeridianUnwrap<P: PointCoords> {
    spec fn spec_points(&self) -> Seq<P>;

    fn unwrapped(&self) -> (v: Vec<P>)
        requires
            self.spec_points().len() < 0x8000_0000,
            forall|i: int|
                0 <= i < self.spec_points().len() ==> fits_i32(#[trigger] self.spec_points()[i].spec_x()),
        ensures
            v@.len() == self.spec_points().len(),
            forall|i: int|
                0 <= i < v@.len() ==> (#[trigger] v@[i]).spec_x() == unwrap_at(
                    lons(self.spec_points()),
                    i,
                ) && v@[i].spec_y() == self.spec_points()[i].spec_y(),
    ;
}

impl<P: PointCoords + PointSetCoords + Copy> AntimeridianUnwrap<P> for [P] {
    open spec fn spec_points(&self) -> Seq<P> {
        self@
    }

    fn unwrapped(&self) -> (v: Vec<P>) {
        let ghost xs = lons(self@);
        let mut v: Vec<P> = Vec::new();
        if self.len() == 0 {
            return v;
        }
        let mut lon: i64 = self[0].x();
        let mut raw: i64 = lon;
        let mut i: usize = 0;
        while i < self.len()
            invariant
                xs == lons(self@),
                self@.len() < 0x8000_0000,
                forall|k: int| 0 <= k < self@.len() ==> fits_i32(#[trigger] self@[k].spec_x()),
                0 < self@.len(),
                i <= self@.len(),
                v@.len() == i,
                i > 0 ==> raw == xs[i - 1] && lon == unwrap_at(xs, i - 1),
                i == 0 ==> raw == xs[0] && lon == xs[0],
                forall|k: int|
                    0 <= k < i ==> (#[trigger] v@[k]).spec_x() == unwrap_at(xs, k) && v@[k].spec_y()
                        == self@[k].spec_y(),
            decreases self@.len() - i,
        {
            let x = self[i].x();
            proof {
                assert(xs[i as int] == self@[i as int].spec_x());
                assert forall|k: int| 0 <= k < xs.len() implies fits_i32(#[trigger] xs[k]) by {
                    assert(xs[k] == self@[k].spec_x());
                }
                if i > 0 {
                    lemma_unwrap_bound(xs, i - 1);
                }
            }
            if i > 0 {
                lon = lon + lon_round(x - raw);
            }
            raw = x;
            let mut p = self[i];
            p.set_x(lon);
            v.push(p);
            i = i + 1;
        }
        v
    }
}

/// The longitudes of `xs`, made continuous.
pub open spec fn unwrapped_lons(xs: Seq<int>) -> Seq<int> {
    Seq::new(xs.len(), |k: int| unwrap_at(xs, k))
}

/// No step of a track unwrapped from longitudes goes more than half a turn: it no longer crosses
/// the antimeridian.
pub proof fn lemma_unwrapped_never_crosses(xs: Seq<int>)
    requires
        forall|i: int| 0 <= i < xs.len() ==> on_earth(#[trigger] xs[i]),
    ensures
        !crosses(unwrapped_lons(xs)),
{
    let u = unwrapped_lons(xs);
    assert forall|i: int| 0 <= i < u.len() - 1 implies abs(#[trigger] u[i + 1] - u[i])
        <= HALF_TURN by {
        assert(on_earth(xs[i]) && on_earth(xs[i + 1]));
        assert(u[i + 1] == unwrap_at(xs, i + 1));
    }
}

/// Every unwrapped longitude is the raw one give or take whole turns: the same place on Earth.
pub proof fn lemma_unwrapped_same_place(xs: Seq<int>, k: int)
    requires
        0 <= k < xs.len(),
    ensures
        (unwrap_at(xs, k) - xs[k]) % (FULL_TURN as int) == 0,
    decreases k,
{
    if k > 0 {
        lemma_unwrapped_same_place(xs, k - 1);
        let a = unwrap_at(xs, k - 1) - xs[k - 1];
        let d = xs[k] - xs[k - 1];
        let w = spec_lon_round(d) - d;
        assert(w == 0 || w == FULL_TURN || w == -FULL_TURN);
        assert(unwrap_at(xs, k) - xs[k] == a + w);
        vstd::arithmetic::div_mod::lemma_mod_adds(a, w, FULL_TURN as int);
        if w == FULL_TURN {
            vstd::arithmetic::div_mod::lemma_mod_self_0(FULL_TURN as int);
        } else if w == -FULL_TURN {
            vstd::arithmetic::div_mod::lemma_mod_multiples_basic(-1, FULL_TURN as int);
        }
    }
}

/// A track whose every step stays short of half a turn is left as it was.
pub proof fn lemma_unwrapped_keeps_short_steps(xs: Seq<int>, k: int)
    requires
        0 <= k < xs.len(),
        forall|i: int| 0 <= i < xs.len() - 1 ==> abs(#[trigger] xs[i + 1] - xs[i]) < HALF_TURN,
    ensures
        unwrap_at(xs, k) == xs[k],
    decreases k,
{
    if k > 0 {
        lemma_unwrapped_keeps_short_steps(xs, k - 1);
        assert(abs(xs[(k - 1) + 1] - xs[k - 1]) < HALF_TURN);
    }
}

// ============= Bounding box =============

/// Axis-aligned bounding box.
#[derive(Debug, Clone, Copy, PartialEq, Eq)]
pub struct BBox<P> {
    /// Bottom-left corner, the southwest one of a geographic box.
    pub min: P,
    /// Top-right corner, the northeast one of a geographic box.
    pub max: P,
}

/// Whether a box holds exactly the extremes of a non-empty set of points.
pub open spec fn bounds<P: PointCoords, I: PointCoords>(b: BBox<P>, items: Seq<I>) -> bool {
    &&& items.len() > 0
    &&& forall|i: int|
        0 <= i < items.len() ==> b.min.spec_x() <= (#[trigger] items[i]).spec_x() <= b.max.spec_x()
            && b.min.spec_y() <= items[i].spec_y() <= b.max.spec_y()
    &&& exists|i: int| 0 <= i < items.len() && (#[trigger] items[i]).spec_x() == b.min.spec_x()
    &&& exists|i: int| 0 <= i < items.len() && (#[trigger] items[i]).spec_x() == b.max.spec_x()
    &&& exists|i: int| 0 <= i < items.len() && (#[trigger] items[i]).spec_y() == b.min.spec_y()
    &&& exists|i: int| 0 <= i < items.len() && (#[trigger] items[i]).spec_y() == b.max.spec_y()
}

impl<P: PointNew> BBox<P> {
    /// The smallest box holding every item, `None` when there is none.
    pub fn from_items<I: PointCoords>(items: &[I]) -> (r: Option<BBox<P>>)
        ensures
            match r {
                Some(b) => bounds(b, items@),
                None => items@.len() == 0,
            },
    {
        if items.len() == 0 {
            return None;
        }
        let mut l = items[0].x();
        let mut b = items[0].y();
        let mut r = l;
        let mut t = b;
        let ghost mut il: int = 0;
        let ghost mut ib: int = 0;
        let ghost mut ir: int = 0;
        let ghost mut it: int = 0;
        let mut i: usize = 1;
        while i < items.len()
            invariant
                1 <= i <= items@.len(),
                0 <= il < i && items@[il].spec_x() == l,
                0 <= ir < i && items@[ir].spec_x() == r,
                0 <= ib < i && items@[ib].spec_y() == b,
                0 <= it < i && items@[it].spec_y() == t,
                forall|k: int|
                    0 <= k < i ==> l <= (#[trigger] items@[k]).spec_x() <= r && b <= items@[k].spec_y()
                        <= t,
            decreases items@.len() - i,
        {
            let x = items[i].x();
            let y = items[i].y();
            if x < l {
                l = x;
                proof {
                    il = i as int;
                }
            }
            if y < b {
                b = y;
                proof {
                    ib = i as int;
                }
            }
            if x > r {
                r = x;
                proof {
                    ir = i as int;
                }
            }
            if y > t {
                t = y;
                proof {
                    it = i as int;
                }
            }
            i = i + 1;
        }
        let bx = BBox { min: P::new(l, b), max: P::new(r, t) };
        proof {
            assert(items@[il].spec_x() == bx.min.spec_x());
            assert(items@[ir].spec_x() == bx.max.spec_x());
            assert(items@[ib].spec_y() == bx.min.spec_y());
            assert(items@[it].spec_y() == bx.max.spec_y());
        }
        Some(bx)
    }
}

impl<P: PointSetCoords> BBox<P> {
    /// Grows this box to also cover `other`.
    pub fn merge(&mut self, other: &Self)
        ensures
            final(self).min.spec_x() == min(old(self).min.spec_x(), other.min.spec_x()),
            final(self).min.spec_y() == min(old(self).min.spec_y(), other.min.spec_y()),
            final(self).max.spec_x() == max(old(self).max.spec_x(), other.max.spec_x()),
            final(self).max.spec_y() == max(old(self).max.spec_y(), other.max.spec_y()),
    {
        let l = if self.min.x() <= other.min.x() {
            self.min.x()
        } else {
            other.min.x()
        };
        let b = if self.min.y() <= other.min.y() {
            self.min.y()
        } else {
            other.min.y()
        };
        let r = if self.max.x() >= other.max.x() {
            self.max.x()
        } else {
            other.max.x()
        };
        let t = if self.max.y() >= other.max.y() {
            self.max.y()
        } else {
            other.max.y()
        };
        self.min.set_x(l);
        self.min.set_y(b);
        self.max.set_x(r);
        self.max.set_y(t);
    }
}

pub open spec fn min(a: int, b: int) -> int {
    if a <= b {
        a
    } else {
        b
    }
}

pub open spec fn max(a: int, b: int) -> int {
    if a >= b {
        a
    } else {
        b
    }
}

impl<P: PointNew + Copy> BBox<P> {
    /// The distinct corners of the box: one for a point, its two ends for a segment, all four
    /// otherwise, the two given ones first.
    pub fn vertices(&self) -> (v: Vec<P>)
        ensures
            ({
                let (x0, y0, x1, y1) = (
                    self.min.spec_x(),
                    self.min.spec_y(),
                    self.max.spec_x(),
                    self.max.spec_y(),
                );
                if x0 == x1 && y0 == y1 {
                    v@ == seq![self.min]
                } else if x0 == x1 || y0 == y1 {
                    v@ == seq![self.min, self.max]
                } else {
                    &&& v@.len() == 4
                    &&& v@[0] == self.min
                    &&& v@[1] == self.max
                    &&& v@[2].spec_x() == x0 && v@[2].spec_y() == y1
                    &&& v@[3].spec_x() == x1 && v@[3].spec_y() == y0
                }
            }),
    {
        let mut v: Vec<P> = Vec::new();
        let same_x = self.min.x() == self.max.x();
        let same_y = self.min.y() == self.max.y();
        v.push(self.min);
        if same_x && same_y {
            return v;
        }
        v.push(self.max);
        if same_x || same_y {
            return v;
        }
        v.push(P::new(self.min.x(), self.max.y()));
        v.push(P::new(self.max.x(), self.min.y()));
        v
    }
}

} // verus!
