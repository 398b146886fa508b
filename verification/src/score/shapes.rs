//! The geometries a flight can be scored over. A rule names one; the search measures it.

use vstd::prelude::*;

verus! {

/// A geometry as the search sees it: how many fixes make it, and what it constrains.
#[derive(Debug, Clone, Copy, PartialEq, Eq)]
pub enum Geometry {
    /// Open polyline of `points` fixes, entry and exit included.
    Open { points: usize },
    /// Closed circuit through `turnpoints` fixes, back to the first.
    Closed { turnpoints: usize },
    /// Closed circuit whose shortest leg reaches `min_side` per mille of the total.
    Balanced { turnpoints: usize, min_side: u32 },
}

/// Whether an open polyline looks its two ends up as furthest points rather than searching them
/// as two more ranges.
pub open spec fn terminals(points: usize) -> bool {
    points > 3
}

/// Fix-index ranges the search branches on for a geometry.
pub open spec fn spec_cardinality(g: Geometry) -> usize {
    match g {
        Geometry::Open { points } => if terminals(points) {
            (points - 2) as usize
        } else {
            points
        },
        Geometry::Closed { turnpoints } => turnpoints,
        Geometry::Balanced { turnpoints, .. } => turnpoints,
    }
}

/// A geometry a rule can name: an open polyline has at least its two ends, a circuit at least two
/// turnpoints.
pub open spec fn well_formed(g: Geometry) -> bool {
    match g {
        Geometry::Open { points } => points >= 2,
        Geometry::Closed { turnpoints } => turnpoints >= 2,
        Geometry::Balanced { turnpoints, .. } => turnpoints >= 2,
    }
}

impl Geometry {
    /// Fix-index ranges the search branches on: every point of a short polyline, all but the two
    /// looked-up ends of a longer one, every turnpoint of a circuit.
    pub fn cardinality(&self) -> (n: usize)
        ensures
            n == spec_cardinality(*self),
    {
        match *self {
            Geometry::Open { points } => if points > 3 {
                points - 2
            } else {
                points
            },
            Geometry::Closed { turnpoints } => turnpoints,
            Geometry::Balanced { turnpoints, .. } => turnpoints,
        }
    }
}

/// A geometry named by its type, e.g. `ClosedCircuit<3>`.
pub trait ShapeKind {
    spec fn spec_geometry() -> Geometry;

    fn geometry() -> (g: Geometry)
        ensures
            g == Self::spec_geometry(),
    ;

    /// Fix-index ranges the search branches on, before any candidate exists.
    fn cardinality() -> (n: usize)
        ensures
            n == spec_cardinality(Self::spec_geometry()),
    {
        Self::geometry().cardinality()
    }
}

/// Open free-distance polyline of `POINTS` points, entry and exit included.
#[derive(Debug, Default)]
pub struct OpenPolyline<const POINTS: usize> {}

impl<const POINTS: usize> ShapeKind for OpenPolyline<POINTS> {
    open spec fn spec_geometry() -> Geometry {
        Geometry::Open { points: POINTS }
    }

    fn geometry() -> (g: Geometry) {
        Geometry::Open { points: POINTS }
    }
}

/// Closed circuit: tp1 -> ... -> tpn -> tp1, with the closing gap left for the rule to charge.
#[derive(Debug, Default)]
pub struct ClosedCircuit<const TP: usize> {}

impl<const TP: usize> ShapeKind for ClosedCircuit<TP> {
    open spec fn spec_geometry() -> Geometry {
        Geometry::Closed { turnpoints: TP }
    }

    fn geometry() -> (g: Geometry) {
        Geometry::Closed { turnpoints: TP }
    }
}

/// Balanced circuit: a closed circuit whose shortest leg must reach `MINSIDE` per mille of the
/// total, so 280 is the FAI triangle's 28 % rule.
#[derive(Debug, Default)]
pub struct BalancedCircuit<const TP: usize, const MINSIDE: u32> {}

impl<const TP: usize, const MINSIDE: u32> ShapeKind for BalancedCircuit<TP, MINSIDE> {
    open spec fn spec_geometry() -> Geometry {
        Geometry::Balanced { turnpoints: TP, min_side: MINSIDE }
    }

    fn geometry() -> (g: Geometry) {
        Geometry::Balanced { turnpoints: TP, min_side: MINSIDE }
    }
}

} // verus!
