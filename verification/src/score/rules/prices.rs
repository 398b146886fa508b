//! What each rule pays, as its rulebook states it: for a distance `d` and a closing gap `g` in
//! millimetres, the score in micrometres, and the multiplier a reported result carries.
//!
//! A share of the distance is compared exactly: `g * 1000 <= 50 * d` is a gap within 5 %.

use vstd::prelude::*;

use crate::score::rules::cfd::{Distance3Points, TriangleFai, TrianglePlat};
use crate::score::rules::crazy::{FreeDistance4TP, Quad};
use crate::score::rules::misc::{FreeDistance1, FreeDistance2, OutAndReturn, StraightDistance};
use crate::score::rules::xcontest::{FaiTriangle, FreeFlight, FreeTriangle};
use crate::score::rules::{spec_score, spec_scored, RuleDescription};

verus! {

/// An open distance pays the distance, ×1.0, and nothing once there is a gap to close.
pub open spec fn open_pay(d: u64, g: u64) -> int {
    if g == 0 {
        d * 1000
    } else {
        0
    }
}

/// XContest free flight pays its distance ×1.0.
pub proof fn lemma_xcontest_free_flight_pays(d: u64, g: u64)
    ensures
        spec_score(FreeFlight.spec_variants(), d, g) == open_pay(d, g),
{
}

/// XContest free triangle: within 5 % of the distance the gap is taken off and the rest pays
/// ×1.4; within 20 %, ×1.2; past that it does not close and pays nothing. A reported result
/// carries the multiplier it was paid at.
pub proof fn lemma_xcontest_free_triangle_pays(d: u64, g: u64)
    ensures
        spec_score(FreeTriangle.spec_variants(), d, g) == if g * 1000 <= 50 * d {
            (d - g) * 1400
        } else if g * 1000 <= 200 * d {
            (d - g) * 1200
        } else {
            0
        },
        spec_scored(FreeTriangle.spec_variants(), 0, "xcontest", d, g).multiplier == if g * 1000
            <= 50 * d {
            1400u64
        } else {
            1200u64
        },
{
    reveal_with_fuel(crate::score::rules::pick_from, 3);
}

/// XContest FAI triangle: within 5 % of the distance the gap is taken off and the rest pays ×1.6;
/// within 20 %, ×1.4; past that it does not close and pays nothing. A reported result carries the
/// multiplier it was paid at.
pub proof fn lemma_xcontest_fai_triangle_pays(d: u64, g: u64)
    ensures
        spec_score(FaiTriangle.spec_variants(), d, g) == if g * 1000 <= 50 * d {
            (d - g) * 1600
        } else if g * 1000 <= 200 * d {
            (d - g) * 1400
        } else {
            0
        },
        spec_scored(FaiTriangle.spec_variants(), 0, "xcontest", d, g).multiplier == if g * 1000
            <= 50 * d {
            1600u64
        } else {
            1400u64
        },
{
    reveal_with_fuel(crate::score::rules::pick_from, 3);
}

/// A triangle that closes within 5 % pays strictly more as XContest's closed variant than at its
/// open rate, for either triangle.
pub proof fn lemma_xcontest_closed_pays_more(d: u64, g: u64)
    requires
        g * 1000 <= 50 * d,
        g < d,
    ensures
        spec_score(FaiTriangle.spec_variants(), d, g) > (d - g) * 1400,
        spec_score(FreeTriangle.spec_variants(), d, g) > (d - g) * 1200,
{
    lemma_xcontest_fai_triangle_pays(d, g);
    lemma_xcontest_free_triangle_pays(d, g);
}

/// CFD distance through 3 turnpoints pays its distance ×1.0.
pub proof fn lemma_cfd_distance_pays(d: u64, g: u64)
    ensures
        spec_score(Distance3Points.spec_variants(), d, g) == open_pay(d, g),
{
}

/// What a CFD triangle pays at multiplier `m` per mille: a gap up to 3 km is free; a larger one
/// up to 5 % of the distance is taken off; a larger one still does not close and pays nothing.
pub open spec fn cfd_triangle_pay(d: u64, g: u64, m: int) -> int {
    if g <= 3_000_000 {
        d * m
    } else if g * 1000 <= 50 * d {
        (d - g) * m
    } else {
        0
    }
}

/// CFD flat triangle pays ×1.2, and reports ×1.2.
pub proof fn lemma_cfd_flat_triangle_pays(d: u64, g: u64)
    ensures
        spec_score(TrianglePlat.spec_variants(), d, g) == cfd_triangle_pay(d, g, 1200),
        spec_scored(TrianglePlat.spec_variants(), 15_000_000_000, "cfd", d, g).multiplier == 1200,
{
}

/// CFD FAI triangle pays ×1.4, and reports ×1.4.
pub proof fn lemma_cfd_fai_triangle_pays(d: u64, g: u64)
    ensures
        spec_score(TriangleFai.spec_variants(), d, g) == cfd_triangle_pay(d, g, 1400),
        spec_scored(TriangleFai.spec_variants(), 15_000_000_000, "cfd", d, g).multiplier == 1400,
{
}

/// A closed CFD triangle pays strictly more than the CFD open distance of the same length, and
/// the FAI one strictly more than the flat one.
pub proof fn lemma_cfd_triangles_pay_more(d: u64)
    requires
        d > 0,
    ensures
        spec_score(TrianglePlat.spec_variants(), d, 0) > spec_score(
            Distance3Points.spec_variants(),
            d,
            0,
        ),
        spec_score(TriangleFai.spec_variants(), d, 0) > spec_score(
            TrianglePlat.spec_variants(),
            d,
            0,
        ),
{
    lemma_cfd_flat_triangle_pays(d, 0);
    lemma_cfd_fai_triangle_pays(d, 0);
    lemma_cfd_distance_pays(d, 0);
}

/// CFD counts a result from 15 points, 15 km at ×1.0, in micrometres: anything less is reported
/// as nothing, whichever of its rules it was scored by. XContest counts every result.
pub proof fn lemma_minimums(d: u64, g: u64)
    ensures
        Distance3Points.spec_minimum() == 15_000_000_000,
        TrianglePlat.spec_minimum() == 15_000_000_000,
        TriangleFai.spec_minimum() == 15_000_000_000,
        FreeFlight.spec_minimum() == 0,
        FreeTriangle.spec_minimum() == 0,
        FaiTriangle.spec_minimum() == 0,
        spec_scored(TrianglePlat.spec_variants(), TrianglePlat.spec_minimum(), "cfd", d, g).score
            == if cfd_triangle_pay(d, g, 1200) >= 15_000_000_000 {
            cfd_triangle_pay(d, g, 1200)
        } else {
            0
        },
{
}

/// The free distances of the other leagues pay their distance ×1.0.
pub proof fn lemma_free_distances_pay(d: u64, g: u64)
    ensures
        spec_score(FreeDistance1.spec_variants(), d, g) == open_pay(d, g),
        spec_score(FreeDistance2.spec_variants(), d, g) == open_pay(d, g),
        spec_score(StraightDistance.spec_variants(), d, g) == open_pay(d, g),
        spec_score(FreeDistance4TP.spec_variants(), d, g) == open_pay(d, g),
{
}

/// An out-and-return pays ×1.0 and a quadrilateral circuit ×1.2, the gap taken off when within
/// 10 % of the distance, nothing past that.
pub proof fn lemma_circuits_within_ten_percent_pay(d: u64, g: u64)
    ensures
        spec_score(OutAndReturn.spec_variants(), d, g) == if g * 1000 <= 100 * d {
            (d - g) * 1000
        } else {
            0
        },
        spec_score(Quad.spec_variants(), d, g) == if g * 1000 <= 100 * d {
            (d - g) * 1200
        } else {
            0
        },
{
}

} // verus!
