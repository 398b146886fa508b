//! Where in the FCC-versus-geodesic error table a flight reads its slack: the row by how far it
//! reaches from the equator, the column by the distance measured.

use vstd::prelude::*;

verus! {

/// Rows of the error table: legs within 20, 30, ... 80 degrees of the equator.
pub const BAND_ROWS: usize = 7;

/// Upper edge of each column of the error table, in millimetres.
pub open spec fn keys() -> Seq<u64> {
    seq![
        50_000_000u64,
        75_000_000,
        100_000_000,
        150_000_000,
        250_000_000,
        400_000_000,
        600_000_000,
        800_000_000,
        1_200_000_000,
        1_600_000_000,
        2_000_000_000,
        3_200_000_000,
    ]
}

/// Latitude band of a flight: the row of the error table covering every leg it can contain.
#[derive(Debug, Clone, Copy, PartialEq, Eq)]
pub struct Band(pub usize);

/// The row for a track reaching `max_abs_lat` whole degrees from the equator: one per ten degrees
/// past the first ten, the last row for anything further.
pub open spec fn spec_row(max_abs_lat: u64) -> int {
    let tens = max_abs_lat / 10;
    let r = if tens >= 1 {
        tens - 1
    } else {
        0
    };
    if r >= BAND_ROWS - 1 {
        BAND_ROWS - 1
    } else {
        r
    }
}

impl Band {
    /// Band of a track reaching `max_abs_lat` whole degrees from the equator.
    pub fn of(max_abs_lat: u64) -> (b: Band)
        ensures
            b.0 == spec_row(max_abs_lat),
            b.0 < BAND_ROWS,
    {
        let tens = max_abs_lat / 10;
        let r = if tens >= 1 {
            tens - 1
        } else {
            0
        };
        if r >= 6 {
            Band(BAND_ROWS - 1)
        } else {
            Band(r as usize)
        }
    }

    /// Row of the error table.
    pub fn row(&self) -> (r: usize)
        ensures
            r == self.0,
    {
        self.0
    }

    /// Column of the error table for a distance of `d` millimetres: the first column whose upper
    /// edge is not below `d`, the last column for distances past every edge.
    pub fn column(d: u64) -> (c: usize)
        ensures
            c < 12,
            forall|i: int| 0 <= i < c ==> keys()[i] < d,
            c < 11 ==> keys()[c as int] >= d,
    {
        let edges: [u64; 12] = [
            50_000_000,
            75_000_000,
            100_000_000,
            150_000_000,
            250_000_000,
            400_000_000,
            600_000_000,
            800_000_000,
            1_200_000_000,
            1_600_000_000,
            2_000_000_000,
            3_200_000_000,
        ];
        proof {
            assert(edges@ =~= keys());
        }
        let mut k: usize = 0;
        while k < 11 && edges[k] < d
            invariant
                edges@ == keys(),
                k <= 11,
                forall|i: int| 0 <= i < k ==> keys()[i] < d,
            decreases 11 - k,
        {
            k = k + 1;
        }
        k
    }
}

} // verus!
