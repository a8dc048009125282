use vstd::prelude::*;

verus! {

/// Largest coordinate magnitude accepted, in microdegrees.  Any plausible
/// latitude or longitude fits far below this; the bound keeps every squared
/// distance inside 128-bit arithmetic.
pub const COORD_LIMIT: i64 = 1_000_000_000_000;

/// A 2D geographic point: latitude and longitude in microdegrees
/// (one degree is 1_000_000 microdegrees).  A point is identified by its
/// 0-based index in the input sequence, not by its coordinates.
#[derive(Clone, Copy, Debug, PartialEq, Eq, Structural)]
pub struct Point {
    pub lat: i64,
    pub lon: i64,
}

/// Both coordinates lie within the accepted range.
pub open spec fn point_ok(p: Point) -> bool {
    &&& -COORD_LIMIT <= p.lat <= COORD_LIMIT
    &&& -COORD_LIMIT <= p.lon <= COORD_LIMIT
}

/// Every point of the sequence lies within the accepted range.
pub open spec fn points_ok(ps: Seq<Point>) -> bool {
    forall|i: int| 0 <= i < ps.len() ==> point_ok(#[trigger] ps[i])
}

impl Point {
    /// Builds a point from microdegree coordinates.
    pub fn new(lat: i64, lon: i64) -> (p: Point)
        ensures
            p.lat == lat,
            p.lon == lon,
    {
        Point { lat, lon }
    }
}

} // verus!
