use vstd::prelude::*;
use crate::point::{Point, point_ok, COORD_LIMIT};

verus! {

/// The square of an integer.
pub open spec fn sq(x: int) -> int {
    x * x
}

/// Squared Euclidean distance between two points, in square microdegrees.
/// The metric is plain Euclidean distance on the raw (lat, lon) pair,
/// not great-circle distance.
pub open spec fn sq_dist(a: Point, b: Point) -> int {
    sq(a.lat - b.lat) + sq(a.lon - b.lon)
}

/// Whether `b` lies within `eps` micro-kilometres of `a`.
///
/// The flat-earth conversion is 111 kilometres per degree of arc, so the
/// real-number test `111 * dist_degrees <= eps_km` squares to this exact
/// integer comparison (12321 = 111 * 111): with distances in microdegrees
/// and the radius in micro-kilometres both sides carry the same 10^12.
pub open spec fn within_spec(a: Point, b: Point, eps: u64) -> bool {
    12321 * sq_dist(a, b) <= eps * eps
}

/// Squared distance is symmetric.
pub proof fn lemma_sq_dist_symmetric(a: Point, b: Point)
    ensures
        sq_dist(a, b) == sq_dist(b, a),
{
    assert((a.lat - b.lat) * (a.lat - b.lat) == (b.lat - a.lat) * (b.lat - a.lat))
        by (nonlinear_arith);
    assert((a.lon - b.lon) * (a.lon - b.lon) == (b.lon - a.lon) * (b.lon - a.lon))
        by (nonlinear_arith);
}

/// A point is at squared distance zero from itself.
pub proof fn lemma_sq_dist_self_zero(a: Point)
    ensures
        sq_dist(a, a) == 0,
{
}

/// The within-radius relation is symmetric.
pub proof fn lemma_within_symmetric(a: Point, b: Point, eps: u64)
    ensures
        within_spec(a, b, eps) == within_spec(b, a, eps),
{
    lemma_sq_dist_symmetric(a, b);
}

/// Every point lies within any radius of itself.
pub proof fn lemma_within_self(a: Point, eps: u64)
    ensures
        within_spec(a, a, eps),
{
    lemma_sq_dist_self_zero(a);
    assert(eps * eps >= 0) by (nonlinear_arith);
}

/// Squared distances of in-range points are bounded.
pub proof fn lemma_sq_dist_bound(a: Point, b: Point)
    requires
        point_ok(a),
        point_ok(b),
    ensures
        0 <= sq_dist(a, b) <= 8_000_000_000_000_000_000_000_000,
{
    assert(0 <= (a.lat - b.lat) * (a.lat - b.lat) <= 4_000_000_000_000_000_000_000_000)
        by (nonlinear_arith)
        requires
            -2 * COORD_LIMIT <= a.lat - b.lat <= 2 * COORD_LIMIT,
    ;
    assert(0 <= (a.lon - b.lon) * (a.lon - b.lon) <= 4_000_000_000_000_000_000_000_000)
        by (nonlinear_arith)
        requires
            -2 * COORD_LIMIT <= a.lon - b.lon <= 2 * COORD_LIMIT,
    ;
}

/// Squared Euclidean distance between two in-range points, exactly.
pub fn scaled_sq_dist(a: &Point, b: &Point) -> (r: u128)
    requires
        point_ok(*a),
        point_ok(*b),
    ensures
        r == sq_dist(*a, *b),
{
    let dx: i128 = a.lat as i128 - b.lat as i128;
    let dy: i128 = a.lon as i128 - b.lon as i128;
    proof {
        lemma_sq_dist_bound(*a, *b);
        assert(0 <= dx * dx <= 4_000_000_000_000_000_000_000_000) by (nonlinear_arith)
            requires
                -2 * COORD_LIMIT <= dx <= 2 * COORD_LIMIT,
        ;
        assert(0 <= dy * dy <= 4_000_000_000_000_000_000_000_000) by (nonlinear_arith)
            requires
                -2 * COORD_LIMIT <= dy <= 2 * COORD_LIMIT,
        ;
    }
    (dx * dx + dy * dy) as u128
}

/// Whether `b` lies within `eps` micro-kilometres of `a`, decided exactly
/// in integer arithmetic.
pub fn within_radius(a: &Point, b: &Point, eps: u64) -> (r: bool)
    requires
        point_ok(*a),
        point_ok(*b),
    ensures
        r == within_spec(*a, *b, eps),
{
    let d: u128 = scaled_sq_dist(a, b);
    proof {
        lemma_sq_dist_bound(*a, *b);
        assert((eps as u128) * (eps as u128) < 0x1_0000_0000_0000_0000_0000_0000_0000_0000)
            by (nonlinear_arith)
            requires
                0 <= eps < 0x1_0000_0000_0000_0000,
        ;
    }
    let lhs: u128 = 12321u128 * d;
    let rhs: u128 = (eps as u128) * (eps as u128);
    lhs <= rhs
}

} // verus!
