//! Planar geometry used to rank polyline points and stops by closeness.
//!
//! Coordinates are fixed-point: degrees scaled by one million (microdegrees).
//! The squared planar distance is a monotone proxy for closeness used only
//! for nearest-neighbour ranking, never as a true distance.

use vstd::prelude::*;

verus! {

/// A geographic point in microdegrees (degrees scaled by 1_000_000).
#[derive(Clone, Copy, Debug, PartialEq, Eq, Structural)]
pub struct GeoPoint {
    pub lat_udeg: i32,
    pub lon_udeg: i32,
}

/// Squared planar distance between two points, in square microdegrees.
pub open spec fn planar_sq_spec(a: GeoPoint, b: GeoPoint) -> int {
    (a.lat_udeg - b.lat_udeg) * (a.lat_udeg - b.lat_udeg)
        + (a.lon_udeg - b.lon_udeg) * (a.lon_udeg - b.lon_udeg)
}

/// Squared planar distance; exact over the whole coordinate range.
pub fn planar_sq(a: GeoPoint, b: GeoPoint) -> (d: i128)
    ensures
        d == planar_sq_spec(a, b),
{
    let dlat: i128 = a.lat_udeg as i128 - b.lat_udeg as i128;
    let dlon: i128 = a.lon_udeg as i128 - b.lon_udeg as i128;
    proof {
        assert(dlat * dlat + dlon * dlon <= 0x1_0000_0000_0000_0000_0000i128) by (nonlinear_arith)
            requires
                -0x1_0000_0000i128 <= dlat <= 0x1_0000_0000i128,
                -0x1_0000_0000i128 <= dlon <= 0x1_0000_0000i128,
        ;
        assert(dlat * dlat >= 0) by (nonlinear_arith);
        assert(dlon * dlon >= 0) by (nonlinear_arith);
    }
    dlat * dlat + dlon * dlon
}

/// The squared planar distance is symmetric.
pub proof fn lemma_planar_sq_symmetric(a: GeoPoint, b: GeoPoint)
    ensures
        planar_sq_spec(a, b) == planar_sq_spec(b, a),
{
    assert((a.lat_udeg - b.lat_udeg) * (a.lat_udeg - b.lat_udeg) == (b.lat_udeg - a.lat_udeg) * (
    b.lat_udeg - a.lat_udeg)) by (nonlinear_arith);
    assert((a.lon_udeg - b.lon_udeg) * (a.lon_udeg - b.lon_udeg) == (b.lon_udeg - a.lon_udeg) * (
    b.lon_udeg - a.lon_udeg)) by (nonlinear_arith);
}

/// The squared planar distance of a point to itself is zero.
pub proof fn lemma_planar_sq_zero(a: GeoPoint)
    ensures
        planar_sq_spec(a, a) == 0,
{
}

/// Index `i` is the first index of `points` whose squared planar distance to
/// `p` is minimal: every point is at least as far, and every earlier point is
/// strictly farther.
pub open spec fn is_first_nearest(points: Seq<GeoPoint>, p: GeoPoint, i: int) -> bool {
    &&& 0 <= i < points.len()
    &&& forall|j: int|
        0 <= j < points.len() ==> planar_sq_spec(points[j], p) >= planar_sq_spec(points[i], p)
    &&& forall|j: int| 0 <= j < i ==> planar_sq_spec(points[j], p) > planar_sq_spec(points[i], p)
}

/// The first-nearest index for a point (meaningful whenever the polyline is
/// non-empty).
pub open spec fn nearest_point_idx(points: Seq<GeoPoint>, p: GeoPoint) -> int {
    choose|i: int| is_first_nearest(points, p, i)
}

/// Any two first-nearest indices for the same point coincide.
pub proof fn lemma_first_nearest_unique(points: Seq<GeoPoint>, p: GeoPoint, i: int, j: int)
    requires
        is_first_nearest(points, p, i),
        is_first_nearest(points, p, j),
    ensures
        i == j,
{
    if i < j {
        assert(planar_sq_spec(points[i], p) > planar_sq_spec(points[j], p));
        assert(planar_sq_spec(points[i], p) >= planar_sq_spec(points[j], p));
    } else if j < i {
        assert(planar_sq_spec(points[j], p) > planar_sq_spec(points[i], p));
    }
}

/// Index of the polyline point nearest to `p`, breaking ties towards the
/// earliest index. `None` exactly when the polyline is empty.
pub fn find_nearest_point(points: &Vec<GeoPoint>, p: GeoPoint) -> (r: Option<usize>)
    ensures
        r is Some <==> points@.len() > 0,
        r is Some ==> is_first_nearest(points@, p, r.unwrap() as int),
        r is Some ==> r.unwrap() as int == nearest_point_idx(points@, p),
{
    if points.len() == 0 {
        return None;
    }
    let mut best: usize = 0;
    let mut best_d: i128 = planar_sq(points[0], p);
    let mut i: usize = 1;
    while i < points.len()
        invariant
            1 <= i <= points@.len(),
            best < i,
            best_d == planar_sq_spec(points@[best as int], p),
            forall|j: int| 0 <= j < i ==> planar_sq_spec(points@[j], p) >= best_d,
            forall|j: int| 0 <= j < best ==> planar_sq_spec(points@[j], p) > best_d,
        decreases points@.len() - i,
    {
        let d = planar_sq(points[i], p);
        if d < best_d {
            best = i;
            best_d = d;
        }
        i += 1;
    }
    proof {
        assert(is_first_nearest(points@, p, best as int));
        lemma_first_nearest_unique(points@, p, best as int, nearest_point_idx(points@, p));
    }
    Some(best)
}

} // verus!
