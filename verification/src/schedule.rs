//! The schedule index: routes, trips, stop times and shapes, immutable after
//! load.
//!
//! The index holds plain fixed-point values: stop and shape coordinates in
//! microdegrees and, for each shape, the precomputed great-circle length of
//! every polyline segment in millimetres. Lookups return the first entry
//! with a matching id.

use crate::geo::GeoPoint;
use vstd::prelude::*;

verus! {

/// Largest accepted polyline segment length, in millimetres (beyond half the
/// earth's circumference, so only corrupt data is rejected).
pub const SEG_MM_MAX: u64 = 100_000_000_000;

/// Largest accepted number of points in one polyline.
pub const MAX_SHAPE_POINTS: usize = 1_000_000;

/// One route: its id, displayed short name and operating agency.
pub struct RouteRec {
    pub id: String,
    pub short_name: Option<String>,
    pub agency_id: Option<String>,
}

/// One scheduled stop on a trip: the stop's position (either coordinate may
/// be absent) and the scheduled arrival in seconds since service-day
/// midnight (may exceed 86400 for post-midnight service).
pub struct StopTimeRec {
    pub stop_lat: Option<i32>,
    pub stop_lon: Option<i32>,
    pub arrival_time: Option<u32>,
}

/// One trip: its id, the id of its polyline, and its ordered stop times.
pub struct TripRec {
    pub id: String,
    pub shape_id: Option<String>,
    pub stop_times: Vec<StopTimeRec>,
}

/// One polyline: its ordered points and the length of each segment
/// (`seg_mm[i]` spans from `points[i]` to `points[i + 1]`).
pub struct ShapeRec {
    pub id: String,
    pub points: Vec<GeoPoint>,
    pub seg_mm: Vec<u64>,
}

impl ShapeRec {
    /// Well-formedness: one segment between each pair of consecutive points,
    /// every segment length plausible, point count bounded (so that segment
    /// sums cannot overflow).
    pub open spec fn wf(&self) -> bool {
        &&& self.points@.len() <= MAX_SHAPE_POINTS
        &&& self.seg_mm@.len() == if self.points@.len() == 0 {
            0int
        } else {
            self.points@.len() - 1
        }
        &&& forall|i: int| 0 <= i < self.seg_mm@.len() ==> self.seg_mm@[i] <= SEG_MM_MAX
    }

    /// Checked constructor: accepts the polyline exactly when it satisfies
    /// [`ShapeRec::wf`], returning the fields unchanged.
    pub fn new(id: String, points: Vec<GeoPoint>, seg_mm: Vec<u64>) -> (r: Option<ShapeRec>)
        ensures
            r is Some <==> (points@.len() <= MAX_SHAPE_POINTS && seg_mm@.len() == (
            if points@.len() == 0 {
                0int
            } else {
                points@.len() - 1
            }) && (forall|i: int| 0 <= i < seg_mm@.len() ==> seg_mm@[i] <= SEG_MM_MAX)),
            r is Some ==> ({
                let s = r.unwrap();
                s.wf() && s.id@ == id@ && s.points@ == points@ && s.seg_mm@ == seg_mm@
            }),
    {
        if points.len() > MAX_SHAPE_POINTS {
            return None;
        }
        let want: usize = if points.len() == 0 {
            0
        } else {
            points.len() - 1
        };
        if seg_mm.len() != want {
            return None;
        }
        let mut i: usize = 0;
        while i < seg_mm.len()
            invariant
                0 <= i <= seg_mm@.len(),
                forall|j: int| 0 <= j < i ==> seg_mm@[j] <= SEG_MM_MAX,
            decreases seg_mm@.len() - i,
        {
            if seg_mm[i] > SEG_MM_MAX {
                return None;
            }
            i += 1;
        }
        Some(ShapeRec { id, points, seg_mm })
    }
}

/// Index `i` holds the first route with the given id.
pub open spec fn is_first_route(rs: Seq<RouteRec>, id: Seq<char>, i: int) -> bool {
    &&& 0 <= i < rs.len()
    &&& rs[i].id@ == id
    &&& forall|j: int| 0 <= j < i ==> rs[j].id@ != id
}

/// Index `i` holds the first trip with the given id.
pub open spec fn is_first_trip(ts: Seq<TripRec>, id: Seq<char>, i: int) -> bool {
    &&& 0 <= i < ts.len()
    &&& ts[i].id@ == id
    &&& forall|j: int| 0 <= j < i ==> ts[j].id@ != id
}

/// Index `i` holds the first shape with the given id.
pub open spec fn is_first_shape(ss: Seq<ShapeRec>, id: Seq<char>, i: int) -> bool {
    &&& 0 <= i < ss.len()
    &&& ss[i].id@ == id
    &&& forall|j: int| 0 <= j < i ==> ss[j].id@ != id
}

/// A first route with the given id exists.
pub open spec fn has_first_route(rs: Seq<RouteRec>, id: Seq<char>) -> bool {
    exists|i: int| is_first_route(rs, id, i)
}

/// The index of the first route with the given id.
pub open spec fn first_route_of(rs: Seq<RouteRec>, id: Seq<char>) -> int {
    choose|i: int| is_first_route(rs, id, i)
}

/// A first trip with the given id exists.
pub open spec fn has_first_trip(ts: Seq<TripRec>, id: Seq<char>) -> bool {
    exists|i: int| is_first_trip(ts, id, i)
}

/// The index of the first trip with the given id.
pub open spec fn first_trip_of(ts: Seq<TripRec>, id: Seq<char>) -> int {
    choose|i: int| is_first_trip(ts, id, i)
}

/// A first shape with the given id exists.
pub open spec fn has_first_shape(ss: Seq<ShapeRec>, id: Seq<char>) -> bool {
    exists|i: int| is_first_shape(ss, id, i)
}

/// The index of the first shape with the given id.
pub open spec fn first_shape_of(ss: Seq<ShapeRec>, id: Seq<char>) -> int {
    choose|i: int| is_first_shape(ss, id, i)
}

/// Any two first-match route indices coincide.
pub proof fn lemma_first_route_unique(rs: Seq<RouteRec>, id: Seq<char>, i: int)
    requires
        is_first_route(rs, id, i),
    ensures
        has_first_route(rs, id),
        first_route_of(rs, id) == i,
{
    let k = first_route_of(rs, id);
    assert(is_first_route(rs, id, k));
    if k < i {
        assert(rs[k].id@ != id);
    } else if i < k {
        assert(rs[i].id@ != id);
    }
}

/// Any two first-match trip indices coincide.
pub proof fn lemma_first_trip_unique(ts: Seq<TripRec>, id: Seq<char>, i: int)
    requires
        is_first_trip(ts, id, i),
    ensures
        has_first_trip(ts, id),
        first_trip_of(ts, id) == i,
{
    let k = first_trip_of(ts, id);
    assert(is_first_trip(ts, id, k));
    if k < i {
        assert(ts[k].id@ != id);
    } else if i < k {
        assert(ts[i].id@ != id);
    }
}

/// Any two first-match shape indices coincide.
pub proof fn lemma_first_shape_unique(ss: Seq<ShapeRec>, id: Seq<char>, i: int)
    requires
        is_first_shape(ss, id, i),
    ensures
        has_first_shape(ss, id),
        first_shape_of(ss, id) == i,
{
    let k = first_shape_of(ss, id);
    assert(is_first_shape(ss, id, k));
    if k < i {
        assert(ss[k].id@ != id);
    } else if i < k {
        assert(ss[i].id@ != id);
    }
}

/// The schedule index, immutable after load.
pub struct ScheduleIndex {
    pub routes: Vec<RouteRec>,
    pub trips: Vec<TripRec>,
    pub shapes: Vec<ShapeRec>,
}

impl ScheduleIndex {
    /// Well-formedness: every polyline is well-formed.
    pub open spec fn wf(&self) -> bool {
        forall|i: int| 0 <= i < self.shapes@.len() ==> (#[trigger] self.shapes@[i]).wf()
    }

    /// An empty index, as held before the first schedule load.
    pub fn new() -> (r: ScheduleIndex)
        ensures
            r.wf(),
            r.routes@.len() == 0,
            r.trips@.len() == 0,
            r.shapes@.len() == 0,
    {
        ScheduleIndex { routes: Vec::new(), trips: Vec::new(), shapes: Vec::new() }
    }

    /// Runtime check of [`ScheduleIndex::wf`], for callers that assembled
    /// the index from unchecked parts.
    pub fn wf_check(&self) -> (r: bool)
        ensures
            r == self.wf(),
    {
        let mut i: usize = 0;
        while i < self.shapes.len()
            invariant
                0 <= i <= self.shapes@.len(),
                forall|j: int| 0 <= j < i ==> (#[trigger] self.shapes@[j]).wf(),
            decreases self.shapes@.len() - i,
        {
            let s = &self.shapes[i];
            if s.points.len() > MAX_SHAPE_POINTS {
                return false;
            }
            let want: usize = if s.points.len() == 0 {
                0
            } else {
                s.points.len() - 1
            };
            if s.seg_mm.len() != want {
                return false;
            }
            let mut k: usize = 0;
            while k < s.seg_mm.len()
                invariant
                    0 <= k <= s.seg_mm@.len(),
                    i < self.shapes@.len(),
                    *s == self.shapes@[i as int],
                    forall|j: int| 0 <= j < k ==> s.seg_mm@[j] <= SEG_MM_MAX,
            decreases s.seg_mm@.len() - k,
            {
                if s.seg_mm[k] > SEG_MM_MAX {
                    return false;
                }
                k += 1;
            }
            i += 1;
        }
        true
    }

    /// The short name and agency of the route with the given id: `Some`
    /// exactly when the first matching route carries both; `None` when the
    /// route is unknown or either field is absent.
    pub fn get_line(&self, line_id: &String) -> (r: Option<(String, String)>)
        ensures
            r is Some <==> (has_first_route(self.routes@, line_id@) && self.routes@[first_route_of(
                self.routes@,
                line_id@,
            )].short_name is Some && self.routes@[first_route_of(
                self.routes@,
                line_id@,
            )].agency_id is Some),
            r is Some ==> r.unwrap().0 == self.routes@[first_route_of(
                self.routes@,
                line_id@,
            )].short_name.unwrap() && r.unwrap().1 == self.routes@[first_route_of(
                self.routes@,
                line_id@,
            )].agency_id.unwrap(),
    {
        let n: usize = self.routes.len();
        let mut i: usize = 0;
        while i < n
            invariant
                0 <= i <= n,
                n == self.routes@.len(),
                forall|j: int| 0 <= j < i ==> (#[trigger] self.routes@[j]).id@ != line_id@,
            decreases n - i,
        {
            if self.routes[i].id == *line_id {
                proof {
                    assert(is_first_route(self.routes@, line_id@, i as int));
                    lemma_first_route_unique(self.routes@, line_id@, i as int);
                }
                let route = &self.routes[i];
                match (&route.short_name, &route.agency_id) {
                    (Some(short_name), Some(agency_id)) => {
                        return Some((short_name.clone(), agency_id.clone()));
                    },
                    _ => {
                        return None;
                    },
                }
            }
            i += 1;
        }
        proof {
            if has_first_route(self.routes@, line_id@) {
                let k = first_route_of(self.routes@, line_id@);
                assert(is_first_route(self.routes@, line_id@, k));
            }
        }
        None
    }

    /// The first trip with the given id, if any.
    pub fn get_trip(&self, trip_id: &String) -> (r: Option<&TripRec>)
        ensures
            r is Some <==> has_first_trip(self.trips@, trip_id@),
            r is Some ==> *r.unwrap() == self.trips@[first_trip_of(self.trips@, trip_id@)],
    {
        let n: usize = self.trips.len();
        let mut i: usize = 0;
        while i < n
            invariant
                0 <= i <= n,
                n == self.trips@.len(),
                forall|j: int| 0 <= j < i ==> (#[trigger] self.trips@[j]).id@ != trip_id@,
            decreases n - i,
        {
            if self.trips[i].id == *trip_id {
                proof {
                    assert(is_first_trip(self.trips@, trip_id@, i as int));
                    lemma_first_trip_unique(self.trips@, trip_id@, i as int);
                }
                return Some(&self.trips[i]);
            }
            i += 1;
        }
        proof {
            if has_first_trip(self.trips@, trip_id@) {
                let k = first_trip_of(self.trips@, trip_id@);
                assert(is_first_trip(self.trips@, trip_id@, k));
            }
        }
        None
    }

    /// The first shape with the given id, if any.
    pub fn get_shape(&self, shape_id: &String) -> (r: Option<&ShapeRec>)
        ensures
            r is Some <==> has_first_shape(self.shapes@, shape_id@),
            r is Some ==> *r.unwrap() == self.shapes@[first_shape_of(self.shapes@, shape_id@)],
            r is Some && self.wf() ==> r.unwrap().wf(),
    {
        let n: usize = self.shapes.len();
        let mut i: usize = 0;
        while i < n
            invariant
                0 <= i <= n,
                n == self.shapes@.len(),
                forall|j: int| 0 <= j < i ==> (#[trigger] self.shapes@[j]).id@ != shape_id@,
            decreases n - i,
        {
            if self.shapes[i].id == *shape_id {
                proof {
                    assert(is_first_shape(self.shapes@, shape_id@, i as int));
                    lemma_first_shape_unique(self.shapes@, shape_id@, i as int);
                }
                return Some(&self.shapes[i]);
            }
            i += 1;
        }
        proof {
            if has_first_shape(self.shapes@, shape_id@) {
                let k = first_shape_of(self.shapes@, shape_id@);
                assert(is_first_shape(self.shapes@, shape_id@, k));
            }
        }
        None
    }
}

} // verus!
