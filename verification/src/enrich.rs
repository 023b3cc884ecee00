//! The per-vehicle enrichment pipeline.
//!
//! A decoded feed entity is matched against the trip's polyline and stop
//! sequence: reverse tables map stops to their nearest polyline point and
//! polyline points to their upcoming stop, the schedule clock picks the
//! theoretical stop, and the delay is interpolated linearly over the
//! distance still to cover before the next stop.

use crate::bus::Bus;
use crate::geo::{
    find_nearest_point, is_first_nearest, nearest_point_idx, planar_sq, planar_sq_spec, GeoPoint,
};
use crate::schedule::{ScheduleIndex, ShapeRec, StopTimeRec};
use crate::speed::{
    contains_id, expire_of, push_window, window_of, window_sum, SpeedEntry, SpeedTracker,
};
use vstd::prelude::*;

verus! {

/// Seconds in one day.
pub const DAY_SECONDS: u32 = 86400;

/// Whether a stop carries both coordinates.
pub open spec fn stop_placed(s: StopTimeRec) -> bool {
    s.stop_lat is Some && s.stop_lon is Some
}

/// The position of a placed stop.
pub open spec fn stop_point(s: StopTimeRec) -> GeoPoint {
    GeoPoint { lat_udeg: s.stop_lat.unwrap(), lon_udeg: s.stop_lon.unwrap() }
}

/// Index `i` is the first index of `stops` whose position is nearest to `p`.
pub open spec fn is_first_nearest_stop(stops: Seq<StopTimeRec>, p: GeoPoint, i: int) -> bool {
    &&& 0 <= i < stops.len()
    &&& forall|j: int|
        0 <= j < stops.len() ==> planar_sq_spec(stop_point(#[trigger] stops[j]), p)
            >= planar_sq_spec(stop_point(stops[i]), p)
    &&& forall|j: int|
        0 <= j < i ==> planar_sq_spec(stop_point(#[trigger] stops[j]), p) > planar_sq_spec(
            stop_point(stops[i]),
            p,
        )
}

/// The first-nearest stop index for a point (meaningful whenever one
/// exists, which [`make_cache`] guarantees on non-degenerate inputs).
pub open spec fn nearest_stop_idx(stops: Seq<StopTimeRec>, p: GeoPoint) -> int {
    choose|k: int| is_first_nearest_stop(stops, p, k)
}

/// Inputs on which the reverse tables cannot be built: no stops, no polyline
/// points, or a stop without coordinates.
pub open spec fn cache_degenerate(stops: Seq<StopTimeRec>, points: Seq<GeoPoint>) -> bool {
    ||| stops.len() == 0
    ||| points.len() == 0
    ||| exists|i: int| 0 <= i < stops.len() && !stop_placed(#[trigger] stops[i])
}

/// The monotone-forward adjustment: advance the nearest stop `k` by one once
/// the current polyline index `j` has passed the polyline position
/// associated with stop `k`.
pub open spec fn adjusted(k: int, nstops: int, rstop: Seq<usize>, j: int) -> int {
    if k < nstops - 1 && rstop[k] <= j {
        k + 1
    } else {
        k
    }
}

/// The position of a placed stop (runtime form of [`stop_point`]).
pub fn stop_point_of(s: &StopTimeRec) -> (p: GeoPoint)
    requires
        stop_placed(*s),
    ensures
        p == stop_point(*s),
{
    match (s.stop_lat, s.stop_lon) {
        (Some(lat), Some(lon)) => GeoPoint { lat_udeg: lat, lon_udeg: lon },
        _ => GeoPoint { lat_udeg: 0, lon_udeg: 0 },
    }
}

/// Index of the stop nearest to `p`, breaking ties towards the earliest
/// stop; every stop must be placed.
pub fn find_nearest_stop(stops: &Vec<StopTimeRec>, p: GeoPoint) -> (r: usize)
    requires
        stops@.len() > 0,
        forall|i: int| 0 <= i < stops@.len() ==> stop_placed(#[trigger] stops@[i]),
    ensures
        is_first_nearest_stop(stops@, p, r as int),
        r as int == nearest_stop_idx(stops@, p),
{
    let mut best: usize = 0;
    let mut best_d: i128 = planar_sq(stop_point_of(&stops[0]), p);
    let mut i: usize = 1;
    while i < stops.len()
        invariant
            1 <= i <= stops@.len(),
            best < i,
            forall|k: int| 0 <= k < stops@.len() ==> stop_placed(#[trigger] stops@[k]),
            best_d == planar_sq_spec(stop_point(stops@[best as int]), p),
            forall|j: int|
                0 <= j < i ==> planar_sq_spec(stop_point(#[trigger] stops@[j]), p) >= best_d,
            forall|j: int|
                0 <= j < best ==> planar_sq_spec(stop_point(#[trigger] stops@[j]), p) > best_d,
        decreases stops@.len() - i,
    {
        let d = planar_sq(stop_point_of(&stops[i]), p);
        if d < best_d {
            best = i;
            best_d = d;
        }
        i += 1;
    }
    proof {
        assert(is_first_nearest_stop(stops@, p, best as int));
        lemma_first_nearest_stop_unique(stops@, p, best as int, nearest_stop_idx(stops@, p));
    }
    best
}

/// Build the reverse tables for a trip.
///
/// `reverse_stop[i]` is the polyline index nearest to stop `i`;
/// `reverse_shape[j]` is the stop index nearest to polyline point `j`, with
/// the monotone-forward adjustment of [`adjusted`]. On degenerate inputs
/// both tables are empty.
pub fn make_cache(stops: &Vec<StopTimeRec>, points: &Vec<GeoPoint>) -> (r: (Vec<usize>, Vec<usize>))
    ensures
        cache_degenerate(stops@, points@) ==> r.0@.len() == 0 && r.1@.len() == 0,
        !cache_degenerate(stops@, points@) ==> {
            &&& r.0@.len() == stops@.len()
            &&& forall|i: int|
                0 <= i < stops@.len() ==> is_first_nearest(
                    points@,
                    stop_point(stops@[i]),
                    #[trigger] r.0@[i] as int,
                )
            &&& forall|i: int|
                0 <= i < stops@.len() ==> #[trigger] r.0@[i] as int == nearest_point_idx(
                    points@,
                    stop_point(stops@[i]),
                )
            &&& r.1@.len() == points@.len()
            &&& forall|j: int|
                0 <= j < points@.len() ==> is_first_nearest_stop(
                    stops@,
                    #[trigger] points@[j],
                    nearest_stop_idx(stops@, points@[j]),
                )
            &&& forall|j: int|
                0 <= j < points@.len() ==> #[trigger] r.1@[j] == adjusted(
                    nearest_stop_idx(stops@, points@[j]),
                    stops@.len() as int,
                    r.0@,
                    j,
                )
            &&& forall|j: int| 0 <= j < points@.len() ==> #[trigger] r.1@[j] < stops@.len()
        },
{
    if stops.len() == 0 || points.len() == 0 {
        return (Vec::new(), Vec::new());
    }
    let mut reverse_stop: Vec<usize> = Vec::new();
    let mut i: usize = 0;
    while i < stops.len()
        invariant
            0 <= i <= stops@.len(),
            points@.len() > 0,
            reverse_stop@.len() == i,
            forall|j: int| 0 <= j < i ==> stop_placed(#[trigger] stops@[j]),
            forall|j: int|
                0 <= j < i ==> is_first_nearest(
                    points@,
                    stop_point(stops@[j]),
                    #[trigger] reverse_stop@[j] as int,
                ),
        decreases stops@.len() - i,
    {
        if stops[i].stop_lat.is_none() || stops[i].stop_lon.is_none() {
            proof {
                assert(!stop_placed(stops@[i as int]));
                assert(cache_degenerate(stops@, points@));
            }
            return (Vec::new(), Vec::new());
        }
        let p = stop_point_of(&stops[i]);
        let k = match find_nearest_point(points, p) {
            Some(k) => k,
            None => {
                return (Vec::new(), Vec::new());
            },
        };
        reverse_stop.push(k);
        i += 1;
    }
    let mut reverse_shape: Vec<usize> = Vec::new();
    let mut j: usize = 0;
    while j < points.len()
        invariant
            0 <= j <= points@.len(),
            stops@.len() > 0,
            points@.len() > 0,
            reverse_stop@.len() == stops@.len(),
            forall|k: int| 0 <= k < stops@.len() ==> stop_placed(#[trigger] stops@[k]),
            reverse_shape@.len() == j,
            forall|q: int|
                0 <= q < j ==> is_first_nearest_stop(
                    stops@,
                    #[trigger] points@[q],
                    nearest_stop_idx(stops@, points@[q]),
                ),
            forall|q: int|
                0 <= q < j ==> #[trigger] reverse_shape@[q] == adjusted(
                    nearest_stop_idx(stops@, points@[q]),
                    stops@.len() as int,
                    reverse_stop@,
                    q,
                ),
            forall|q: int| 0 <= q < j ==> #[trigger] reverse_shape@[q] < stops@.len(),
        decreases points@.len() - j,
    {
        let k = find_nearest_stop(stops, points[j]);
        proof {
            assert(is_first_nearest_stop(stops@, points@[j as int], k as int));
            lemma_first_nearest_stop_unique(
                stops@,
                points@[j as int],
                k as int,
                nearest_stop_idx(stops@, points@[j as int]),
            );
        }
        let out: usize = if k < stops.len() - 1 && reverse_stop[k] <= j {
            k + 1
        } else {
            k
        };
        reverse_shape.push(out);
        j += 1;
    }
    proof {
        assert(!cache_degenerate(stops@, points@));
        assert forall|i: int| 0 <= i < stops@.len() implies #[trigger] reverse_stop@[i] as int
            == crate::geo::nearest_point_idx(points@, stop_point(stops@[i])) by {
            crate::geo::lemma_first_nearest_unique(
                points@,
                stop_point(stops@[i]),
                reverse_stop@[i] as int,
                crate::geo::nearest_point_idx(points@, stop_point(stops@[i])),
            );
        }
    }
    (reverse_stop, reverse_shape)
}

/// Any two first-nearest stop indices for the same point coincide.
pub proof fn lemma_first_nearest_stop_unique(
    stops: Seq<StopTimeRec>,
    p: GeoPoint,
    i: int,
    j: int,
)
    requires
        is_first_nearest_stop(stops, p, i),
        is_first_nearest_stop(stops, p, j),
    ensures
        i == j,
{
    if i < j {
        assert(planar_sq_spec(stop_point(stops[i]), p) > planar_sq_spec(stop_point(stops[j]), p));
        assert(planar_sq_spec(stop_point(stops[i]), p) >= planar_sq_spec(stop_point(stops[j]), p));
    } else if j < i {
        assert(planar_sq_spec(stop_point(stops[j]), p) > planar_sq_spec(stop_point(stops[i]), p));
    }
}

/// The law of the monotone-forward constraint: wherever the unconstrained
/// nearest-stop assignment is itself non-decreasing along the polyline (as
/// it is when stops are ordered consistently with the direction of travel),
/// the adjusted `reverse_shape` table is non-decreasing as well.
pub proof fn lemma_reverse_shape_monotone(
    stops: Seq<StopTimeRec>,
    points: Seq<GeoPoint>,
    rstop: Seq<usize>,
    rshape: Seq<usize>,
)
    requires
        rshape.len() == points.len(),
        forall|j: int|
            0 <= j < points.len() ==> #[trigger] rshape[j] == adjusted(
                nearest_stop_idx(stops, points[j]),
                stops.len() as int,
                rstop,
                j,
            ),
        forall|j1: int, j2: int|
            0 <= j1 < j2 < points.len() ==> nearest_stop_idx(stops, #[trigger] points[j1])
                <= nearest_stop_idx(stops, #[trigger] points[j2]),
    ensures
        forall|j1: int, j2: int| 0 <= j1 <= j2 < points.len() ==> rshape[j1] <= rshape[j2],
{
    assert forall|j1: int, j2: int| 0 <= j1 <= j2 < points.len() implies rshape[j1]
        <= rshape[j2] by {
        if j1 < j2 {
            let k1 = nearest_stop_idx(stops, points[j1]);
            let k2 = nearest_stop_idx(stops, points[j2]);
            assert(k1 <= k2);
            assert(rshape[j1] == adjusted(k1, stops.len() as int, rstop, j1));
            assert(rshape[j2] == adjusted(k2, stops.len() as int, rstop, j2));
            if k1 == k2 {
                if rshape[j1] == k1 + 1 {
                    assert(k1 < stops.len() - 1 && rstop[k1] <= j1);
                    assert(rstop[k2] <= j2);
                }
            }
        }
    }
}

/// Sum of the polyline segments with indices in `[from, to)`.
pub open spec fn seg_sum(segs: Seq<u64>, from: int, to: int) -> int
    decreases to - from,
{
    if from >= to || from < 0 || to > segs.len() {
        0
    } else {
        segs[from] + seg_sum(segs, from + 1, to)
    }
}

/// The segment sum the pipeline walks: indices from `from` up to `to`
/// exclusive, stopping at the end of the polyline, empty when the range is
/// reversed (`to` may be -1 when the target index is zero).
pub open spec fn span_sum(segs: Seq<u64>, from: int, to: int) -> int {
    let t = if to > segs.len() {
        segs.len() as int
    } else {
        to
    };
    if t < from {
        0
    } else {
        seg_sum(segs, from, t)
    }
}

pub proof fn lemma_seg_sum_bounds(segs: Seq<u64>, from: int, to: int, cap: int)
    requires
        forall|i: int| 0 <= i < segs.len() ==> #[trigger] segs[i] <= cap,
        cap >= 0,
    ensures
        0 <= seg_sum(segs, from, to) <= (if to > from {
            (to - from) * cap
        } else {
            0
        }),
    decreases to - from,
{
    if from >= to || from < 0 || to > segs.len() {
        if to > from {
            assert((to - from) * cap >= 0) by (nonlinear_arith)
                requires
                    to - from > 0,
                    cap >= 0,
            ;
        }
    } else {
        lemma_seg_sum_bounds(segs, from + 1, to, cap);
        assert((to - from - 1) * cap + cap == (to - from) * cap) by (nonlinear_arith);
    }
}

pub proof fn lemma_seg_sum_step(segs: Seq<u64>, from: int, to: int)
    requires
        0 <= from <= to < segs.len(),
    ensures
        seg_sum(segs, from, to + 1) == seg_sum(segs, from, to) + segs[to],
    decreases to - from,
{
    if from < to {
        lemma_seg_sum_step(segs, from + 1, to);
    } else {
        assert(seg_sum(segs, to + 1, to + 1) == 0);
    }
}

/// Walk the polyline segments with indices in `[from, to_excl)`, both
/// already clipped to the segment table.
pub fn sum_segments(shape: &ShapeRec, from: usize, to_excl: usize) -> (s: u64)
    requires
        shape.wf(),
        from <= to_excl <= shape.seg_mm@.len(),
    ensures
        s == seg_sum(shape.seg_mm@, from as int, to_excl as int),
{
    let mut s: u64 = 0;
    let mut i: usize = from;
    proof {
        lemma_seg_sum_bounds(
            shape.seg_mm@,
            from as int,
            to_excl as int,
            crate::schedule::SEG_MM_MAX as int,
        );
    }
    while i < to_excl
        invariant
            from <= i <= to_excl <= shape.seg_mm@.len(),
            shape.wf(),
            s == seg_sum(shape.seg_mm@, from as int, i as int),
            s <= (i - from) * (crate::schedule::SEG_MM_MAX as int),
        decreases to_excl - i,
    {
        proof {
            lemma_seg_sum_step(shape.seg_mm@, from as int, i as int);
            assert((i - from) * (crate::schedule::SEG_MM_MAX as int) + (
            crate::schedule::SEG_MM_MAX as int) == (i + 1 - from) * (
            crate::schedule::SEG_MM_MAX as int)) by (nonlinear_arith);
            assert((i + 1 - from) * (crate::schedule::SEG_MM_MAX as int) <= shape.seg_mm@.len() * (
            crate::schedule::SEG_MM_MAX as int)) by (nonlinear_arith)
                requires
                    i + 1 - from <= shape.seg_mm@.len(),
            ;
            assert(shape.seg_mm@.len() * (crate::schedule::SEG_MM_MAX as int) <= 1_000_000 * (
            crate::schedule::SEG_MM_MAX as int)) by (nonlinear_arith)
                requires
                    shape.seg_mm@.len() <= 1_000_000,
            ;
        }
        s = s + shape.seg_mm[i];
        i += 1;
    }
    s
}

/// The service-day clock: the local clock, moved one day forward when the
/// trip runs past midnight and the wall clock has already wrapped (the clock
/// reads less than the first scheduled arrival while the last scheduled
/// arrival lies past 86400).
pub open spec fn current_time_spec(now: u32, stops: Seq<StopTimeRec>) -> int {
    if stops.len() > 0 && stops[0].arrival_time is Some && stops[stops.len()
        - 1].arrival_time is Some && now < stops[0].arrival_time.unwrap() && stops[stops.len()
        - 1].arrival_time.unwrap() > DAY_SECONDS {
        now + DAY_SECONDS
    } else {
        now as int
    }
}

/// Apply the post-midnight adjustment to the local clock.
pub fn get_current_time(now: u32, stops: &Vec<StopTimeRec>) -> (r: u32)
    requires
        now < DAY_SECONDS,
    ensures
        r == current_time_spec(now, stops@),
        r < 2 * DAY_SECONDS,
{
    if stops.len() == 0 {
        return now;
    }
    let first = &stops[0];
    let last = &stops[stops.len() - 1];
    match (first.arrival_time, last.arrival_time) {
        (Some(first_arrival), Some(last_arrival)) => {
            if now < first_arrival && last_arrival > DAY_SECONDS {
                now + DAY_SECONDS
            } else {
                now
            }
        },
        _ => now,
    }
}

/// Index `i` is the first stop with a defined arrival time strictly after
/// `t`.
pub open spec fn is_first_after(stops: Seq<StopTimeRec>, t: int, i: int) -> bool {
    &&& 0 <= i < stops.len()
    &&& stops[i].arrival_time is Some
    &&& stops[i].arrival_time.unwrap() > t
    &&& forall|j: int|
        0 <= j < i ==> !((#[trigger] stops[j].arrival_time) is Some
            && stops[j].arrival_time.unwrap() > t)
}

/// The schedule-clock prediction as a value: the first stop with a defined
/// arrival strictly after `t`, or the last stop when none is.
pub open spec fn spec_theorical(stops: Seq<StopTimeRec>, t: int) -> int {
    if exists|i: int| is_first_after(stops, t, i) {
        choose|i: int| is_first_after(stops, t, i)
    } else {
        stops.len() - 1
    }
}

/// Any two first-after indices coincide.
pub proof fn lemma_first_after_unique(stops: Seq<StopTimeRec>, t: int, i: int, j: int)
    requires
        is_first_after(stops, t, i),
        is_first_after(stops, t, j),
    ensures
        i == j,
{
    if i < j {
        assert(!(stops[i].arrival_time is Some && stops[i].arrival_time.unwrap() > t));
    } else if j < i {
        assert(!(stops[j].arrival_time is Some && stops[j].arrival_time.unwrap() > t));
    }
}

/// The schedule-clock prediction: the first stop whose scheduled arrival is
/// still ahead of the service-day clock, or the last stop when none is.
pub fn find_theorical_stop(stops: &Vec<StopTimeRec>, current_time: u32) -> (r: usize)
    requires
        stops@.len() > 0,
    ensures
        r < stops@.len(),
        (exists|i: int| is_first_after(stops@, current_time as int, i)) ==> is_first_after(
            stops@,
            current_time as int,
            r as int,
        ),
        !(exists|i: int| is_first_after(stops@, current_time as int, i)) ==> r == stops@.len() - 1,
        r as int == spec_theorical(stops@, current_time as int),
{
    let mut i: usize = 0;
    while i < stops.len()
        invariant
            0 <= i <= stops@.len(),
            forall|j: int|
                0 <= j < i ==> !((#[trigger] stops@[j].arrival_time) is Some
                    && stops@[j].arrival_time.unwrap() > current_time),
        decreases stops@.len() - i,
    {
        match stops[i].arrival_time {
            Some(time) => {
                if time > current_time {
                    proof {
                        assert(is_first_after(stops@, current_time as int, i as int));
                        lemma_first_after_unique(
                            stops@,
                            current_time as int,
                            i as int,
                            choose|k: int| is_first_after(stops@, current_time as int, k),
                        );
                    }
                    return i;
                }
            },
            None => {},
        }
        i += 1;
    }
    proof {
        assert forall|k: int| !is_first_after(stops@, current_time as int, k) by {}
    }
    stops.len() - 1
}

/// The estimated delay in milliseconds: the segment's scheduled duration is
/// scaled by the fraction of its distance still to cover, and the result is
/// compared with the scheduled arrival at the upcoming stop.
pub open spec fn delay_ms_spec(current: int, t0: int, t1: int, rem: int, total: int) -> int {
    current * 1000 + ((t1 - t0) * 1000 * rem) / total - t1 * 1000
}

/// Clamp an unbounded millisecond value into the representable range.
pub open spec fn clamp_i64(x: int) -> int {
    if x > i64::MAX {
        i64::MAX as int
    } else if x < i64::MIN {
        i64::MIN as int
    } else {
        x
    }
}

/// For a negative numerator the Euclidean quotient is the negated ceiling
/// of the magnitude's quotient.
proof fn lemma_euclidean_neg_div(a: int, d: int)
    requires
        a >= 0,
        d > 0,
    ensures
        (-a) / d == -((a + d - 1) / d),
{
    vstd::arithmetic::div_mod::lemma_fundamental_div_mod(a, d);
    vstd::arithmetic::div_mod::lemma_mod_bound(a, d);
    vstd::arithmetic::div_mod::lemma_fundamental_div_mod(-a, d);
    vstd::arithmetic::div_mod::lemma_mod_bound(-a, d);
    vstd::arithmetic::div_mod::lemma_fundamental_div_mod(a + d - 1, d);
    vstd::arithmetic::div_mod::lemma_mod_bound(a + d - 1, d);
    assert((-a) / d == -((a + d - 1) / d)) by (nonlinear_arith)
        requires
            a >= 0,
            d > 0,
            a == d * (a / d) + a % d,
            0 <= a % d < d,
            -a == d * ((-a) / d) + (-a) % d,
            0 <= (-a) % d < d,
            a + d - 1 == d * ((a + d - 1) / d) + (a + d - 1) % d,
            0 <= (a + d - 1) % d < d,
    ;
}

/// Compute the delay against the scheduled arrival at the upcoming stop.
/// The bracketing pair may be out of order (a non-monotone schedule): the
/// segment's scheduled duration is then negative and so is the projection.
pub fn get_delay(current_time: u32, t0: u32, t1: u32, remaining_mm: u64, total_mm: u64) -> (d: i64)
    requires
        total_mm > 0,
    ensures
        d == clamp_i64(
            delay_ms_spec(
                current_time as int,
                t0 as int,
                t1 as int,
                remaining_mm as int,
                total_mm as int,
            ),
        ),
{
    let seg_mag: u128 = if t1 >= t0 {
        (t1 - t0) as u128
    } else {
        (t0 - t1) as u128
    };
    proof {
        assert(seg_mag * 1000 * (remaining_mm as u128) <= 0xffff_ffffu128 * 1000
            * 0xffff_ffff_ffff_ffffu128) by (nonlinear_arith)
            requires
                seg_mag <= 0xffff_ffffu128,
                remaining_mm <= 0xffff_ffff_ffff_ffffu64,
        ;
    }
    let num: u128 = seg_mag * 1000 * (remaining_mm as u128);
    let proj: i128 = if t1 >= t0 {
        let p: u128 = num / (total_mm as u128);
        proof {
            assert(p <= num) by (nonlinear_arith)
                requires
                    total_mm >= 1,
                    num >= 0,
                    p == num as int / (total_mm as int),
            ;
            assert((t1 - t0) * 1000 * (remaining_mm as int) == num as int) by (nonlinear_arith)
                requires
                    t1 >= t0,
                    seg_mag == t1 - t0,
                    num == seg_mag * 1000 * (remaining_mm as u128),
            ;
        }
        p as i128
    } else {
        let p: u128 = (num + (total_mm as u128 - 1)) / (total_mm as u128);
        proof {
            assert(p <= num + (total_mm as u128 - 1)) by (nonlinear_arith)
                requires
                    total_mm >= 1,
                    num + (total_mm as u128 - 1) >= 0,
                    p == (num + (total_mm as u128 - 1)) as int / (total_mm as int),
            ;
            assert((t1 - t0) * 1000 * (remaining_mm as int) == -(num as int)) by (nonlinear_arith)
                requires
                    t1 < t0,
                    seg_mag == t0 - t1,
                    num == seg_mag * 1000 * (remaining_mm as u128),
            ;
            lemma_euclidean_neg_div(num as int, total_mm as int);
        }
        -(p as i128)
    };
    let d: i128 = (current_time as i128) * 1000 + proj - (t1 as i128) * 1000;
    if d > i64::MAX as i128 {
        i64::MAX
    } else if d < i64::MIN as i128 {
        i64::MIN
    } else {
        d as i64
    }
}

/// When the segment's scheduled duration is zero and the clock stands
/// exactly at the upcoming stop's scheduled arrival, the delay is zero,
/// whatever fraction of the distance is still to cover.
pub proof fn lemma_delay_zero_on_schedule(current: int, t0: int, t1: int, rem: int, total: int)
    requires
        t0 == t1,
        current == t1,
        rem == total,
        total > 0,
    ensures
        delay_ms_spec(current, t0, t1, rem, total) == 0,
{
    assert((t1 - t0) * 1000 * rem == 0) by (nonlinear_arith)
        requires
            t1 - t0 == 0,
    ;
    assert(0int / total == 0);
}

/// A vehicle with the whole segment still to cover, at the moment the clock
/// reads the previous stop's scheduled arrival, has zero delay.
pub proof fn lemma_delay_zero_at_prior_stop(current: int, t0: int, t1: int, rem: int, total: int)
    requires
        t0 <= t1,
        current == t0,
        rem == total,
        total > 0,
    ensures
        delay_ms_spec(current, t0, t1, rem, total) == 0,
{
    assert(((t1 - t0) * 1000 * total) / total == (t1 - t0) * 1000) by (nonlinear_arith)
        requires
            total > 0,
    ;
}

/// The indices of the stop pair that brackets the upcoming stop.
pub open spec fn pair_first(next: int) -> int {
    if next == 0 {
        0
    } else {
        next - 1
    }
}

pub open spec fn pair_last(next: int) -> int {
    if next == 0 {
        1
    } else {
        next
    }
}

/// Walk the polyline from the vehicle's nearest point towards the polyline
/// position of the upcoming stop; the vehicle-to-polyline leg is added by
/// [`finish_real_time_data`]. When `target` is zero the walked range is
/// empty and only that leg will count.
pub fn remaining_along_shape(shape: &ShapeRec, shape_idx: usize, target: usize) -> (s: u64)
    requires
        shape.wf(),
        shape_idx < shape.points@.len(),
    ensures
        s as int == span_sum(shape.seg_mm@, shape_idx as int, target as int - 1),
{
    let segs_len: usize = shape.seg_mm.len();
    if target == 0 {
        return 0;
    }
    let to0: usize = target - 1;
    let to: usize = if to0 > segs_len {
        segs_len
    } else {
        to0
    };
    if to < shape_idx {
        return 0;
    }
    sum_segments(shape, shape_idx, to)
}

/// The scheduled arrivals bracketing the upcoming stop and the total
/// polyline distance between their polyline positions. `None` when the
/// bracketing pair leaves the stop list or either arrival is missing; the
/// whole record is then dropped.
pub fn calculate_next_stop_data(
    stops: &Vec<StopTimeRec>,
    shape: &ShapeRec,
    reverse_stop: &Vec<usize>,
    next_stop: usize,
) -> (r: Option<(u32, u32, u64)>)
    requires
        shape.wf(),
        stops@.len() > 0,
        reverse_stop@.len() == stops@.len(),
        forall|i: int|
            0 <= i < reverse_stop@.len() ==> #[trigger] reverse_stop@[i] < shape.points@.len(),
        next_stop < stops@.len(),
    ensures
        ({
            let first = pair_first(next_stop as int);
            let last = pair_last(next_stop as int);
            &&& (r is None <==> (last >= stops@.len() || stops@[first].arrival_time is None
                || stops@[last].arrival_time is None))
            &&& (r is Some ==> r.unwrap().0 == stops@[first].arrival_time.unwrap() && r.unwrap().1
                == stops@[last].arrival_time.unwrap() && r.unwrap().2 as int == span_sum(
                shape.seg_mm@,
                reverse_stop@[first] as int,
                reverse_stop@[last] as int,
            ))
        }),
{
    let (first, last): (usize, usize) = if next_stop == 0 {
        (0, 1)
    } else {
        (next_stop - 1, next_stop)
    };
    if last >= stops.len() {
        return None;
    }
    let t0: u32 = match stops[first].arrival_time {
        Some(t) => t,
        None => {
            return None;
        },
    };
    let t1: u32 = match stops[last].arrival_time {
        Some(t) => t,
        None => {
            return None;
        },
    };
    let a: usize = reverse_stop[first];
    let b: usize = reverse_stop[last];
    let segs_len: usize = shape.seg_mm.len();
    let to: usize = if b > segs_len {
        segs_len
    } else {
        b
    };
    let total: u64 = if to < a {
        0
    } else {
        sum_segments(shape, a, to)
    };
    Some((t0, t1, total))
}

/// One decoded feed entity: the plain fields of a vehicle sighting.
pub struct FeedEntity {
    pub id: Option<String>,
    /// Latitude in microdegrees.
    pub latitude: Option<i32>,
    /// Longitude in microdegrees.
    pub longitude: Option<i32>,
    /// Speed in mm/s.
    pub speed: Option<u32>,
    /// Seconds since the epoch.
    pub timestamp: Option<u64>,
    pub route_id: Option<String>,
    pub trip_id: Option<String>,
}

/// A record waiting for one measurement from the caller: the great-circle
/// distance from the vehicle to `nearest`, in millimetres.
pub struct PendingBus {
    pub bus: Bus,
    /// The polyline point nearest to the vehicle.
    pub nearest: GeoPoint,
    /// Along-polyline part of the remaining distance, in millimetres.
    pub sum_mm: u64,
    /// The service-day clock at enrichment time.
    pub current_time: u32,
    /// Scheduled arrival at the stop before the upcoming one.
    pub arrival_first: u32,
    /// Scheduled arrival at the upcoming stop.
    pub arrival_last: u32,
    /// Polyline distance between the two stops' polyline positions.
    pub total_mm: u64,
}

/// Outcome of the first enrichment phase.
pub enum RtStep {
    /// A finished (possibly partially filled) record.
    Complete(Bus),
    /// A record that still needs the vehicle-to-polyline distance.
    NeedsLeg(PendingBus),
}

/// A required field (position or id) is absent: the entity is dropped.
pub open spec fn required_missing(e: FeedEntity) -> bool {
    ||| e.latitude is None
    ||| e.longitude is None
    ||| e.id is None
}

/// The record's timestamp: the feed's, else the wall clock.
pub open spec fn spec_timestamp(e: FeedEntity, now: u64) -> u64 {
    if e.timestamp is Some {
        e.timestamp.unwrap()
    } else {
        now
    }
}

/// The observed speed, zero when the feed omits it.
pub open spec fn spec_speed(e: FeedEntity) -> u32 {
    if e.speed is Some {
        e.speed.unwrap()
    } else {
        0
    }
}

/// The vehicle's position.
pub open spec fn vehicle_point(e: FeedEntity) -> GeoPoint {
    GeoPoint { lat_udeg: e.latitude.unwrap(), lon_udeg: e.longitude.unwrap() }
}

/// The line resolves: the feed names a route and the schedule's first match
/// carries both a short name and an agency.
pub open spec fn line_ok(si: ScheduleIndex, e: FeedEntity) -> bool {
    &&& e.route_id is Some
    &&& crate::schedule::has_first_route(si.routes@, e.route_id.unwrap()@)
    &&& the_route(si, e).short_name is Some
    &&& the_route(si, e).agency_id is Some
}

/// The first route matching the feed's route id.
pub open spec fn the_route(si: ScheduleIndex, e: FeedEntity) -> crate::schedule::RouteRec {
    si.routes@[crate::schedule::first_route_of(si.routes@, e.route_id.unwrap()@)]
}

/// The trip resolves: the feed names a trip the schedule knows.
pub open spec fn trip_ok(si: ScheduleIndex, e: FeedEntity) -> bool {
    &&& e.trip_id is Some
    &&& crate::schedule::has_first_trip(si.trips@, e.trip_id.unwrap()@)
}

/// The first trip matching the feed's trip id.
pub open spec fn the_trip(si: ScheduleIndex, e: FeedEntity) -> crate::schedule::TripRec {
    si.trips@[crate::schedule::first_trip_of(si.trips@, e.trip_id.unwrap()@)]
}

/// The trip's polyline resolves.
pub open spec fn shape_ok(si: ScheduleIndex, e: FeedEntity) -> bool {
    &&& the_trip(si, e).shape_id is Some
    &&& crate::schedule::has_first_shape(si.shapes@, the_trip(si, e).shape_id.unwrap()@)
}

/// The polyline of the trip's shape.
pub open spec fn the_shape(si: ScheduleIndex, e: FeedEntity) -> ShapeRec {
    si.shapes@[crate::schedule::first_shape_of(si.shapes@, the_trip(si, e).shape_id.unwrap()@)]
}

/// The pipeline reaches the speed observation: position, id, line, trip and
/// polyline all resolve.
pub open spec fn reaches_obs(si: ScheduleIndex, e: FeedEntity) -> bool {
    &&& !required_missing(e)
    &&& line_ok(si, e)
    &&& trip_ok(si, e)
    &&& shape_ok(si, e)
}

/// The reverse tables can be built.
pub open spec fn geometry_ok(si: ScheduleIndex, e: FeedEntity) -> bool {
    !cache_degenerate(the_trip(si, e).stop_times@, the_shape(si, e).points@)
}

/// The polyline index nearest to the vehicle.
pub open spec fn spec_shape_idx(si: ScheduleIndex, e: FeedEntity) -> int {
    crate::geo::nearest_point_idx(the_shape(si, e).points@, vehicle_point(e))
}

/// The polyline index associated with stop `i` (the reverse stop table).
pub open spec fn spec_rstop(si: ScheduleIndex, e: FeedEntity, i: int) -> int {
    crate::geo::nearest_point_idx(
        the_shape(si, e).points@,
        stop_point(the_trip(si, e).stop_times@[i]),
    )
}

/// The geometric prediction of the upcoming stop.
pub open spec fn spec_next_stop(si: ScheduleIndex, e: FeedEntity) -> int {
    let stops = the_trip(si, e).stop_times@;
    let points = the_shape(si, e).points@;
    let j = spec_shape_idx(si, e);
    let k = nearest_stop_idx(stops, points[j]);
    if k < stops.len() - 1 && spec_rstop(si, e, k) <= j {
        k + 1
    } else {
        k
    }
}

/// The service-day clock for this trip.
pub open spec fn spec_current_time(si: ScheduleIndex, e: FeedEntity, local: u32) -> int {
    current_time_spec(local, the_trip(si, e).stop_times@)
}

/// The schedule-clock prediction of the upcoming stop.
pub open spec fn spec_theorical_stop(si: ScheduleIndex, e: FeedEntity, local: u32) -> int {
    spec_theorical(the_trip(si, e).stop_times@, spec_current_time(si, e, local))
}

/// The record is dropped after the geometry: the bracketing stop pair falls
/// outside the stop list, or either bracketing arrival is missing.
pub open spec fn drop_after_geometry(si: ScheduleIndex, e: FeedEntity) -> bool {
    let stops = the_trip(si, e).stop_times@;
    let first = pair_first(spec_next_stop(si, e));
    let last = pair_last(spec_next_stop(si, e));
    ||| last >= stops.len()
    ||| stops[first].arrival_time is None
    ||| stops[last].arrival_time is None
}

/// Along-polyline part of the distance still to cover.
pub open spec fn spec_sum_mm(si: ScheduleIndex, e: FeedEntity) -> int {
    span_sum(
        the_shape(si, e).seg_mm@,
        spec_shape_idx(si, e),
        spec_rstop(si, e, spec_next_stop(si, e)) - 1,
    )
}

/// Polyline distance between the bracketing stops' polyline positions.
pub open spec fn spec_total_mm(si: ScheduleIndex, e: FeedEntity) -> int {
    span_sum(
        the_shape(si, e).seg_mm@,
        spec_rstop(si, e, pair_first(spec_next_stop(si, e))),
        spec_rstop(si, e, pair_last(spec_next_stop(si, e))),
    )
}

/// The fields every emitted record carries, straight from the feed.
pub open spec fn bus_seeded(b: Bus, e: FeedEntity, now: u64) -> bool {
    &&& b.timestamp == spec_timestamp(e, now)
    &&& b.id == e.id.unwrap()
    &&& b.latitude == e.latitude.unwrap()
    &&& b.longitude == e.longitude.unwrap()
    &&& b.speed == spec_speed(e)
    &&& b.is_out == false
}

/// The geometric fields still hold their defaults.
pub open spec fn geo_defaults(b: Bus) -> bool {
    &&& b.next_stop == 0
    &&& b.theorical_stop == 0
    &&& b.remaining_distance == 0
    &&& b.delay == 0
}

/// The speed-tracker fields still hold their defaults.
pub open spec fn avg_defaults(b: Bus) -> bool {
    &&& b.average_speed == 0
    &&& b.average_count == 0
}

/// The speed-tracker fields carry the vehicle's rolling mean and window
/// length as stored in `entries`.
pub open spec fn avg_filled(b: Bus, entries: Seq<SpeedEntry>, id: Seq<char>) -> bool {
    let w = window_of(entries, id);
    &&& w.len() > 0
    &&& b.average_speed == window_sum(w) / (w.len() as int)
    &&& b.average_count == w.len()
}

/// Enrich one feed entity against the schedule, recording its speed.
///
/// Returns `None` when a required field is missing or, on the full
/// geometric path, when the bracketing arrivals cannot be read (the record
/// is dropped). Returns a completed partial record as soon as a schedule
/// lookup fails, and otherwise a [`PendingBus`] that still needs the
/// vehicle-to-polyline distance from the caller.
pub fn real_time_data(
    si: &ScheduleIndex,
    tracker: &mut SpeedTracker,
    e: &FeedEntity,
    now_unix: u64,
    local_secs: u32,
) -> (r: Option<RtStep>)
    requires
        si.wf(),
        old(tracker).wf(),
        local_secs < DAY_SECONDS,
    ensures
        final(tracker).wf(),
        !reaches_obs(*si, *e) ==> *final(tracker) == *old(tracker),
        reaches_obs(*si, *e) ==> {
            let id = e.id.unwrap()@;
            &&& contains_id(final(tracker).entries@, id)
            &&& window_of(final(tracker).entries@, id) == push_window(
                window_of(old(tracker).entries@, id),
                spec_speed(*e),
            )
            &&& expire_of(final(tracker).entries@, id) == crate::speed::EXPIRE
        },
        reaches_obs(*si, *e) ==> forall|other: Seq<char>|
            other != e.id.unwrap()@ ==> #[trigger] window_of(final(tracker).entries@, other)
                == window_of(old(tracker).entries@, other),
        reaches_obs(*si, *e) ==> forall|other: Seq<char>|
            other != e.id.unwrap()@ ==> #[trigger] contains_id(final(tracker).entries@, other)
                == contains_id(old(tracker).entries@, other),
        r is None <==> (required_missing(*e) || (reaches_obs(*si, *e) && geometry_ok(*si, *e)
            && drop_after_geometry(*si, *e))),
        (r matches Some(RtStep::Complete(_))) <==> (!required_missing(*e) && !(reaches_obs(*si, *e)
            && geometry_ok(*si, *e))),
        (r matches Some(RtStep::NeedsLeg(_))) <==> (reaches_obs(*si, *e) && geometry_ok(*si, *e)
            && !drop_after_geometry(*si, *e)),
        r matches Some(RtStep::Complete(b)) ==> {
            &&& bus_seeded(b, *e, now_unix)
            &&& geo_defaults(b)
            &&& (e.route_id is None ==> b.line_id@ == "?"@)
            &&& (e.route_id is Some ==> b.line_id == e.route_id.unwrap())
            &&& (!line_ok(*si, *e) ==> b.line@ == "?"@ && b.agency_id@ == "?"@ && b.trip_id@
                == "?"@ && avg_defaults(b))
            &&& (line_ok(*si, *e) ==> b.line == the_route(*si, *e).short_name.unwrap()
                && b.agency_id == the_route(*si, *e).agency_id.unwrap())
            &&& (line_ok(*si, *e) && e.trip_id is None ==> b.trip_id@ == "?"@ && avg_defaults(b))
            &&& (line_ok(*si, *e) && e.trip_id is Some ==> b.trip_id == e.trip_id.unwrap())
            &&& (line_ok(*si, *e) && !reaches_obs(*si, *e) ==> avg_defaults(b))
            &&& (reaches_obs(*si, *e) ==> avg_filled(b, final(tracker).entries@, e.id.unwrap()@))
        },
        r matches Some(RtStep::NeedsLeg(p)) ==> {
            let stops = the_trip(*si, *e).stop_times@;
            &&& bus_seeded(p.bus, *e, now_unix)
            &&& p.bus.line_id == e.route_id.unwrap()
            &&& p.bus.line == the_route(*si, *e).short_name.unwrap()
            &&& p.bus.agency_id == the_route(*si, *e).agency_id.unwrap()
            &&& p.bus.trip_id == e.trip_id.unwrap()
            &&& avg_filled(p.bus, final(tracker).entries@, e.id.unwrap()@)
            &&& p.bus.next_stop as int == spec_next_stop(*si, *e)
            &&& 0 <= spec_next_stop(*si, *e) < stops.len()
            &&& p.bus.theorical_stop as int == spec_theorical_stop(*si, *e, local_secs)
            &&& 0 <= spec_theorical_stop(*si, *e, local_secs) < stops.len()
            &&& p.bus.remaining_distance == 0
            &&& p.bus.delay == 0
            &&& p.nearest == the_shape(*si, *e).points@[spec_shape_idx(*si, *e)]
            &&& p.sum_mm as int == spec_sum_mm(*si, *e)
            &&& p.current_time as int == spec_current_time(*si, *e, local_secs)
            &&& p.arrival_first == stops[pair_first(spec_next_stop(*si, *e))].arrival_time.unwrap()
            &&& p.arrival_last == stops[pair_last(spec_next_stop(*si, *e))].arrival_time.unwrap()
            &&& p.total_mm as int == spec_total_mm(*si, *e)
        },
{
    let (latitude, longitude): (i32, i32) = match (e.latitude, e.longitude) {
        (Some(a), Some(b)) => (a, b),
        _ => {
            return None;
        },
    };
    let id: &String = match &e.id {
        Some(id) => id,
        None => {
            return None;
        },
    };
    let timestamp: u64 = match e.timestamp {
        Some(t) => t,
        None => now_unix,
    };
    let mut bus = Bus::default();
    bus.set_timestamp(timestamp);
    bus.set_id(id.clone());
    bus.set_position(latitude, longitude);
    let speed: u32 = match e.speed {
        Some(s) => {
            bus.set_speed(s);
            s
        },
        None => 0,
    };
    let line_id: &String = match &e.route_id {
        Some(l) => l,
        None => {
            return Some(RtStep::Complete(bus));
        },
    };
    bus.set_line_id(line_id.clone());
    match si.get_line(line_id) {
        Some((line, agency)) => {
            bus.set_line(line);
            bus.set_agency_id(agency);
        },
        None => {
            return Some(RtStep::Complete(bus));
        },
    }
    let trip_id: &String = match &e.trip_id {
        Some(t) => t,
        None => {
            return Some(RtStep::Complete(bus));
        },
    };
    bus.set_trip_id(trip_id.clone());
    let trip = match si.get_trip(trip_id) {
        Some(t) => t,
        None => {
            return Some(RtStep::Complete(bus));
        },
    };
    let shape_id: &String = match &trip.shape_id {
        Some(s) => s,
        None => {
            return Some(RtStep::Complete(bus));
        },
    };
    let shape = match si.get_shape(shape_id) {
        Some(s) => s,
        None => {
            return Some(RtStep::Complete(bus));
        },
    };
    let obs = tracker.observe(id, speed);
    bus.set_average_speed(obs.0);
    bus.set_average_count(obs.1);
    if trip.stop_times.len() == 0 {
        return Some(RtStep::Complete(bus));
    }
    let tables = make_cache(&trip.stop_times, &shape.points);
    let reverse_stop = tables.0;
    let reverse_shape = tables.1;
    if reverse_stop.len() == 0 || reverse_shape.len() == 0 {
        return Some(RtStep::Complete(bus));
    }
    let vp = GeoPoint { lat_udeg: latitude, lon_udeg: longitude };
    let shape_idx: usize = match find_nearest_point(&shape.points, vp) {
        Some(i) => i,
        None => {
            return Some(RtStep::Complete(bus));
        },
    };
    let next_stop: usize = reverse_shape[shape_idx];
    bus.set_next_stop(next_stop);
    let current_time: u32 = get_current_time(local_secs, &trip.stop_times);
    let theorical_stop: usize = find_theorical_stop(&trip.stop_times, current_time);
    bus.set_theorical_stop(theorical_stop);
    let sum_mm: u64 = remaining_along_shape(shape, shape_idx, reverse_stop[next_stop]);
    let next_data = match calculate_next_stop_data(
        &trip.stop_times,
        shape,
        &reverse_stop,
        next_stop,
    ) {
        Some(x) => x,
        None => {
            return None;
        },
    };
    let (t0, t1, total_mm): (u32, u32, u64) = next_data;
    let nearest: GeoPoint = shape.points[shape_idx];
    Some(
        RtStep::NeedsLeg(
            PendingBus {
                bus,
                nearest,
                sum_mm,
                current_time,
                arrival_first: t0,
                arrival_last: t1,
                total_mm,
            },
        ),
    )
}

/// Finish a pending record with the measured vehicle-to-polyline distance:
/// fill the remaining distance (saturating) and, when the bracketing
/// distance is positive, the interpolated delay.
pub fn finish_real_time_data(p: PendingBus, leg_mm: u64) -> (b: Bus)
    ensures
        ({
            let rem = if leg_mm + p.sum_mm > u64::MAX {
                u64::MAX as int
            } else {
                leg_mm + p.sum_mm
            };
            let dly = if p.total_mm > 0 {
                clamp_i64(
                    delay_ms_spec(
                        p.current_time as int,
                        p.arrival_first as int,
                        p.arrival_last as int,
                        rem,
                        p.total_mm as int,
                    ),
                )
            } else {
                p.bus.delay as int
            };
            b == (Bus { remaining_distance: b.remaining_distance, delay: b.delay, ..p.bus })
                && b.remaining_distance == rem && b.delay == dly
        }),
{
    let rem: u64 = if leg_mm > u64::MAX - p.sum_mm {
        u64::MAX
    } else {
        leg_mm + p.sum_mm
    };
    let mut bus = p.bus;
    bus.set_remaining_distance(rem);
    if p.total_mm > 0 {
        let d = get_delay(p.current_time, p.arrival_first, p.arrival_last, rem, p.total_mm);
        bus.set_delay(d);
    }
    bus
}

} // verus!
