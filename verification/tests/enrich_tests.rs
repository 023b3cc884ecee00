use transit_rt::bus::Bus;
use transit_rt::enrich::{
    find_nearest_stop, find_theorical_stop, finish_real_time_data, get_current_time, get_delay,
    make_cache, real_time_data, FeedEntity, RtStep,
};
use transit_rt::geo::{find_nearest_point, planar_sq, GeoPoint};
use transit_rt::schedule::{RouteRec, ScheduleIndex, ShapeRec, StopTimeRec, TripRec};
use transit_rt::speed::SpeedTracker;

fn point(lat: i32, lon: i32) -> GeoPoint {
    GeoPoint { lat_udeg: lat, lon_udeg: lon }
}

fn stop(lat: i32, lon: i32, arrival: u32) -> StopTimeRec {
    StopTimeRec { stop_lat: Some(lat), stop_lon: Some(lon), arrival_time: Some(arrival) }
}

/// A schedule with one route, one trip of three stops, and a collinear
/// five-point polyline with 2 km segments.
fn sample_schedule(arrivals: [u32; 3]) -> ScheduleIndex {
    let shape = ShapeRec::new(
        String::from("shp"),
        vec![
            point(50_610_000, 5_570_000),
            point(50_630_000, 5_570_000),
            point(50_650_000, 5_570_000),
            point(50_670_000, 5_570_000),
            point(50_690_000, 5_570_000),
        ],
        vec![2_000_000, 2_000_000, 2_000_000, 2_000_000],
    )
    .expect("shape within bounds");
    ScheduleIndex {
        routes: vec![RouteRec {
            id: String::from("48"),
            short_name: Some(String::from("48")),
            agency_id: Some(String::from("TEC")),
        }],
        trips: vec![TripRec {
            id: String::from("trip-1"),
            shape_id: Some(String::from("shp")),
            stop_times: vec![
                stop(50_600_000, 5_570_000, arrivals[0]),
                stop(50_655_000, 5_570_000, arrivals[1]),
                stop(50_690_000, 5_570_000, arrivals[2]),
            ],
        }],
        shapes: vec![shape],
    }
}

fn full_entity() -> FeedEntity {
    FeedEntity {
        id: Some(String::from("veh-9")),
        latitude: Some(50_630_000),
        longitude: Some(5_570_000),
        speed: Some(27_000),
        timestamp: Some(1_700_000_000),
        route_id: Some(String::from("48")),
        trip_id: Some(String::from("trip-1")),
    }
}

#[test]
fn planar_distance_symmetric_and_zero() {
    let a = point(50_630_000, 5_570_000);
    let b = point(-3_000_000, 179_999_999);
    assert_eq!(planar_sq(a, b), planar_sq(b, a));
    assert_eq!(planar_sq(a, a), 0);
    assert_eq!(planar_sq(b, b), 0);
}

#[test]
fn nearest_point_prefers_earliest_on_tie() {
    let pts = vec![point(10, 0), point(30, 0), point(30, 0), point(29, 0)];
    assert_eq!(find_nearest_point(&pts, point(30, 0)), Some(1));
    assert_eq!(find_nearest_point(&pts, point(0, 0)), Some(0));
    assert_eq!(find_nearest_point(&Vec::new(), point(0, 0)), None);
}

#[test]
fn nearest_stop_ranking() {
    let stops = vec![
        stop(50_600_000, 5_570_000, 600),
        stop(50_655_000, 5_570_000, 720),
        stop(50_690_000, 5_570_000, 840),
    ];
    assert_eq!(find_nearest_stop(&stops, point(50_630_000, 5_570_000)), 1);
    assert_eq!(find_nearest_stop(&stops, point(50_700_000, 5_570_000)), 2);
}

#[test]
fn reverse_tables_of_sample_schedule() {
    let si = sample_schedule([600, 720, 840]);
    let trip = &si.trips[0];
    let shape = &si.shapes[0];
    let (reverse_stop, reverse_shape) = make_cache(&trip.stop_times, &shape.points);
    assert_eq!(reverse_stop, vec![0, 2, 4]);
    // weakly monotone along the polyline
    for w in reverse_shape.windows(2) {
        assert!(w[0] <= w[1]);
    }
    assert_eq!(reverse_shape.len(), 5);
    assert!(reverse_shape.iter().all(|&s| s < trip.stop_times.len()));
}

#[test]
fn reverse_tables_empty_when_a_stop_is_unplaced() {
    let mut si = sample_schedule([600, 720, 840]);
    si.trips[0].stop_times[1].stop_lat = None;
    let (rs, rsh) = make_cache(&si.trips[0].stop_times, &si.shapes[0].points);
    assert!(rs.is_empty());
    assert!(rsh.is_empty());
}

#[test]
fn theorical_stop_first_future_arrival() {
    let stops = vec![
        stop(0, 0, 600),
        stop(0, 0, 720),
        stop(0, 0, 840),
    ];
    assert_eq!(find_theorical_stop(&stops, 660), 1);
    assert_eq!(find_theorical_stop(&stops, 599), 0);
    // none in the future: the last stop
    assert_eq!(find_theorical_stop(&stops, 900), 2);
}

#[test]
fn current_time_wraps_past_midnight() {
    // Post-midnight service: arrivals reach past 86400 and the clock has
    // already rolled over, so the service-day clock moves one day forward.
    let stops = vec![
        stop(0, 0, 85_800),
        stop(0, 0, 86_400),
        stop(0, 0, 87_000),
    ];
    assert_eq!(get_current_time(300, &stops), 86_700);
    // no wrap when the clock is still before midnight
    assert_eq!(get_current_time(85_900, &stops), 85_900);
    // no wrap when the service day ends before midnight
    let day_stops = vec![stop(0, 0, 600), stop(0, 0, 840)];
    assert_eq!(get_current_time(300, &day_stops), 300);
}

#[test]
fn delay_zero_when_on_schedule() {
    // Clock at the previous stop's arrival with the whole segment ahead.
    assert_eq!(get_delay(600, 600, 720, 4_000_000, 4_000_000), 0);
    // Clock at the upcoming arrival with nothing left to cover.
    assert_eq!(get_delay(720, 600, 720, 0, 4_000_000), 0);
    // Degenerate bracketing pair with equal arrivals.
    assert_eq!(get_delay(720, 720, 720, 5, 5), 0);
}

#[test]
fn delay_linear_interpolation() {
    // Half the segment still to cover at its scheduled end: half the
    // segment's duration late, minus nothing else.
    // 660_000 + 120_000 * (2/4) - 720_000 = 0
    assert_eq!(get_delay(660, 600, 720, 2_000_000, 4_000_000), 0);
    // Behind: clock past the arrival with distance remaining.
    // 780_000 + 60_000 - 720_000 = 120_000
    assert_eq!(get_delay(780, 600, 720, 2_000_000, 4_000_000), 120_000);
    // Ahead: nothing left well before the arrival.
    assert_eq!(get_delay(600, 600, 720, 0, 4_000_000), -120_000);
}

#[test]
fn single_vehicle_full_data() {
    // One entity with full data against the sample schedule, clock at 660.
    let si = sample_schedule([600, 720, 840]);
    let mut tracker = SpeedTracker::new();
    let e = full_entity();
    let step = real_time_data(&si, &mut tracker, &e, 1_700_000_001, 660)
        .expect("record emitted");
    let pending = match step {
        RtStep::NeedsLeg(p) => p,
        RtStep::Complete(_) => panic!("expected the full geometric path"),
    };
    assert_eq!(pending.bus.id, "veh-9");
    assert_eq!(pending.bus.timestamp, 1_700_000_000);
    assert_eq!(pending.bus.line, "48");
    assert_eq!(pending.bus.agency_id, "TEC");
    assert_eq!(pending.bus.trip_id, "trip-1");
    assert_eq!(pending.bus.speed, 27_000);
    assert_eq!(pending.bus.average_speed, 27_000);
    assert_eq!(pending.bus.average_count, 1);
    assert_eq!(pending.bus.next_stop, 1);
    assert_eq!(pending.bus.theorical_stop, 1);
    assert_eq!(pending.current_time, 660);
    assert_eq!(pending.arrival_first, 600);
    assert_eq!(pending.arrival_last, 720);
    // vehicle sits on polyline point 1; the next stop's polyline position
    // is point 2, two segments from point 0
    assert_eq!(pending.nearest, point(50_630_000, 5_570_000));
    assert_eq!(pending.sum_mm, 0);
    assert_eq!(pending.total_mm, 4_000_000);

    // vehicle exactly on its nearest polyline point: zero leg
    let bus = finish_real_time_data(pending, 0);
    assert_eq!(bus.remaining_distance, 0);
    // 660_000 + 0 - 720_000
    assert_eq!(bus.delay, -60_000);
}

#[test]
fn post_midnight_delay_uses_adjusted_clock() {
    let si = sample_schedule([85_800, 86_400, 87_000]);
    let mut tracker = SpeedTracker::new();
    let e = full_entity();
    let step = real_time_data(&si, &mut tracker, &e, 1_700_000_001, 300)
        .expect("record emitted");
    let pending = match step {
        RtStep::NeedsLeg(p) => p,
        RtStep::Complete(_) => panic!("expected the full geometric path"),
    };
    assert_eq!(pending.current_time, 86_700);
    assert_eq!(pending.bus.theorical_stop, 2);
    assert_eq!(pending.arrival_first, 85_800);
    assert_eq!(pending.arrival_last, 86_400);
    let bus = finish_real_time_data(pending, 0);
    // 86_700_000 + 0 - 86_400_000
    assert_eq!(bus.delay, 300_000);
}

#[test]
fn partial_fill_unknown_route() {
    let si = sample_schedule([600, 720, 840]);
    let mut tracker = SpeedTracker::new();
    let mut e = full_entity();
    e.route_id = Some(String::from("not-a-route"));
    let step = real_time_data(&si, &mut tracker, &e, 7, 660).expect("record emitted");
    let bus = match step {
        RtStep::Complete(b) => b,
        RtStep::NeedsLeg(_) => panic!("unknown route must stop the pipeline"),
    };
    assert_eq!(bus.id, "veh-9");
    assert_eq!(bus.latitude, 50_630_000);
    assert_eq!(bus.longitude, 5_570_000);
    assert_eq!(bus.speed, 27_000);
    assert_eq!(bus.line_id, "not-a-route");
    // the lookup failed before the line, trip and tracker stages
    assert_eq!(bus.line, "?");
    assert_eq!(bus.agency_id, "?");
    assert_eq!(bus.trip_id, "?");
    assert_eq!(bus.average_speed, 0);
    assert_eq!(bus.average_count, 0);
    assert_eq!(bus.next_stop, 0);
    assert_eq!(bus.theorical_stop, 0);
    assert_eq!(bus.delay, 0);
    assert_eq!(tracker.len(), 0);
}

#[test]
fn delay_with_negative_segment() {
    // An out-of-order bracketing pair gives a negative scheduled duration;
    // the projection floors (Euclidean), so -1000/3 rounds to -334.
    assert_eq!(get_delay(600, 601, 600, 1, 3), -334);
    assert_eq!(get_delay(700, 720, 600, 4_000_000, 4_000_000), -20_000);
}

#[test]
fn out_of_order_arrivals_still_emit_a_record() {
    // A non-monotone schedule brackets the upcoming stop with arrivals
    // 720 then 600: the record is still emitted and the delay is computed
    // from the signed segment.
    let si = sample_schedule([720, 600, 840]);
    let mut tracker = SpeedTracker::new();
    let e = full_entity();
    let step = real_time_data(&si, &mut tracker, &e, 7, 660).expect("record emitted");
    let pending = match step {
        RtStep::NeedsLeg(p) => p,
        RtStep::Complete(_) => panic!("expected the full geometric path"),
    };
    assert_eq!(pending.arrival_first, 720);
    assert_eq!(pending.arrival_last, 600);
    assert_eq!(pending.total_mm, 4_000_000);
    // nothing left to cover: the projection is zero
    let bus = finish_real_time_data(pending, 0);
    // 660_000 + 0 - 600_000
    assert_eq!(bus.delay, 60_000);

    // the whole segment left: the full (negative) duration projects
    let mut tracker = SpeedTracker::new();
    let step = real_time_data(&si, &mut tracker, &e, 7, 660).expect("record emitted");
    let pending = match step {
        RtStep::NeedsLeg(p) => p,
        RtStep::Complete(_) => panic!("expected the full geometric path"),
    };
    let bus = finish_real_time_data(pending, 4_000_000);
    // 660_000 - 120_000 - 600_000
    assert_eq!(bus.delay, -60_000);
}

#[test]
fn missing_required_field_drops_entity() {
    let si = sample_schedule([600, 720, 840]);
    let mut tracker = SpeedTracker::new();
    let mut e = full_entity();
    e.latitude = None;
    assert!(real_time_data(&si, &mut tracker, &e, 7, 660).is_none());
    let mut e = full_entity();
    e.id = None;
    assert!(real_time_data(&si, &mut tracker, &e, 7, 660).is_none());
}

#[test]
fn wall_clock_fallback_for_timestamp() {
    let si = sample_schedule([600, 720, 840]);
    let mut tracker = SpeedTracker::new();
    let mut e = full_entity();
    e.timestamp = None;
    let step = real_time_data(&si, &mut tracker, &e, 1_234, 660).expect("record emitted");
    let bus = match step {
        RtStep::NeedsLeg(p) => p.bus,
        RtStep::Complete(b) => b,
    };
    assert_eq!(bus.timestamp, 1_234);
}

#[test]
fn missing_arrival_time_drops_record() {
    // The bracketing pair needs both arrivals: remove the upcoming one.
    let mut si = sample_schedule([600, 720, 840]);
    si.trips[0].stop_times[1].arrival_time = None;
    let mut tracker = SpeedTracker::new();
    let e = full_entity();
    // The pipeline reaches the geometry and then drops the record, but the
    // sighting was recorded first.
    assert!(real_time_data(&si, &mut tracker, &e, 7, 660).is_none());
    assert_eq!(tracker.len(), 1);
}

#[test]
fn default_bus_and_setters() {
    let mut b = Bus::default();
    assert_eq!(b.id, "?");
    assert_eq!(b.line, "?");
    assert_eq!(b.timestamp, 0);
    assert_eq!(b.delay, 0);
    assert!(!b.is_out);
    b.set_id(String::from("v"));
    b.set_position(1, 2);
    b.set_delay(-5);
    b.set_is_out(true);
    assert_eq!(b.id, "v");
    assert_eq!(b.latitude, 1);
    assert_eq!(b.longitude, 2);
    assert_eq!(b.delay, -5);
    assert!(b.is_out);
}
