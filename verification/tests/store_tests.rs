use base64::Engine;
use std::io::{Read, Write};
use transit_rt::bus::Bus;
use transit_rt::fetcher::pace_millis;
use transit_rt::clock::cycle_inputs;
use transit_rt::schedule::{RouteRec, ScheduleIndex, ShapeRec};
use transit_rt::store::Store;

/// The externally observable encoding chain, computed independently.
fn expected_snapshot(json_text: &str) -> Vec<u8> {
    let b64 = base64::engine::general_purpose::STANDARD.encode(json_text.as_bytes());
    let mut enc = flate2::write::GzEncoder::new(Vec::new(), flate2::Compression::best());
    enc.write_all(b64.as_bytes()).unwrap();
    enc.finish().unwrap()
}

fn decode_snapshot(z: &[u8]) -> String {
    let mut gz = flate2::read::GzDecoder::new(z);
    let mut b64 = String::new();
    gz.read_to_string(&mut b64).unwrap();
    let bytes = base64::engine::general_purpose::STANDARD.decode(b64.as_bytes()).unwrap();
    String::from_utf8(bytes).unwrap()
}

#[test]
fn initial_snapshot_is_empty_array() {
    let store = Store::new("sec");
    assert_eq!(store.retrieve_json(), expected_snapshot("[]"));
    assert!(store.raw_data().is_empty());
}

#[test]
fn empty_feed_snapshot() {
    // A cycle with zero entities publishes the empty array.
    let mut store = Store::new("sec");
    store.refresh_raw(Vec::new());
    assert!(store.refresh(&Vec::new()));
    assert_eq!(store.retrieve_json(), expected_snapshot("[]"));
    assert!(store.raw_data().is_empty());
}

#[test]
fn raw_bytes_reserved_verbatim() {
    let mut store = Store::new("sec");
    store.refresh_raw(vec![1, 2, 3, 255]);
    assert_eq!(store.raw_data(), vec![1, 2, 3, 255]);
    // unchanged until the next refresh
    assert_eq!(store.raw_data(), vec![1, 2, 3, 255]);
    store.refresh_raw(vec![9]);
    assert_eq!(store.raw_data(), vec![9]);
}

#[test]
fn snapshot_round_trips_through_the_encoders() {
    let mut store = Store::new("sec");
    let mut bus = Bus::default();
    bus.set_id(String::from("a\"b"));
    bus.set_timestamp(42);
    bus.set_position(50_630_000, -5_570_000);
    bus.set_speed(27_000);
    bus.set_delay(-1500);
    let batch = vec![bus];
    assert!(store.refresh(&batch));
    let text = decode_snapshot(&store.retrieve_json());
    assert!(text.starts_with("[{\"timestamp\":42,\"id\":\"a\\\"b\","));
    // fixed-point quantities are published in their documented units
    assert!(text.contains("\"latitude\":50.630000"));
    assert!(text.contains("\"longitude\":-5.570000"));
    assert!(text.contains("\"speed\":27.000"));
    assert!(text.contains("\"remaining_distance\":0.000"));
    assert!(text.contains("\"delay\":-1.500"));
    assert!(text.ends_with("}]"));
    // and the chain really compressed and encoded: raw JSON is not stored
    assert_ne!(store.retrieve_json(), text.as_bytes().to_vec());
}

#[test]
fn snapshot_of_two_records_is_comma_joined() {
    let mut store = Store::new("sec");
    let mut a = Bus::default();
    a.set_id(String::from("a"));
    let mut b = Bus::default();
    b.set_id(String::from("b"));
    assert!(store.refresh(&vec![a, b]));
    let text = decode_snapshot(&store.retrieve_json());
    assert_eq!(text.matches("{\"timestamp\":").count(), 2);
    assert!(text.contains("},{"));
}

#[test]
fn schedule_reload_requires_the_secret() {
    let mut store = Store::new("s3cr3t");
    let si = ScheduleIndex {
        routes: vec![RouteRec { id: String::from("r"), short_name: None, agency_id: None }],
        trips: Vec::new(),
        shapes: Vec::new(),
    };
    let err = store.refresh_gtfs("wrong", si).unwrap_err();
    assert_eq!(err, "Internal error");
    assert_eq!(store.get_gtfs().routes.len(), 0);

    let si = ScheduleIndex {
        routes: vec![RouteRec { id: String::from("r"), short_name: None, agency_id: None }],
        trips: Vec::new(),
        shapes: Vec::new(),
    };
    assert!(store.refresh_gtfs("s3cr3t", si).is_ok());
    assert_eq!(store.get_gtfs().routes.len(), 1);
}

#[test]
fn empty_secret_rejects_all_reloads() {
    let mut store = Store::new("");
    let si = ScheduleIndex { routes: Vec::new(), trips: Vec::new(), shapes: Vec::new() };
    let err = store.refresh_gtfs("", si).unwrap_err();
    assert_eq!(err, "Internal error");
}

#[test]
fn shape_constructor_validates() {
    let p = transit_rt::geo::GeoPoint { lat_udeg: 0, lon_udeg: 0 };
    // one segment missing
    assert!(ShapeRec::new(String::from("s"), vec![p, p, p], vec![5]).is_none());
    // plausible shape accepted
    assert!(ShapeRec::new(String::from("s"), vec![p, p, p], vec![5, 6]).is_some());
    // an implausibly long segment is rejected
    assert!(ShapeRec::new(String::from("s"), vec![p, p], vec![u64::MAX]).is_none());
}

#[test]
fn pacing_of_the_fetch_loop() {
    assert_eq!(pace_millis(0), 5000);
    assert_eq!(pace_millis(1200), 3800);
    assert_eq!(pace_millis(4999), 1);
    assert_eq!(pace_millis(5000), 1000);
    assert_eq!(pace_millis(60_000), 1000);
}

#[test]
fn clock_readings_in_range() {
    let (_, local) = cycle_inputs();
    assert!(local < 86_400);
}
