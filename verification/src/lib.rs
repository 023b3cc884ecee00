//! Real-time transit fleet enrichment.
//!
//! The library ingests decoded vehicle sightings from a realtime feed,
//! enriches each one with schedule context (line, trip, polyline, stop
//! sequence), keeps a rolling per-vehicle speed window with expiry, and
//! publishes snapshots (raw feed bytes and an encoded JSON document) from a
//! single store.
//!
//! Geometry is carried in fixed-point units throughout: coordinates in
//! microdegrees, distances in millimetres, speeds in millimetres per second,
//! delays in milliseconds.

pub mod bus;
pub mod clock;
pub mod codec;
pub mod enrich;
pub mod fetcher;
pub mod geo;
pub mod json;
pub mod schedule;
pub mod speed;
pub mod store;

pub use geo::GeoPoint;
