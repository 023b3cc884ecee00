//! The enriched vehicle record.
//!
//! Every field is a plain fixed-point value: position in microdegrees,
//! speeds in millimetres per second, the remaining distance in millimetres
//! and the delay in milliseconds (positive when behind schedule).

use vstd::prelude::*;

verus! {

/// One enriched vehicle sighting. Fields not derivable from the inputs at
/// hand keep their defaults (partial fill).
pub struct Bus {
    /// Seconds since the epoch, from the feed or the wall clock.
    pub timestamp: u64,
    /// Vehicle id, from the feed.
    pub id: String,
    /// Displayed short name of the line.
    pub line: String,
    /// Route id, from the feed.
    pub line_id: String,
    /// Trip id, from the feed.
    pub trip_id: String,
    /// Agency operating the line.
    pub agency_id: String,
    /// Latitude in microdegrees.
    pub latitude: i32,
    /// Longitude in microdegrees.
    pub longitude: i32,
    /// Observed speed in mm/s (zero when the feed omits it).
    pub speed: u32,
    /// Rolling mean speed in mm/s, from the speed tracker.
    pub average_speed: u32,
    /// Number of speeds in the rolling window.
    pub average_count: usize,
    /// Index into the trip's stop times: geometric prediction.
    pub next_stop: usize,
    /// Index into the trip's stop times: schedule-clock prediction.
    pub theorical_stop: usize,
    /// Along-shape distance to the next stop, in millimetres.
    pub remaining_distance: u64,
    /// Estimated delay in milliseconds; positive means late.
    pub delay: i64,
    /// Reserved; always false.
    pub is_out: bool,
}

impl Default for Bus {
    /// The all-defaults record: unknown strings are `"?"`, numbers zero.
    fn default() -> (b: Self)
        ensures
            b.timestamp == 0,
            b.id@ == "?"@,
            b.line@ == "?"@,
            b.line_id@ == "?"@,
            b.trip_id@ == "?"@,
            b.agency_id@ == "?"@,
            b.latitude == 0,
            b.longitude == 0,
            b.speed == 0,
            b.average_speed == 0,
            b.average_count == 0,
            b.next_stop == 0,
            b.theorical_stop == 0,
            b.remaining_distance == 0,
            b.delay == 0,
            b.is_out == false,
    {
        Bus {
            timestamp: 0,
            id: "?".to_owned(),
            line: "?".to_owned(),
            line_id: "?".to_owned(),
            trip_id: "?".to_owned(),
            agency_id: "?".to_owned(),
            latitude: 0,
            longitude: 0,
            speed: 0,
            average_speed: 0,
            average_count: 0,
            next_stop: 0,
            theorical_stop: 0,
            remaining_distance: 0,
            delay: 0,
            is_out: false,
        }
    }
}

impl Bus {
    pub fn set_agency_id(&mut self, agency_id: String)
        ensures
            *final(self) == (Bus { agency_id: agency_id, ..*old(self) }),
    {
        self.agency_id = agency_id;
    }

    pub fn set_timestamp(&mut self, timestamp: u64)
        ensures
            *final(self) == (Bus { timestamp: timestamp, ..*old(self) }),
    {
        self.timestamp = timestamp;
    }

    pub fn set_position(&mut self, latitude: i32, longitude: i32)
        ensures
            *final(self) == (Bus { latitude: latitude, longitude: longitude, ..*old(self) }),
    {
        self.latitude = latitude;
        self.longitude = longitude;
    }

    pub fn set_id(&mut self, id: String)
        ensures
            *final(self) == (Bus { id: id, ..*old(self) }),
    {
        self.id = id;
    }

    pub fn set_line(&mut self, line: String)
        ensures
            *final(self) == (Bus { line: line, ..*old(self) }),
    {
        self.line = line;
    }

    pub fn set_line_id(&mut self, line_id: String)
        ensures
            *final(self) == (Bus { line_id: line_id, ..*old(self) }),
    {
        self.line_id = line_id;
    }

    pub fn set_trip_id(&mut self, trip_id: String)
        ensures
            *final(self) == (Bus { trip_id: trip_id, ..*old(self) }),
    {
        self.trip_id = trip_id;
    }

    pub fn set_speed(&mut self, speed: u32)
        ensures
            *final(self) == (Bus { speed: speed, ..*old(self) }),
    {
        self.speed = speed;
    }

    pub fn set_average_speed(&mut self, average_speed: u32)
        ensures
            *final(self) == (Bus { average_speed: average_speed, ..*old(self) }),
    {
        self.average_speed = average_speed;
    }

    pub fn set_average_count(&mut self, average_count: usize)
        ensures
            *final(self) == (Bus { average_count: average_count, ..*old(self) }),
    {
        self.average_count = average_count;
    }

    pub fn set_next_stop(&mut self, next_stop: usize)
        ensures
            *final(self) == (Bus { next_stop: next_stop, ..*old(self) }),
    {
        self.next_stop = next_stop;
    }

    pub fn set_theorical_stop(&mut self, theorical_stop: usize)
        ensures
            *final(self) == (Bus { theorical_stop: theorical_stop, ..*old(self) }),
    {
        self.theorical_stop = theorical_stop;
    }

    pub fn set_remaining_distance(&mut self, remaining_distance: u64)
        ensures
            *final(self) == (Bus { remaining_distance: remaining_distance, ..*old(self) }),
    {
        self.remaining_distance = remaining_distance;
    }

    pub fn set_delay(&mut self, delay: i64)
        ensures
            *final(self) == (Bus { delay: delay, ..*old(self) }),
    {
        self.delay = delay;
    }

    pub fn set_is_out(&mut self, is_out: bool)
        ensures
            *final(self) == (Bus { is_out: is_out, ..*old(self) }),
    {
        self.is_out = is_out;
    }
}

} // verus!
