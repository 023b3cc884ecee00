//! The process-wide snapshot store.
//!
//! One store holds the latest raw feed bytes, the latest encoded JSON
//! snapshot, the schedule index, the reload secret and the speed tracker.
//! A single writer mutates it; readers take snapshot copies of the byte
//! buffers.

use crate::bus::Bus;
use crate::codec::{base64_of, base64_encode, gzip_best, gzip_best_of};
use crate::json::{json_batch, json_of_batch};
use crate::schedule::ScheduleIndex;
use crate::speed::SpeedTracker;
use vstd::prelude::*;
use vstd::string::StrSliceExecFns;
use vstd::string::StringSliceAdditionalSpecFns;

verus! {

/// A reload candidate is accepted exactly when a secret is configured and
/// the candidate equals it.
pub open spec fn secret_accepted(stored: Seq<u8>, candidate: Seq<u8>) -> bool {
    stored.len() > 0 && stored == candidate
}

/// Copy a byte buffer.
fn copy_bytes(v: &Vec<u8>) -> (r: Vec<u8>)
    ensures
        r@ == v@,
{
    let mut out: Vec<u8> = Vec::new();
    let mut i: usize = 0;
    while i < v.len()
        invariant
            0 <= i <= v@.len(),
            out@ == v@.take(i as int),
        decreases v@.len() - i,
    {
        out.push(v[i]);
        proof {
            assert(v@.take(i as int).push(v@[i as int]) =~= v@.take(i + 1));
        }
        i += 1;
    }
    proof {
        assert(v@.take(v@.len() as int) =~= v@);
    }
    out
}

/// Compare two byte buffers without an early exit on the first differing
/// byte (authentication-by-equality should not leak where the difference
/// lies; only the length check exits early).
fn bytes_equal_ct(a: &Vec<u8>, b: &Vec<u8>) -> (r: bool)
    ensures
        r == (a@ == b@),
{
    if a.len() != b.len() {
        proof {
            assert(a@ != b@);
        }
        return false;
    }
    let mut diff: u8 = 0;
    let mut i: usize = 0;
    while i < a.len()
        invariant
            0 <= i <= a@.len(),
            a@.len() == b@.len(),
            (diff == 0) <==> (forall|j: int| 0 <= j < i ==> a@[j] == b@[j]),
        decreases a@.len() - i,
    {
        let x = a[i];
        let y = b[i];
        let z: u8 = x ^ y;
        proof {
            assert((x ^ y == 0) == (x == y)) by (bit_vector);
            assert(((diff | z) == 0) == (diff == 0 && z == 0)) by (bit_vector);
        }
        diff = diff | z;
        i += 1;
    }
    proof {
        if diff == 0 {
            assert(a@ =~= b@);
        } else {
            if a@ == b@ {
                assert(forall|j: int| 0 <= j < a@.len() ==> a@[j] == b@[j]);
            }
        }
    }
    diff == 0
}

/// Encode a snapshot: base64, then gzip at best level. `None` exactly when
/// the input is too large for the base64 engine's buffer arithmetic.
fn encode_snapshot(v: &Vec<u8>) -> (r: Option<Vec<u8>>)
    ensures
        r is Some <==> v@.len() <= usize::MAX as int / 4,
        r is Some ==> r.unwrap()@ == gzip_best_of(base64_of(v@)),
{
    if v.len() > usize::MAX / 4 {
        return None;
    }
    let b = base64_encode(v);
    gzip_best(b.as_str())
}

/// The process-wide snapshot store.
pub struct Store {
    /// Latest raw feed bytes, re-served verbatim.
    pub raw: Vec<u8>,
    /// Latest snapshot: `gzip(base64(json))` of the enriched batch.
    pub json: Vec<u8>,
    /// The loaded schedule index.
    pub schedule: ScheduleIndex,
    /// The shared secret gating schedule reloads, as UTF-8 bytes.
    pub secret: Vec<u8>,
    /// The per-vehicle speed windows.
    pub speed_tracker: SpeedTracker,
}

impl Store {
    /// Well-formedness of the mutable parts.
    pub open spec fn wf(&self) -> bool {
        &&& self.schedule.wf()
        &&& self.speed_tracker.wf()
    }

    /// A fresh store: empty raw buffer, empty schedule, empty tracker, and
    /// the snapshot of the empty batch.
    pub fn new(secret: &str) -> (r: Store)
        ensures
            r.wf(),
            r.raw@ =~= Seq::<u8>::empty(),
            r.secret@ == secret.spec_bytes(),
            r.schedule.routes@.len() == 0,
            r.schedule.trips@.len() == 0,
            r.schedule.shapes@.len() == 0,
            r.speed_tracker.entries@.len() == 0,
            r.json@ == gzip_best_of(base64_of(json_batch(Seq::<Bus>::empty()))),
    {
        let empty_batch: Vec<Bus> = Vec::new();
        let jb = json_of_batch(&empty_batch);
        proof {
            assert(empty_batch@ =~= Seq::<Bus>::empty());
            assert(json_batch(Seq::<Bus>::empty()) =~= seq![91u8, 93u8]);
        }
        let json: Vec<u8> = match encode_snapshot(&jb) {
            Some(z) => z,
            None => Vec::new(),
        };
        Store {
            raw: Vec::new(),
            json,
            schedule: ScheduleIndex::new(),
            secret: secret.as_bytes_vec(),
            speed_tracker: SpeedTracker::new(),
        }
    }

    /// The schedule index currently loaded.
    pub fn get_gtfs(&self) -> (r: &ScheduleIndex)
        ensures
            *r == self.schedule,
    {
        &self.schedule
    }

    /// The speed tracker, for observation and aging.
    pub fn get_speeds(&mut self) -> (r: &mut SpeedTracker)
        ensures
            *r == old(self).speed_tracker,
            *final(self) == (Store { speed_tracker: *final(r), ..*old(self) }),
    {
        &mut self.speed_tracker
    }

    /// Whether a reload candidate is accepted: a secret must be configured
    /// and the candidate must equal it.
    pub fn check_secret(&self, candidate: &str) -> (r: bool)
        ensures
            r == secret_accepted(self.secret@, candidate.spec_bytes()),
    {
        if self.secret.len() == 0 {
            return false;
        }
        let cand: Vec<u8> = candidate.as_bytes_vec();
        bytes_equal_ct(&self.secret, &cand)
    }

    /// Swap in a freshly loaded schedule, gated by the shared secret. A
    /// missing or wrong secret yields the generic "Internal error" and
    /// leaves the store untouched.
    pub fn refresh_gtfs(&mut self, secret: &str, schedule: ScheduleIndex) -> (r: Result<
        (),
        String,
    >)
        requires
            schedule.wf(),
        ensures
            r is Ok <==> secret_accepted(old(self).secret@, secret.spec_bytes()),
            r is Ok ==> *final(self) == (Store { schedule: schedule, ..*old(self) }),
            r is Err ==> *final(self) == *old(self) && r.unwrap_err()@ == "Internal error"@,
            old(self).wf() ==> final(self).wf(),
    {
        if !self.check_secret(secret) {
            return Err("Internal error".to_owned());
        }
        self.schedule = schedule;
        Ok(())
    }

    /// Replace the raw feed bytes wholesale.
    pub fn refresh_raw(&mut self, raw: Vec<u8>)
        ensures
            *final(self) == (Store { raw: raw, ..*old(self) }),
    {
        self.raw = raw;
    }

    /// Replace the JSON snapshot with the encoding of the given batch.
    /// Succeeds for every batch whose JSON text fits the base64 engine's
    /// buffer arithmetic; on the (astronomically large) remainder the
    /// previous snapshot stays.
    pub fn refresh(&mut self, buses: &Vec<Bus>) -> (ok: bool)
        ensures
            *final(self) == (Store { json: final(self).json, ..*old(self) }),
            ok <==> json_batch(buses@).len() <= usize::MAX as int / 4,
            ok ==> final(self).json@ == gzip_best_of(base64_of(json_batch(buses@))),
            !ok ==> final(self).json == old(self).json,
    {
        let jb = json_of_batch(buses);
        match encode_snapshot(&jb) {
            Some(z) => {
                self.json = z;
                true
            },
            None => false,
        }
    }

    /// A snapshot copy of the encoded JSON document.
    pub fn retrieve_json(&self) -> (r: Vec<u8>)
        ensures
            r@ == self.json@,
    {
        copy_bytes(&self.json)
    }

    /// A snapshot copy of the raw feed bytes.
    pub fn raw_data(&self) -> (r: Vec<u8>)
        ensures
            r@ == self.raw@,
    {
        copy_bytes(&self.raw)
    }
}

} // verus!
