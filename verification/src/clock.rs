//! Wall-clock readings for the fetch cycle.

use vstd::prelude::*;

verus! {

/// Relies on chrono's `Local::now().time().num_seconds_from_midnight()`:
/// the number of non-leap seconds past the local midnight, always below
/// 86400 (a leap second is carried in the sub-second field).
#[verifier::external_body]
fn local_seconds_of_day() -> (r: u32)
    ensures
        r < 86400,
{
    chrono::Timelike::num_seconds_from_midnight(&chrono::Local::now().time())
}

/// Relies on chrono's `Utc::now().timestamp()`: the current number of
/// non-leap seconds since the epoch. Nothing is promised of the value.
#[verifier::external_body]
fn unix_now_seconds() -> (r: u64)
{
    chrono::Utc::now().timestamp() as u64
}

/// The two clock readings one fetch cycle works with: seconds since the
/// epoch, and local seconds since midnight (always below 86400).
pub fn cycle_inputs() -> (r: (u64, u32))
    ensures
        r.1 < 86400,
{
    (unix_now_seconds(), local_seconds_of_day())
}

} // verus!
