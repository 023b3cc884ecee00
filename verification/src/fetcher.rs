//! Decisions of the periodic fetch loop.
//!
//! The loop itself performs I/O (fetching and decoding the feed) and is
//! driven from outside; the per-cycle decisions live here.

use vstd::prelude::*;

verus! {

/// Milliseconds one fetch cycle aims to take.
pub const CYCLE_MS: u64 = 5000;

/// Milliseconds to wait after a cycle that overran its slot.
pub const OVERRUN_PAUSE_MS: u64 = 1000;

/// How long to sleep after a cycle that took `elapsed_ms`: the rest of the
/// five-second slot, or a one-second pause when the cycle overran it (a
/// slow cycle must not starve the loop, and the loop must not busy-spin).
pub fn pace_millis(elapsed_ms: u64) -> (r: u64)
    ensures
        elapsed_ms < CYCLE_MS ==> r == CYCLE_MS - elapsed_ms,
        elapsed_ms >= CYCLE_MS ==> r == OVERRUN_PAUSE_MS,
{
    if elapsed_ms < CYCLE_MS {
        CYCLE_MS - elapsed_ms
    } else {
        OVERRUN_PAUSE_MS
    }
}

} // verus!
