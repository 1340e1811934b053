//! Frame-timing bookkeeping that the window's main loop keeps per second.

use vstd::prelude::*;

verus! {

/// Counters the main loop updates once per frame and folds once per second.
#[allow(dead_code)]
pub struct Metrics {
    last_second: u64,
    frames: u64,
    fps: u64,
    last_frame: u64,
    delta: u64,
    ticks: u64,
    tps: u64,
    tick_remainder: u64,
}

} // verus!
