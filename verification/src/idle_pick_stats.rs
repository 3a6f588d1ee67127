//! The counters of a build without the mouse-pick benchmark: they have no
//! names and stay zero.

use vstd::prelude::*;

verus! {

pub const NAMES: [&'static str; 8] = ["", "", "", "", "", "", "", ""];

pub const TIMER_NAMES: [&'static str; 3] = ["", "", ""];

pub fn bump(_i: usize) {
}

pub fn take() -> (counters: [u64; 8])
    ensures
        counters@ == seq![0u64, 0, 0, 0, 0, 0, 0, 0],
{
    [0; 8]
}

/// A timer that does not run.
#[must_use]
pub struct Timer;

pub fn timer(_i: usize) -> (timer: Timer)
    ensures
        timer == Timer,
{
    Timer
}

pub fn take_timers() -> (timers: [u64; 3])
    ensures
        timers@ == seq![0u64, 0, 0],
{
    [0; 3]
}

} // verus!
