//! Timer arithmetic: milliseconds from timer ticks, and the absolute
//! deadline for the next timer interrupt.  Reading the hardware counter
//! and programming the comparator happen outside the library.

use vstd::prelude::*;
use crate::config::{TASK_QUEUE_FCFS1_SLICE, TICKS_PER_MSEC};

verus! {

/// Milliseconds a tick count amounts to.
pub fn ticks_to_ms(ticks: u64) -> (r: u64)
    ensures
        r == ticks / TICKS_PER_MSEC,
{
    ticks / TICKS_PER_MSEC
}

/// The absolute counter value to arm next, one interval from now.
pub fn next_timeout(now: u64, interval: u64) -> (r: u64)
    requires
        now + interval <= u64::MAX,
    ensures
        r == now + interval,
{
    now + interval
}

/// The deadline the very first slice is armed with.
pub fn first_timeout(now: u64) -> (r: u64)
    requires
        now + TASK_QUEUE_FCFS1_SLICE <= u64::MAX,
    ensures
        r == now + TASK_QUEUE_FCFS1_SLICE,
{
    now + TASK_QUEUE_FCFS1_SLICE
}

} // verus!
