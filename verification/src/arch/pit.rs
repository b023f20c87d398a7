//! The programmable interval timer: HALCYON's heartbeat.
//!
//! It runs at 1000 Hz. Programming the chip and counting its interrupts is
//! the caller's part; the arithmetic that turns ticks into time is here.

use vstd::prelude::*;

verus! {

/// The PIT's input clock.
pub const BASE_FREQUENCY: u32 = 1_193_182;

/// Timer interrupts per second.
pub const TICK_HZ: u32 = 1000;

/// The reload value for channel 0 that gives `TICK_HZ`.
pub fn divisor() -> (d: u16)
    ensures
        d == BASE_FREQUENCY / TICK_HZ,
{
    (BASE_FREQUENCY / TICK_HZ) as u16
}

/// Milliseconds since the timer started, after `ticks` interrupts.
pub fn uptime_ms(ticks: u64) -> (ms: u64)
    requires
        ticks * 1000 <= u64::MAX,
    ensures
        ms == ticks * 1000 / (TICK_HZ as int),
{
    ticks * 1000 / TICK_HZ as u64
}

/// The tick count `ms` milliseconds after `now`: what a busy wait or a
/// sleep waits for.
pub fn deadline(now: u64, ms: u64) -> (target: u64)
    requires
        ms * (TICK_HZ as int) <= u64::MAX,
        now + ms * (TICK_HZ as int) / 1000 <= u64::MAX,
    ensures
        target == now + ms * (TICK_HZ as int) / 1000,
{
    now + ms * TICK_HZ as u64 / 1000
}

} // verus!
