//! Uptime from the ticks of the legacy interval timer.

use vstd::prelude::*;
use crate::interrupts::pic::PortWrite;

verus! {

/// Rate of the timer before it is programmed, in ticks per second.
pub const DEFAULT_HZ: u32 = 18;

/// Input clock of the interval timer, in cycles per second.
pub const PIT_INPUT_HZ: u32 = 1_193_182;

/// Command port of the interval timer.
pub const PIT_COMMAND: u16 = 0x43;

/// Data port of channel 0 of the interval timer.
pub const PIT_CHANNEL0: u16 = 0x40;

/// Command for channel 0: low byte then high byte, square wave.
pub const PIT_MODE: u8 = 0x36;

/// The tick counter and the rate it counts at.
#[derive(Clone, Copy, Debug, PartialEq, Eq, Structural)]
pub struct Clock {
    pub hz: u32,
    pub ticks: u64,
}

impl Clock {
    /// A clock at the default rate that has not ticked yet.
    pub fn new() -> (clock: Self)
        ensures
            clock == (Clock { hz: DEFAULT_HZ, ticks: 0 }),
    {
        Clock { hz: DEFAULT_HZ, ticks: 0 }
    }
}

/// The divisor that makes the timer tick `hz` times a second: the input
/// clock divided by the rate, kept between 1 and 65535.
pub open spec fn spec_divisor(hz: u32) -> u32 {
    let raw = PIT_INPUT_HZ / hz;
    if raw > 65_535 {
        65_535
    } else if raw < 1 {
        1
    } else {
        raw
    }
}

/// Sets the clock's rate to `hz` and gives the port writes that program the
/// timer for it: the mode command, then the divisor's low and high byte.
pub fn init_pit(clock: &mut Clock, hz: u32) -> (program: [PortWrite; 3])
    requires
        hz > 0,
    ensures
        final(clock).hz == hz,
        final(clock).ticks == old(clock).ticks,
        program@ == seq![
            PortWrite { port: PIT_COMMAND, value: PIT_MODE },
            PortWrite { port: PIT_CHANNEL0, value: (spec_divisor(hz) & 0xFF) as u8 },
            PortWrite { port: PIT_CHANNEL0, value: (spec_divisor(hz) >> 8) as u8 },
        ],
{
    let raw: u32 = PIT_INPUT_HZ / hz;
    let clamped: u32 = if raw > 65_535 {
        65_535
    } else if raw < 1 {
        1
    } else {
        raw
    };
    clock.hz = hz;
    let program = [
        PortWrite { port: PIT_COMMAND, value: PIT_MODE },
        PortWrite { port: PIT_CHANNEL0, value: (clamped & 0xFF) as u8 },
        PortWrite { port: PIT_CHANNEL0, value: (clamped >> 8) as u8 },
    ];
    assert(program@ =~= seq![
        PortWrite { port: PIT_COMMAND, value: PIT_MODE },
        PortWrite { port: PIT_CHANNEL0, value: (spec_divisor(hz) & 0xFF) as u8 },
        PortWrite { port: PIT_CHANNEL0, value: (spec_divisor(hz) >> 8) as u8 },
    ]);
    program
}

/// Counts one tick; the counter wraps around after 2^64 ticks.
pub fn tick(clock: &mut Clock)
    ensures
        final(clock).hz == old(clock).hz,
        final(clock).ticks == (if old(clock).ticks == u64::MAX {
            0
        } else {
            old(clock).ticks + 1
        }),
{
    clock.ticks = if clock.ticks == u64::MAX {
        0
    } else {
        clock.ticks + 1
    };
}

/// Ticks since boot.
pub fn uptime_ticks(clock: &Clock) -> (ticks: u64)
    ensures
        ticks == clock.ticks,
{
    clock.ticks
}

/// The rate the clock counts at.
pub fn frequency_hz(clock: &Clock) -> (hz: u32)
    ensures
        hz == clock.hz,
{
    clock.hz
}

/// The rate used to convert ticks: the clock's, or 1 where that is 0.
pub open spec fn spec_rate(clock: Clock) -> int {
    if clock.hz == 0 {
        1
    } else {
        clock.hz as int
    }
}

/// Milliseconds since boot, rounded down.
pub fn uptime_ms(clock: &Clock) -> (ms: u64)
    requires
        clock.ticks * 1000 <= u64::MAX,
    ensures
        ms == (clock.ticks * 1000) / spec_rate(*clock),
{
    let ticks = uptime_ticks(clock);
    let hz: u64 = if frequency_hz(clock) == 0 {
        1
    } else {
        frequency_hz(clock) as u64
    };
    (ticks * 1_000) / hz
}

} // verus!
