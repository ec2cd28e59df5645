//! Programming the programmable interval timer's channel 0 as a square-wave
//! generator at a chosen frequency.

use vstd::prelude::*;

verus! {

pub const PIT_CMD_PORT: u16 = 0x43;
pub const PIT_DATA_PORT_0: u16 = 0x40;
/// The timer's input clock in Hz.
pub const PIT_BASE_FREQUENCY: u32 = 1193182;
/// Channel 0, low byte then high byte, mode 3 (square wave), binary.
pub const PIT_COMMAND: u8 = 0x36;

/// The three bytes that program the timer: the command for the command
/// port, then the divisor's low and high bytes for channel 0.
#[derive(Clone, Copy, Debug, PartialEq, Eq, Structural)]
pub struct PitProgram {
    pub command: u8,
    pub low: u8,
    pub high: u8,
}

/// The divisor of the input clock for `freq_hz`.
pub open spec fn divisor(freq_hz: u32) -> int {
    PIT_BASE_FREQUENCY as int / freq_hz as int
}

/// The bytes that set the timer to tick at `frequency` Hz: the divisor of
/// the 1193182 Hz input clock, low byte first (a divisor above 16 bits keeps
/// its low 16 bits).
pub fn init(frequency: u32) -> (r: PitProgram)
    requires
        frequency != 0,
    ensures
        r.command == PIT_COMMAND,
        r.low == divisor(frequency) % 256,
        r.high == (divisor(frequency) / 256) % 256,
{
    let divisor = PIT_BASE_FREQUENCY / frequency;
    let low = (divisor & 0xFF) as u8;
    let high = ((divisor >> 8u32) & 0xFF) as u8;
    assert(divisor & 0xFF == divisor % 256) by (bit_vector);
    assert((divisor >> 8u32) & 0xFF == (divisor / 256) % 256) by (bit_vector);
    PitProgram { command: PIT_COMMAND, low, high }
}

/// The two data bytes give back the divisor whenever it fits in 16 bits,
/// that is for every frequency of at least 19 Hz.
pub proof fn divisor_round_trip(frequency: u32, low: u8, high: u8)
    requires
        frequency >= 19,
        low == divisor(frequency) % 256,
        high == (divisor(frequency) / 256) % 256,
    ensures
        high * 256 + low == divisor(frequency),
{
    let f = frequency as int;
    assert(1193182int / f <= 1193182int / 19) by (nonlinear_arith)
        requires f >= 19;
}

} // verus!
