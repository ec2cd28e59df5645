//! Decoding the real-time clock: the CMOS time registers, in BCD or binary,
//! with 12- or 24-hour hours, into a date and time.

use vstd::prelude::*;

verus! {

pub const CMOS_ADDRESS: u16 = 0x70;
pub const CMOS_DATA: u16 = 0x71;
pub const REG_SECOND: u8 = 0x00;
pub const REG_MINUTE: u8 = 0x02;
pub const REG_HOUR: u8 = 0x04;
pub const REG_DAY: u8 = 0x07;
pub const REG_MONTH: u8 = 0x08;
pub const REG_YEAR: u8 = 0x09;
pub const REG_STATUS_A: u8 = 0x0A;
pub const REG_STATUS_B: u8 = 0x0B;
pub const REG_CENTURY: u8 = 0x32;

/// A date and time read from the clock.
#[derive(Debug, Clone, Copy, PartialEq, Eq, Structural)]
pub struct DateTime {
    pub second: u8,
    pub minute: u8,
    pub hour: u8,
    pub day: u8,
    pub month: u8,
    pub year: u16,
}

/// The clock's registers as read once the clock is not updating.
#[derive(Debug, Clone, Copy, PartialEq, Eq, Structural)]
pub struct CmosTime {
    pub second: u8,
    pub minute: u8,
    pub hour: u8,
    pub day: u8,
    pub month: u8,
    pub year: u8,
    /// Status register B: bit 2 set means binary, bit 1 set means 24-hour.
    pub register_b: u8,
    /// The century register, 0 where the machine has none.
    pub century: u8,
}

/// The value of a two-digit BCD byte: the low nibble plus ten times the
/// high nibble.
pub open spec fn bcd_value(b: u8) -> int {
    (b % 16) + (b / 16) * 10
}

/// Status register B says the registers hold BCD.
pub open spec fn is_bcd(regs: CmosTime) -> bool {
    regs.register_b & 0x04 == 0
}

pub open spec fn decode(regs: CmosTime, v: u8) -> int {
    if is_bcd(regs) { bcd_value(v) } else { v as int }
}

/// The hour in 24-hour form. Bit 7 of the hour register marks PM; in
/// 12-hour mode (bit 1 of register B clear) the clock counts 12, 1, ..., 11,
/// so 12 AM is hour 0 and 12 PM is hour 12. In 24-hour mode the hour stands
/// as it is.
pub open spec fn decoded_hour(regs: CmosTime) -> int {
    let h = decode(regs, regs.hour & 0x7F);
    if regs.register_b & 0x02 == 0 {
        h % 12 + if regs.hour & 0x80 != 0 { 12int } else { 0int }
    } else {
        h
    }
}

/// The full year: two digits plus the century register's hundreds, or, with
/// no century register, 2000 for years below 80 and 1900 otherwise.
pub open spec fn decoded_year(regs: CmosTime) -> int {
    let y = decode(regs, regs.year);
    if regs.century != 0 {
        y + decode(regs, regs.century) * 100
    } else if y < 80 {
        y + 2000
    } else {
        y + 1900
    }
}

/// Convert a BCD byte to binary.
pub fn bcd_to_binary(bcd: u8) -> (r: u8)
    ensures
        r == bcd_value(bcd),
{
    assert(bcd & 0x0F == bcd % 16) by (bit_vector);
    (bcd & 0x0F) + ((bcd / 16) * 10)
}

/// The date and time the clock's registers `regs` hold.
pub fn read_datetime(regs: &CmosTime) -> (r: DateTime)
    ensures
        r.second == decode(*regs, regs.second),
        r.minute == decode(*regs, regs.minute),
        r.hour == decoded_hour(*regs),
        r.day == decode(*regs, regs.day),
        r.month == decode(*regs, regs.month),
        r.year == decoded_year(*regs),
{
    let mut second = regs.second;
    let mut minute = regs.minute;
    let mut day = regs.day;
    let mut month = regs.month;
    let mut year = regs.year as u16;
    let register_b = regs.register_b;
    let raw = regs.hour;
    let pm = (raw & 0x80) != 0;
    let low = raw & 0x7F;
    assert(low <= 0x7F) by (bit_vector)
        requires low == raw & 0x7F;
    let h = if (register_b & 0x04) == 0 { bcd_to_binary(low) } else { low };
    let hour = if (register_b & 0x02) == 0 {
        h % 12 + if pm { 12u8 } else { 0u8 }
    } else {
        h
    };
    if (register_b & 0x04) == 0 {
        second = bcd_to_binary(second);
        minute = bcd_to_binary(minute);
        day = bcd_to_binary(day);
        month = bcd_to_binary(month);
        year = bcd_to_binary(year as u8) as u16;
    }
    let century = regs.century;
    if century != 0 {
        let c: u16 = if (register_b & 0x04) == 0 {
            bcd_to_binary(century) as u16
        } else {
            century as u16
        };
        year = year + c * 100;
    } else {
        year = year + if year < 80 { 2000 } else { 1900 };
    }
    DateTime { second, minute, hour, day, month, year }
}

/// Decoding undoes BCD encoding: the BCD byte of a two-digit number
/// decodes to that number.
pub proof fn bcd_round_trip(v: u8)
    requires
        v < 100,
    ensures
        bcd_value(((v / 10) * 16 + v % 10) as u8) == v,
{
}

} // verus!
