//! CMOS real-time clock: turning register values into a date and time.

use vstd::prelude::*;

verus! {

#[derive(Clone, Copy, Debug, Default, PartialEq, Eq, Structural)]
pub struct DateTime {
    pub year: u16,
    pub month: u8,
    pub day: u8,
    pub hour: u8,
    pub minute: u8,
    pub second: u8,
}

impl DateTime {
    /// A plausible calendar date and hour.
    pub fn is_valid(&self) -> (r: bool)
        ensures
            r == (1 <= self.month <= 12 && 1 <= self.day <= 31 && self.hour < 24),
    {
        self.month >= 1 && self.month <= 12 && self.day >= 1 && self.day <= 31 && self.hour < 24
    }
}

/// The clock registers as read.
#[derive(Clone, Copy, Debug, PartialEq, Eq, Structural)]
pub struct Raw {
    pub second: u8,
    pub minute: u8,
    pub hour: u8,
    pub day: u8,
    pub month: u8,
    pub year: u8,
    pub century: u8,
}

/// Two BCD digits as a number.
pub open spec fn bcd_value(v: u8) -> int {
    (v % 16) + (v / 16) * 10
}

pub fn from_bcd(value: u8) -> (r: u8)
    ensures
        r == bcd_value(value),
{
    proof {
        assert(value & 0x0F == value % 16) by (bit_vector);
        assert(value >> 4 == value / 16) by (bit_vector);
    }
    (value & 0x0F) + ((value >> 4) * 10)
}

/// A register as a number: binary already, or BCD.
pub open spec fn reg_value(v: u8, binary: bool) -> int {
    if binary { v as int } else { bcd_value(v) }
}

/// The hour register in 24-hour terms.
pub open spec fn hour_value(raw: u8, binary: bool, twenty_four: bool) -> int {
    let pm = !twenty_four && raw >= 0x80;
    let h = reg_value((raw % 0x80) as u8, binary);
    if !twenty_four && pm && h < 12 {
        h + 12
    } else if !twenty_four && !pm && h == 12 {
        0
    } else {
        h
    }
}

/// The date and time the registers describe, under status register B
/// (bit 2: binary rather than BCD; bit 1: 24-hour clock). A century
/// register of 0 or 0xFF means the 21st century.
pub open spec fn decoded(raw: Raw, status_b: u8) -> DateTime {
    let binary = status_b & 0x04 != 0;
    let tf = status_b & 0x02 != 0;
    let century = if raw.century != 0 && raw.century != 0xFF { reg_value(raw.century, binary) } else { 20 };
    DateTime {
        year: (century * 100 + reg_value(raw.year, binary)) as u16,
        month: reg_value(raw.month, binary) as u8,
        day: reg_value(raw.day, binary) as u8,
        hour: hour_value(raw.hour, binary, tf) as u8,
        minute: reg_value(raw.minute, binary) as u8,
        second: reg_value(raw.second, binary) as u8,
    }
}

fn convert(value: u8, binary: bool) -> (r: u8)
    ensures
        r == reg_value(value, binary),
{
    if binary { value } else { from_bcd(value) }
}

/// Turn raw clock registers into a date and time.
pub fn decode(raw: Raw, status_b: u8) -> (r: DateTime)
    ensures
        r == decoded(raw, status_b),
{
    let binary = status_b & 0x04 != 0;
    let twenty_four_hour = status_b & 0x02 != 0;
    let second = convert(raw.second, binary);
    let minute = convert(raw.minute, binary);
    let h = raw.hour;
    let pm = !twenty_four_hour && (h & 0x80) != 0;
    proof {
        assert(h & 0x80 != 0 <==> h >= 0x80) by (bit_vector);
        assert(h & 0x7F == h % 0x80) by (bit_vector);
    }
    let mut hour = convert(h & 0x7F, binary);
    if !twenty_four_hour {
        if pm && hour < 12 {
            hour += 12;
        } else if !pm && hour == 12 {
            hour = 0;
        }
    }
    let day = convert(raw.day, binary);
    let month = convert(raw.month, binary);
    let year_in_century = convert(raw.year, binary) as u16;
    let century: u16 = if raw.century != 0 && raw.century != 0xFF { convert(raw.century, binary) as u16 } else { 20 };
    DateTime { year: century * 100 + year_in_century, month, day, hour, minute, second }
}

} // verus!
