//! The real-time clock of the CMOS: turning its raw registers into a date
//! and time. Reading the registers is port I/O, done by the caller.
use vstd::prelude::*;

verus! {

/// Register holding the seconds.
pub const REG_SECONDS: u8 = 0x00;

/// Register holding the minutes.
pub const REG_MINUTES: u8 = 0x02;

/// Register holding the hours.
pub const REG_HOURS: u8 = 0x04;

/// Register holding the day of the month.
pub const REG_DAY: u8 = 0x07;

/// Register holding the month.
pub const REG_MONTH: u8 = 0x08;

/// Register holding the year within the century.
pub const REG_YEAR: u8 = 0x09;

/// Status register B: the format of the other registers.
pub const REG_STATUS_B: u8 = 0x0b;

/// Register holding the century.
pub const REG_CENTURY: u8 = 0x32;

/// A date and time.
#[derive(Clone, Copy, Debug, PartialEq, Eq, Structural)]
pub struct DateTime {
    pub year: u16,
    pub month: u8,
    pub day: u8,
    pub hours: u8,
    pub minutes: u8,
    pub seconds: u8,
}

/// The raw values of the clock's registers.
#[derive(Clone, Copy, Debug, PartialEq, Eq, Structural)]
pub struct CmosRegisters {
    pub status_b: u8,
    pub century: u8,
    pub year: u8,
    pub month: u8,
    pub day: u8,
    pub hours: u8,
    pub minutes: u8,
    pub seconds: u8,
}

/// The value of a register: as is in binary format, else read as two BCD
/// digits.
pub open spec fn spec_convert(is_binary: bool, value: u8) -> int {
    if is_binary {
        value as int
    } else {
        (value / 16) * 10 + value % 16
    }
}

/// An hour register of the 12-hour format brought to 24 hours: bit 7 marks
/// the afternoon, bits 3 to 6 hold the hour.
pub open spec fn spec_convert_to_24h(value: u8) -> u8 {
    let hour = value & 0x78;
    let hour = if value & 0x80 != 0 {
        (hour + 12) as u8
    } else {
        hour
    };
    if hour == 24 {
        0
    } else {
        hour
    }
}

/// The hour register brought to 24 hours, then read in the clock's format.
pub open spec fn spec_hours(regs: CmosRegisters) -> int {
    let (is_24h, is_binary) = spec_format_info(regs.status_b);
    spec_convert(
        is_binary,
        if is_24h {
            regs.hours
        } else {
            spec_convert_to_24h(regs.hours)
        },
    )
}

/// Whether the clock counts in 24 hours (bit 1 of status register B) and in
/// binary rather than BCD (bit 2).
pub open spec fn spec_format_info(status_b: u8) -> (bool, bool) {
    ((status_b >> 1u8) & 1 == 1, (status_b >> 2u8) & 1 == 1)
}

fn convert_to_24h(value: u8) -> (r: u8)
    ensures
        r == spec_convert_to_24h(value),
{
    let is_pm = (value & 0x80) != 0;
    let mut hour = value & 0x78;
    assert(value & 0x78 <= 0x78) by (bit_vector);
    if is_pm {
        hour = hour + 12;
    }
    if hour == 24 {
        hour = 0;
    }
    hour
}

fn convert(is_binary: bool, value: u8) -> (r: u8)
    ensures
        r == spec_convert(is_binary, value),
{
    if !is_binary {
        assert(((value & 0xf0) >> 1u8) as int + ((value & 0xf0) >> 3u8) as int + (value & 0xf) as int
            == (value / 16) as int * 10 + (value % 16) as int) by (bit_vector);
        assert(((value & 0xf0) >> 1u8) <= 120 && ((value & 0xf0) >> 3u8) <= 30 && (value & 0xf) <= 15)
            by (bit_vector);
        ((value & 0xf0) >> 1) + ((value & 0xf0) >> 3) + (value & 0xf)
    } else {
        value
    }
}

fn format_info(status_b: u8) -> (r: (bool, bool))
    ensures
        r == spec_format_info(status_b),
{
    let is_24h_format = ((status_b >> 1) & 0x1) == 0x1;
    let is_binary_format = ((status_b >> 2) & 0x1) == 0x1;
    (is_24h_format, is_binary_format)
}

/// The date and time that the registers hold, in the format that status
/// register B gives.
pub fn get_datetime(regs: &CmosRegisters) -> (r: DateTime)
    ensures
        ({
            let is_binary = spec_format_info(regs.status_b).1;
            &&& r.year == spec_convert(is_binary, regs.century) * 100 + spec_convert(
                is_binary,
                regs.year,
            )
            &&& r.month == spec_convert(is_binary, regs.month)
            &&& r.day == spec_convert(is_binary, regs.day)
            &&& r.hours == spec_hours(*regs)
            &&& r.minutes == spec_convert(is_binary, regs.minutes)
            &&& r.seconds == spec_convert(is_binary, regs.seconds)
        }),
{
    let format = format_info(regs.status_b);
    let century = convert(format.1, regs.century) as u16;
    let year = convert(format.1, regs.year) as u16;
    assert(century <= 255 && year <= 255);
    let year = century * 100 + year;
    let month = convert(format.1, regs.month);
    let day = convert(format.1, regs.day);
    let hours = convert(
        format.1,
        if !format.0 {
            convert_to_24h(regs.hours)
        } else {
            regs.hours
        },
    );
    let minutes = convert(format.1, regs.minutes);
    let seconds = convert(format.1, regs.seconds);
    DateTime { year, month, day, hours, minutes, seconds }
}

} // verus!
