use vstd::prelude::*;

verus! {

/// CMOS register of the seconds.
pub const RTC_SECONDS: u8 = 0x00;

/// CMOS register of the minutes.
pub const RTC_MINUTES: u8 = 0x02;

/// CMOS register of the hours.
pub const RTC_HOURS: u8 = 0x04;

/// CMOS status register B.
pub const RTC_STATUS_B: u8 = 0x0B;

/// A BCD byte as a binary number.
pub open spec fn bcd(v: u8) -> int {
    (v & 0x0F) + (v / 16) * 10
}

/// The (hour, minute, second) the raw CMOS registers mean: binary unless status B says BCD
/// (bit 2 clear; the hour's PM flag, bit 7, is kept apart from its digits), and 24-hour
/// unless status B says 12-hour (bit 1 clear), in which case the PM flag adds twelve,
/// modulo 24, and is removed.
pub open spec fn rtc_time(second: u8, minute: u8, hour: u8, register_b: u8) -> (u8, u8, u8) {
    let (s, m, h) = if register_b & 0x04 == 0 {
        (bcd(second) as u8, bcd(minute) as u8, ((bcd(hour & 0x7F) as u8) | (hour & 0x80)) as u8)
    } else {
        (second, minute, hour)
    };
    let h2 = if register_b & 0x02 == 0 && h & 0x80 != 0 {
        (((h & 0x7F) + 12) % 24) as u8
    } else {
        h
    };
    (h2, m, s)
}

/// Decodes the raw seconds, minutes, hours and status B registers into
/// (hour, minute, second).
pub fn get_time(second: u8, minute: u8, hour: u8, register_b: u8) -> (r: (u8, u8, u8))
    ensures
        r == rtc_time(second, minute, hour, register_b),
{
    let mut second = second;
    let mut minute = minute;
    let mut hour = hour;
    if (register_b & 0x04) == 0 {
        proof {
            assert(second & 0x0F <= 15 && minute & 0x0F <= 15 && hour & 0x0F <= 15) by (bit_vector);
            assert((hour & 0x7F) & 0x0F == hour & 0x0F && (hour & 0x7F) <= 127) by (bit_vector);
        }
        second = (second & 0x0F) + ((second / 16) * 10);
        minute = (minute & 0x0F) + ((minute / 16) * 10);
        hour = ((hour & 0x0F) + (((hour & 0x7F) / 16) * 10)) | (hour & 0x80);
    }
    if (register_b & 0x02) == 0 && (hour & 0x80) != 0 {
        proof {
            assert(hour & 0x7F <= 127) by (bit_vector);
        }
        hour = ((hour & 0x7F) + 12) % 24;
    }
    (hour, minute, second)
}

} // verus!
