//! Decoded forms of the two on-disk timestamp encodings.
//!
//! Both decoders are permissive: an impossible calendar date or time of day
//! falls back to a fixed epoch default (1900-01-01 00:00:00 UTC) instead of
//! failing, because corrupt timestamps must not abort traversal.

use vstd::prelude::*;

verus! {

/// Days in `month` of the year `1900 + year`.
pub open spec fn spec_days_in_month(year: int, month: int) -> int {
    if month == 2 {
        if spec_is_leap_year(1900 + year) {
            29
        } else {
            28
        }
    } else if month == 4 || month == 6 || month == 9 || month == 11 {
        30
    } else {
        31
    }
}

/// Gregorian leap-year rule for an absolute year.
pub open spec fn spec_is_leap_year(y: int) -> bool {
    (y % 4 == 0 && y % 100 != 0) || y % 400 == 0
}

/// `1900 + year`, `month`, `day` name a real calendar date.
pub open spec fn spec_valid_date(year: int, month: int, day: int) -> bool {
    1 <= month <= 12 && 1 <= day <= spec_days_in_month(year, month)
}

/// `hour:minute:second` is a real time of day.
pub open spec fn spec_valid_time(hour: int, minute: int, second: int) -> bool {
    hour < 24 && minute < 60 && second < 60
}

/// Largest `gmt_offset` field value that still is a representable offset
/// (15-minute steps; 104 quarter-hours would exceed +-25:59:59).
pub open spec fn spec_valid_gmt_offset(g: int) -> bool {
    g <= 103
}

/// The 7-byte binary timestamp of directory records, decoded.
#[derive(Clone, Copy, Debug, PartialEq, Eq, Structural)]
pub struct DateTime {
    /// Years since 1900.
    pub year: u8,
    pub month: u8,
    pub day: u8,
    pub hour: u8,
    pub minute: u8,
    pub second: u8,
    /// 15-minute increments from GMT.
    pub gmt_offset: u8,
}

/// The 17-byte ASCII timestamp of volume descriptors, decoded.
#[derive(Clone, Copy, Debug, PartialEq, Eq, Structural)]
pub struct DateTimeAscii {
    /// The four-digit year field as written.
    pub year: u16,
    pub month: u8,
    pub day: u8,
    pub hour: u8,
    pub minute: u8,
    pub second: u8,
    pub centisecond: u8,
    /// 15-minute increments from GMT.
    pub gmt_offset: u8,
}

impl DateTime {
    /// Every field kept within its decoded range.
    pub open spec fn wf(self) -> bool {
        &&& spec_valid_date(self.year as int, self.month as int, self.day as int)
        &&& spec_valid_time(self.hour as int, self.minute as int, self.second as int)
        &&& spec_valid_gmt_offset(self.gmt_offset as int)
    }
}

impl DateTimeAscii {
    /// Every field kept within its decoded range.
    pub open spec fn wf(self) -> bool {
        &&& spec_valid_date(self.year as int, self.month as int, self.day as int)
        &&& spec_valid_time(self.hour as int, self.minute as int, self.second as int)
        &&& self.centisecond < 100
        &&& spec_valid_gmt_offset(self.gmt_offset as int)
    }
}

/// Days in `month` of the year `1900 + year`.
pub fn days_in_month(year: u16, month: u8) -> (r: u8)
    ensures
        r == spec_days_in_month(year as int, month as int),
{
    if month == 2 {
        let y: u32 = 1900 + year as u32;
        if (y % 4 == 0 && y % 100 != 0) || y % 400 == 0 {
            29
        } else {
            28
        }
    } else if month == 4 || month == 6 || month == 9 || month == 11 {
        30
    } else {
        31
    }
}

/// Whether `1900 + year`, `month`, `day` name a real calendar date.
pub fn valid_date(year: u16, month: u8, day: u8) -> (r: bool)
    ensures
        r == spec_valid_date(year as int, month as int, day as int),
{
    1 <= month && month <= 12 && 1 <= day && day <= days_in_month(year, month)
}

} // verus!
