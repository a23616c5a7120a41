//! Decoders for the two on-disk timestamp forms.

use vstd::prelude::*;

verus! {

broadcast use vstd::slice::group_slice_axioms;

use crate::datetime::{DateTime, DateTimeAscii};
use crate::datetime::{spec_valid_date, spec_valid_time, spec_valid_gmt_offset, valid_date};
use crate::error::ISOError;

/// Decoded value of a 7-byte binary timestamp `b` (year-since-1900, month,
/// day, hour, minute, second, gmt offset): the fields as stored where they
/// name a real date and time, the epoch default where they do not.
pub open spec fn spec_date_time(b: Seq<u8>) -> DateTime
    recommends
        b.len() == 7,
{
    let date_ok = spec_valid_date(b[0] as int, b[1] as int, b[2] as int);
    let time_ok = spec_valid_time(b[3] as int, b[4] as int, b[5] as int);
    let g_ok = spec_valid_gmt_offset(b[6] as int);
    DateTime {
        year: if date_ok { b[0] } else { 0 },
        month: if date_ok { b[1] } else { 1 },
        day: if date_ok { b[2] } else { 1 },
        hour: if time_ok { b[3] } else { 0 },
        minute: if time_ok { b[4] } else { 0 },
        second: if time_ok { b[5] } else { 0 },
        gmt_offset: if g_ok { b[6] } else { 0 },
    }
}

/// Decode the 7-byte binary timestamp at `off`. Total: invalid field
/// combinations yield the epoch default, never an error.
pub fn date_time(b: &[u8], off: usize) -> (r: DateTime)
    requires
        off + 7 <= b@.len(),
    ensures
        r == spec_date_time(b@.subrange(off as int, off as int + 7)),
        r.wf(),
{
    let ghost sub = b@.subrange(off as int, off as int + 7);
    let year = b[off];
    let month = b[off + 1];
    let day = b[off + 2];
    let hour = b[off + 3];
    let minute = b[off + 4];
    let second = b[off + 5];
    let gmt_offset = b[off + 6];
    let date_ok = valid_date(year as u16, month, day);
    let time_ok = hour < 24 && minute < 60 && second < 60;
    let g_ok = gmt_offset <= 103;
    let r = DateTime {
        year: if date_ok { year } else { 0 },
        month: if date_ok { month } else { 1 },
        day: if date_ok { day } else { 1 },
        hour: if time_ok { hour } else { 0 },
        minute: if time_ok { minute } else { 0 },
        second: if time_ok { second } else { 0 },
        gmt_offset: if g_ok { gmt_offset } else { 0 },
    };
    assert(sub[0] == year && sub[1] == month && sub[2] == day);
    assert(sub[3] == hour && sub[4] == minute && sub[5] == second && sub[6] == gmt_offset);
    r
}

/// The byte is an ASCII decimal digit.
pub open spec fn spec_is_digit(c: u8) -> bool {
    0x30 <= c <= 0x39
}

/// Value of the two ASCII digits at `off`.
pub open spec fn spec_digits2(b: Seq<u8>, off: int) -> int {
    (b[off] as int - 0x30) * 10 + (b[off + 1] as int - 0x30)
}

/// Value of the four ASCII digits at `off`.
pub open spec fn spec_digits4(b: Seq<u8>, off: int) -> int {
    (b[off] as int - 0x30) * 1000 + (b[off + 1] as int - 0x30) * 100 + (b[off + 2] as int - 0x30)
        * 10 + (b[off + 3] as int - 0x30)
}

/// The 16 numeric bytes of a 17-byte ASCII timestamp are all digits.
pub open spec fn spec_ascii_digits_ok(b: Seq<u8>) -> bool
    recommends
        b.len() == 17,
{
    &&& spec_is_digit(b[0]) && spec_is_digit(b[1]) && spec_is_digit(b[2]) && spec_is_digit(b[3])
    &&& spec_is_digit(b[4]) && spec_is_digit(b[5]) && spec_is_digit(b[6]) && spec_is_digit(b[7])
    &&& spec_is_digit(b[8]) && spec_is_digit(b[9]) && spec_is_digit(b[10]) && spec_is_digit(b[11])
    &&& spec_is_digit(b[12]) && spec_is_digit(b[13]) && spec_is_digit(b[14]) && spec_is_digit(
        b[15],
    )
}

/// Decoded value of a 17-byte ASCII timestamp whose numeric bytes are all
/// digits: fields as written where they name a real date and time, the epoch
/// default where they do not.
pub open spec fn spec_date_time_ascii(b: Seq<u8>) -> DateTimeAscii
    recommends
        b.len() == 17,
        spec_ascii_digits_ok(b),
{
    let year = spec_digits4(b, 0);
    let month = spec_digits2(b, 4);
    let day = spec_digits2(b, 6);
    let hour = spec_digits2(b, 8);
    let minute = spec_digits2(b, 10);
    let second = spec_digits2(b, 12);
    let centisecond = spec_digits2(b, 14);
    let date_ok = spec_valid_date(year, month, day);
    let time_ok = spec_valid_time(hour, minute, second);
    let g_ok = spec_valid_gmt_offset(b[16] as int);
    DateTimeAscii {
        year: if date_ok { year as u16 } else { 0 },
        month: if date_ok { month as u8 } else { 1 },
        day: if date_ok { day as u8 } else { 1 },
        hour: if time_ok { hour as u8 } else { 0 },
        minute: if time_ok { minute as u8 } else { 0 },
        second: if time_ok { second as u8 } else { 0 },
        centisecond: if time_ok { centisecond as u8 } else { 0 },
        gmt_offset: if g_ok { b[16] } else { 0 },
    }
}

/// Read the two ASCII digits at `off`, or `None` on a non-digit byte.
fn digits2(b: &[u8], off: usize) -> (r: Option<u8>)
    requires
        off + 2 <= b@.len(),
    ensures
        match r {
            Some(v) => spec_is_digit(b@[off as int]) && spec_is_digit(b@[off as int + 1]) && v
                == spec_digits2(b@, off as int),
            None => !(spec_is_digit(b@[off as int]) && spec_is_digit(b@[off as int + 1])),
        },
{
    let c0 = b[off];
    let c1 = b[off + 1];
    if 0x30 <= c0 && c0 <= 0x39 && 0x30 <= c1 && c1 <= 0x39 {
        Some((c0 - 0x30) * 10 + (c1 - 0x30))
    } else {
        None
    }
}

/// Read the four ASCII digits at `off`, or `None` on a non-digit byte.
fn digits4(b: &[u8], off: usize) -> (r: Option<u16>)
    requires
        off + 4 <= b@.len(),
    ensures
        match r {
            Some(v) => spec_is_digit(b@[off as int]) && spec_is_digit(b@[off as int + 1])
                && spec_is_digit(b@[off as int + 2]) && spec_is_digit(b@[off as int + 3]) && v
                == spec_digits4(b@, off as int),
            None => !(spec_is_digit(b@[off as int]) && spec_is_digit(b@[off as int + 1])
                && spec_is_digit(b@[off as int + 2]) && spec_is_digit(b@[off as int + 3])),
        },
{
    let n = b.len();
    let hi = digits2(b, off);
    let lo = digits2(b, off + 2);
    match (hi, lo) {
        (Some(h), Some(l)) => Some(h as u16 * 100 + l as u16),
        _ => None,
    }
}

/// Decode the 17-byte ASCII timestamp at `off`. A non-digit byte in a
/// numeric field is an `ISOError::ParseInt`; impossible values of a
/// well-formed field fall back to the epoch default.
pub fn date_time_ascii(b: &[u8], off: usize) -> (r: Result<DateTimeAscii, ISOError>)
    requires
        off + 17 <= b@.len(),
    ensures
        match r {
            Ok(dt) => spec_ascii_digits_ok(b@.subrange(off as int, off as int + 17)) && dt
                == spec_date_time_ascii(b@.subrange(off as int, off as int + 17)) && dt.wf(),
            Err(e) => !spec_ascii_digits_ok(b@.subrange(off as int, off as int + 17)) && e matches
                ISOError::ParseInt,
        },
{
    let n = b.len();
    let ghost sub = b@.subrange(off as int, off as int + 17);
    assert(forall|i: int| 0 <= i < 17 ==> sub[i] == b@[off + i]);
    let year = digits4(b, off);
    let month = digits2(b, off + 4);
    let day = digits2(b, off + 6);
    let hour = digits2(b, off + 8);
    let minute = digits2(b, off + 10);
    let second = digits2(b, off + 12);
    let centisecond = digits2(b, off + 14);
    let gmt_offset = b[off + 16];
    match (year, month, day, hour, minute, second, centisecond) {
        (Some(y), Some(mo), Some(d), Some(h), Some(mi), Some(s), Some(c)) => {
            let date_ok = valid_date(y, mo, d);
            let time_ok = h < 24 && mi < 60 && s < 60;
            let g_ok = gmt_offset <= 103;
            let dt = DateTimeAscii {
                year: if date_ok { y } else { 0 },
                month: if date_ok { mo } else { 1 },
                day: if date_ok { d } else { 1 },
                hour: if time_ok { h } else { 0 },
                minute: if time_ok { mi } else { 0 },
                second: if time_ok { s } else { 0 },
                centisecond: if time_ok { c } else { 0 },
                gmt_offset: if g_ok { gmt_offset } else { 0 },
            };
            Ok(dt)
        },
        _ => Err(ISOError::ParseInt),
    }
}

} // verus!
