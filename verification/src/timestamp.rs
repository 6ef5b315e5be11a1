//! FIX UTC timestamps (`YYYYMMDD-HH:MM:SS.sss`): parsing, formatting, and
//! conversion to milliseconds since the epoch for freshness comparison.

use vstd::prelude::*;
use chrono::Datelike;
use chrono::Timelike;
use crate::codec::{lemma_zpad, pow10, zpad};
use crate::digits::{all_digits, digits_val, parse_u64};

verus! {

/// A wall-clock instant by calendar fields, to the millisecond.
#[derive(Clone, Copy, Debug, PartialEq, Eq, Structural)]
pub struct Timestamp {
    pub year: u32,
    pub month: u32,
    pub day: u32,
    pub hour: u32,
    pub minute: u32,
    pub second: u32,
    pub millis: u32,
}

impl Timestamp {
    /// Field ranges under which the epoch conversion is meaningful.  The
    /// milliseconds run to 1999 to leave room for a leap second.
    pub open spec fn wf(&self) -> bool {
        &&& 1970 <= self.year <= 9999
        &&& 1 <= self.month <= 12
        &&& 1 <= self.day <= 31
        &&& self.hour <= 23
        &&& self.minute <= 59
        &&& self.second <= 59
        &&& self.millis <= 1999
    }
}

/// Leap years in `[1970, y)`.
pub open spec fn spec_leaps_before(y: int) -> int {
    ((y - 1) / 4 - 492) - ((y - 1) / 100 - 19) + ((y - 1) / 400 - 4)
}

/// Days in `[1970-01-01, y-01-01)`.
pub open spec fn spec_days_before_year(y: int) -> int {
    365 * (y - 1970) + spec_leaps_before(y)
}

/// Whether `y` is a leap year.
pub open spec fn spec_is_leap(y: int) -> bool {
    y % 4 == 0 && (y % 100 != 0 || y % 400 == 0)
}

/// Days in the year before month `m` begins.
pub open spec fn spec_days_before_month(m: int, leap: bool) -> int {
    let base: int = if m == 1 {
        0
    } else if m == 2 {
        31
    } else if m == 3 {
        59
    } else if m == 4 {
        90
    } else if m == 5 {
        120
    } else if m == 6 {
        151
    } else if m == 7 {
        181
    } else if m == 8 {
        212
    } else if m == 9 {
        243
    } else if m == 10 {
        273
    } else if m == 11 {
        304
    } else {
        334
    };
    if leap && m > 2 {
        base + 1
    } else {
        base
    }
}

/// Days since the epoch of a timestamp's date.
pub open spec fn spec_day_index(ts: Timestamp) -> int {
    spec_days_before_year(ts.year as int) + spec_days_before_month(
        ts.month as int,
        spec_is_leap(ts.year as int),
    ) + (ts.day - 1)
}

/// Milliseconds since the epoch of a timestamp.
pub open spec fn spec_epoch_millis(ts: Timestamp) -> int {
    (((spec_day_index(ts) * 24 + ts.hour) * 60 + ts.minute) * 60 + ts.second) * 1000 + ts.millis
}

impl Timestamp {
    /// Milliseconds since the epoch.
    pub fn to_epoch_millis(&self) -> (r: i64)
        requires
            self.wf(),
        ensures
            r == spec_epoch_millis(*self),
    {
        let y = self.year as i64;
        let leaps: i64 = ((y - 1) / 4 - 492) - ((y - 1) / 100 - 19) + ((y - 1) / 400 - 4);
        let days_before_year: i64 = 365 * (y - 1970) + leaps;
        let leap: bool = y % 4 == 0 && (y % 100 != 0 || y % 400 == 0);
        let base: i64 = if self.month == 1 {
            0
        } else if self.month == 2 {
            31
        } else if self.month == 3 {
            59
        } else if self.month == 4 {
            90
        } else if self.month == 5 {
            120
        } else if self.month == 6 {
            151
        } else if self.month == 7 {
            181
        } else if self.month == 8 {
            212
        } else if self.month == 9 {
            243
        } else if self.month == 10 {
            273
        } else if self.month == 11 {
            304
        } else {
            334
        };
        let days_before_month: i64 = if leap && self.month > 2 {
            base + 1
        } else {
            base
        };
        let day_index: i64 = days_before_year + days_before_month + (self.day as i64 - 1);
        (((day_index * 24 + self.hour as i64) * 60 + self.minute as i64) * 60 + self.second
            as i64) * 1000 + self.millis as i64
    }
}

/// The canonical rendering: `YYYYMMDD-HH:MM:SS.sss`.
pub open spec fn spec_format_timestamp(ts: Timestamp) -> Seq<u8> {
    zpad(ts.year as nat, 4) + zpad(ts.month as nat, 2) + zpad(ts.day as nat, 2) + seq![45u8]
        + zpad(ts.hour as nat, 2) + seq![58u8] + zpad(ts.minute as nat, 2) + seq![58u8] + zpad(
        ts.second as nat,
        2,
    ) + seq![46u8] + zpad(ts.millis as nat % 1000, 3)
}

/// The canonical rendering is always exactly 21 bytes.
pub proof fn lemma_format_timestamp_len(ts: Timestamp)
    ensures
        spec_format_timestamp(ts).len() == 21,
{
    lemma_zpad(ts.year as nat, 4);
    lemma_zpad(ts.month as nat, 2);
    lemma_zpad(ts.day as nat, 2);
    lemma_zpad(ts.hour as nat, 2);
    lemma_zpad(ts.minute as nat, 2);
    lemma_zpad(ts.second as nat, 2);
    lemma_zpad(ts.millis as nat % 1000, 3);
}

/// Renders a timestamp in the canonical FIX form.
pub fn format_timestamp(ts: &Timestamp) -> (r: Vec<u8>)
    ensures
        r@ == spec_format_timestamp(*ts),
{
    let mut out: Vec<u8> = Vec::new();
    crate::codec::push_zpad(ts.year as u64, 4, &mut out);
    crate::codec::push_zpad(ts.month as u64, 2, &mut out);
    crate::codec::push_zpad(ts.day as u64, 2, &mut out);
    out.push(45);
    crate::codec::push_zpad(ts.hour as u64, 2, &mut out);
    out.push(58);
    crate::codec::push_zpad(ts.minute as u64, 2, &mut out);
    out.push(58);
    crate::codec::push_zpad(ts.second as u64, 2, &mut out);
    out.push(46);
    crate::codec::push_zpad(ts.millis as u64 % 1000, 3, &mut out);
    proof {
        assert(out@ =~= spec_format_timestamp(*ts));
    }
    out
}

/// What parsing a `YYYYMMDD-HH:MM:SS` or `YYYYMMDD-HH:MM:SS.sss` value
/// yields: the fields, with their ranges checked (years from 1970).
pub open spec fn spec_parse_timestamp(b: Seq<u8>) -> Option<Timestamp> {
    if b.len() != 17 && b.len() != 21 {
        None
    } else if !(all_digits(b.subrange(0, 8)) && b[8] == 45 && all_digits(b.subrange(9, 11))
        && b[11] == 58 && all_digits(b.subrange(12, 14)) && b[14] == 58 && all_digits(
        b.subrange(15, 17),
    )) {
        None
    } else if b.len() == 21 && !(b[17] == 46 && all_digits(b.subrange(18, 21))) {
        None
    } else {
        let ts = Timestamp {
            year: digits_val(b.subrange(0, 4)) as u32,
            month: digits_val(b.subrange(4, 6)) as u32,
            day: digits_val(b.subrange(6, 8)) as u32,
            hour: digits_val(b.subrange(9, 11)) as u32,
            minute: digits_val(b.subrange(12, 14)) as u32,
            second: digits_val(b.subrange(15, 17)) as u32,
            millis: if b.len() == 21 {
                digits_val(b.subrange(18, 21)) as u32
            } else {
                0
            },
        };
        if ts.wf() {
            Some(ts)
        } else {
            None
        }
    }
}

/// Parses a FIX UTC timestamp value, checking the field ranges.
pub fn parse_timestamp(b: &[u8]) -> (r: Option<Timestamp>)
    ensures
        r == spec_parse_timestamp(b@),
{
    if b.len() != 17 && b.len() != 21 {
        return None;
    }
    proof {
        assert(b@.subrange(0, 4) =~= b@.subrange(0, 8).subrange(0, 4));
        assert(b@.subrange(4, 6) =~= b@.subrange(0, 8).subrange(4, 6));
        assert(b@.subrange(6, 8) =~= b@.subrange(0, 8).subrange(6, 8));
    }
    let year = match parse_u64(b, 0, 4) {
        Some(v) => v,
        None => {
            proof {
                lemma_parse_none_nondigit(b@, 0, 4);
                lemma_not_all_digits_sub(b@, 0, 4, 0, 8);
            }
            return None;
        },
    };
    let month = match parse_u64(b, 4, 6) {
        Some(v) => v,
        None => {
            proof {
                lemma_parse_none_nondigit(b@, 4, 6);
                lemma_not_all_digits_sub(b@, 4, 6, 0, 8);
            }
            return None;
        },
    };
    let day = match parse_u64(b, 6, 8) {
        Some(v) => v,
        None => {
            proof {
                lemma_parse_none_nondigit(b@, 6, 8);
                lemma_not_all_digits_sub(b@, 6, 8, 0, 8);
            }
            return None;
        },
    };
    if b[8] != 45 {
        return None;
    }
    let hour = match parse_u64(b, 9, 11) {
        Some(v) => v,
        None => {
            proof {
                lemma_parse_none_nondigit(b@, 9, 11);
            }
            return None;
        },
    };
    if b[11] != 58 {
        return None;
    }
    let minute = match parse_u64(b, 12, 14) {
        Some(v) => v,
        None => {
            proof {
                lemma_parse_none_nondigit(b@, 12, 14);
            }
            return None;
        },
    };
    if b[14] != 58 {
        return None;
    }
    let second = match parse_u64(b, 15, 17) {
        Some(v) => v,
        None => {
            proof {
                lemma_parse_none_nondigit(b@, 15, 17);
            }
            return None;
        },
    };
    let millis: u64 = if b.len() == 21 {
        if b[17] != 46 {
            return None;
        }
        match parse_u64(b, 18, 21) {
            Some(v) => v,
            None => {
                proof {
                    lemma_parse_none_nondigit(b@, 18, 21);
                }
                return None;
            },
        }
    } else {
        0
    };
    proof {
        lemma_all_digits_concat_8(b@);
    }
    let ts = Timestamp {
        year: year as u32,
        month: month as u32,
        day: day as u32,
        hour: hour as u32,
        minute: minute as u32,
        second: second as u32,
        millis: millis as u32,
    };
    if ts.year >= 1970 && ts.year <= 9999 && ts.month >= 1 && ts.month <= 12 && ts.day >= 1
        && ts.day <= 31 && ts.hour <= 23 && ts.minute <= 59 && ts.second <= 59 && ts.millis
        <= 1999 {
        Some(ts)
    } else {
        None
    }
}

/// A failed short digit read means a non-digit: a string of at most nine
/// digits cannot overflow a `u64`.
proof fn lemma_parse_none_nondigit(s: Seq<u8>, a: int, b: int)
    requires
        0 <= a < b <= s.len(),
        b - a <= 9,
        !(all_digits(s.subrange(a, b)) && digits_val(s.subrange(a, b)) <= u64::MAX),
    ensures
        !all_digits(s.subrange(a, b)),
{
    let part = s.subrange(a, b);
    if all_digits(part) {
        crate::codec::lemma_digits_val_bound(part);
        lemma_pow10_le_9(part.len());
    }
}

/// Ten to a power of at most nine stays within a `u64`.
proof fn lemma_pow10_le_9(w: nat)
    requires
        w <= 9,
    ensures
        pow10(w) <= 1000000000,
    decreases w,
{
    reveal_with_fuel(pow10, 10);
}

/// If a piece of `[lo, hi)` holds a non-digit, so does the whole range.
proof fn lemma_not_all_digits_sub(s: Seq<u8>, a: int, b: int, lo: int, hi: int)
    requires
        0 <= lo <= a <= b <= hi <= s.len(),
        !all_digits(s.subrange(a, b)),
    ensures
        !all_digits(s.subrange(lo, hi)),
{
    let part = s.subrange(a, b);
    let whole = s.subrange(lo, hi);
    if all_digits(whole) {
        assert forall|i: int| 0 <= i < part.len() implies crate::digits::is_digit(
            #[trigger] part[i],
        ) by {
            assert(part[i] == s[a + i]);
            assert(whole[a + i - lo] == s[a + i]);
        }
    }
}

/// The three date pieces all digits make the eight date bytes all digits.
proof fn lemma_all_digits_concat_8(s: Seq<u8>)
    requires
        s.len() >= 8,
        all_digits(s.subrange(0, 4)),
        all_digits(s.subrange(4, 6)),
        all_digits(s.subrange(6, 8)),
    ensures
        all_digits(s.subrange(0, 8)),
{
    let whole = s.subrange(0, 8);
    assert forall|i: int| 0 <= i < 8 implies crate::digits::is_digit(#[trigger] whole[i]) by {
        if i < 4 {
            assert(s.subrange(0, 4)[i] == s[i]);
        } else if i < 6 {
            assert(s.subrange(4, 6)[i - 4] == s[i]);
        } else {
            assert(s.subrange(6, 8)[i - 6] == s[i]);
        }
        assert(whole[i] == s[i]);
    }
}

/// Relies on chrono's `Utc::now` and the `Datelike` / `Timelike` accessors:
/// month runs 1 to 12, day 1 to 31, hour to 23, minute and second to 59,
/// and the sub-second milliseconds to 1999 (leap seconds included).  Nothing
/// is promised of the values beyond those documented ranges: the time now
/// depends on the machine.
#[verifier::external_body]
pub fn utc_now_parts() -> (r: Timestamp)
    ensures
        1 <= r.month <= 12,
        1 <= r.day <= 31,
        r.hour <= 23,
        r.minute <= 59,
        r.second <= 59,
        r.millis <= 1999,
{
    let now = chrono::Utc::now();
    Timestamp {
        year: now.year() as u32,
        month: now.month(),
        day: now.day(),
        hour: now.hour(),
        minute: now.minute(),
        second: now.second(),
        millis: now.timestamp_subsec_millis(),
    }
}

} // verus!
