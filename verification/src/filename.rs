//! The filename timestamp patterns.
//!
//! A capture file is named `YYYY-MM-DD_HH-MM-SS.<ext>`; a produced day clip
//! is named `YYYY-MM-DD.<ext>`. Both patterns are anchored: four year
//! digits, two digits for every other field, the exact separators, a dot,
//! and a non-empty extension. A name produces a timestamp exactly when it
//! has the shape and every numeric field lies in its calendar range.

use vstd::prelude::*;

use crate::error::TimelapsifyError;
use crate::timestamp::{days_in_month, spec_days_in_month, Timestamp};

verus! {

/// The character is an ASCII decimal digit.
pub open spec fn is_digit(c: char) -> bool {
    48 <= c as u32 <= 57
}

/// Numeric value of an ASCII decimal digit.
pub open spec fn digit_val(c: char) -> int {
    c as u32 - 48
}

/// Value of the two-digit field starting at `i`.
pub open spec fn field2(s: Seq<char>, i: int) -> int {
    10 * digit_val(s[i]) + digit_val(s[i + 1])
}

/// Value of the four-digit field starting at `i`.
pub open spec fn field4(s: Seq<char>, i: int) -> int {
    1000 * digit_val(s[i]) + 100 * digit_val(s[i + 1]) + 10 * digit_val(s[i + 2]) + digit_val(
        s[i + 3],
    )
}

/// The name has the anchored shape `YYYY-MM-DD_HH-MM-SS.<ext>` with a
/// non-empty extension. Field ranges are not part of the shape.
pub open spec fn matches_pattern(s: Seq<char>) -> bool {
    &&& s.len() >= 21
    &&& is_digit(s[0]) && is_digit(s[1]) && is_digit(s[2]) && is_digit(s[3])
    &&& s[4] == '-'
    &&& is_digit(s[5]) && is_digit(s[6])
    &&& s[7] == '-'
    &&& is_digit(s[8]) && is_digit(s[9])
    &&& s[10] == '_'
    &&& is_digit(s[11]) && is_digit(s[12])
    &&& s[13] == '-'
    &&& is_digit(s[14]) && is_digit(s[15])
    &&& s[16] == '-'
    &&& is_digit(s[17]) && is_digit(s[18])
    &&& s[19] == '.'
}

/// The timestamp spelled by a pattern-shaped name.
pub open spec fn pattern_timestamp(s: Seq<char>) -> Timestamp {
    Timestamp {
        year: field4(s, 0) as u32,
        month: field2(s, 5) as u32,
        day: field2(s, 8) as u32,
        hour: field2(s, 11) as u32,
        minute: field2(s, 14) as u32,
        second: field2(s, 17) as u32,
    }
}

/// The name has the anchored shape `YYYY-MM-DD.<ext>` of a day clip, with
/// a non-empty extension. Field ranges are not part of the shape.
pub open spec fn matches_day_pattern(s: Seq<char>) -> bool {
    &&& s.len() >= 12
    &&& is_digit(s[0]) && is_digit(s[1]) && is_digit(s[2]) && is_digit(s[3])
    &&& s[4] == '-'
    &&& is_digit(s[5]) && is_digit(s[6])
    &&& s[7] == '-'
    &&& is_digit(s[8]) && is_digit(s[9])
    &&& s[10] == '.'
}

/// The day spelled by a day-shaped name, at midnight.
pub open spec fn pattern_day(s: Seq<char>) -> Timestamp {
    Timestamp {
        year: field4(s, 0) as u32,
        month: field2(s, 5) as u32,
        day: field2(s, 8) as u32,
        hour: 0u32,
        minute: 0u32,
        second: 0u32,
    }
}

/// Numeric value of the character at `i`, if it is a digit.
fn digit_at(s: &str, i: usize) -> (r: Option<u32>)
    requires
        i < s@.len(),
    ensures
        match r {
            Some(v) => is_digit(s@[i as int]) && v == digit_val(s@[i as int]),
            None => !is_digit(s@[i as int]),
        },
{
    let c = s.get_char(i);
    let u = c as u32;
    if 48 <= u && u <= 57 {
        Some(u - 48)
    } else {
        None
    }
}

/// Parse a file name against the timestamp pattern.
///
/// Returns the spelled timestamp exactly when the name has the pattern shape
/// and every field lies in its calendar range; `RegexNoMatch` exactly when
/// the shape is wrong; `ParseOhNo` exactly when the shape is right but a
/// field is out of range.
pub fn parse_timestamp(name: &str) -> (r: Result<Timestamp, TimelapsifyError>)
    ensures
        match r {
            Ok(t) => matches_pattern(name@) && t == pattern_timestamp(name@) && t.valid(),
            Err(TimelapsifyError::RegexNoMatch) => !matches_pattern(name@),
            Err(TimelapsifyError::ParseOhNo(_)) => matches_pattern(name@) && !pattern_timestamp(
                name@,
            ).valid(),
            Err(_) => false,
        },
{
    let n = name.unicode_len();
    if n < 21 {
        return Err(TimelapsifyError::RegexNoMatch);
    }
    if name.get_char(4) != '-' || name.get_char(7) != '-' || name.get_char(10) != '_'
        || name.get_char(13) != '-' || name.get_char(16) != '-' || name.get_char(19) != '.' {
        return Err(TimelapsifyError::RegexNoMatch);
    }
    let d0 = digit_at(name, 0);
    let d1 = digit_at(name, 1);
    let d2 = digit_at(name, 2);
    let d3 = digit_at(name, 3);
    let d5 = digit_at(name, 5);
    let d6 = digit_at(name, 6);
    let d8 = digit_at(name, 8);
    let d9 = digit_at(name, 9);
    let d11 = digit_at(name, 11);
    let d12 = digit_at(name, 12);
    let d14 = digit_at(name, 14);
    let d15 = digit_at(name, 15);
    let d17 = digit_at(name, 17);
    let d18 = digit_at(name, 18);
    match (d0, d1, d2, d3, d5, d6, d8, d9, d11, d12, d14, d15, d17, d18) {
        (
            Some(y0),
            Some(y1),
            Some(y2),
            Some(y3),
            Some(mo0),
            Some(mo1),
            Some(da0),
            Some(da1),
            Some(h0),
            Some(h1),
            Some(mi0),
            Some(mi1),
            Some(se0),
            Some(se1),
        ) => {
            let year = 1000 * y0 + 100 * y1 + 10 * y2 + y3;
            let month = 10 * mo0 + mo1;
            let day = 10 * da0 + da1;
            let hour = 10 * h0 + h1;
            let minute = 10 * mi0 + mi1;
            let second = 10 * se0 + se1;
            if month < 1 || month > 12 {
                return Err(TimelapsifyError::ParseOhNo("month"));
            }
            if day < 1 || day > days_in_month(year, month) {
                return Err(TimelapsifyError::ParseOhNo("day"));
            }
            if hour > 23 {
                return Err(TimelapsifyError::ParseOhNo("hour"));
            }
            if minute > 59 {
                return Err(TimelapsifyError::ParseOhNo("minute"));
            }
            if second > 59 {
                return Err(TimelapsifyError::ParseOhNo("second"));
            }
            Ok(Timestamp { year, month, day, hour, minute, second })
        },
        _ => Err(TimelapsifyError::RegexNoMatch),
    }
}

/// Parse a file name against the day-clip pattern.
///
/// Returns the spelled day at midnight exactly when the name has the
/// pattern shape and the date is a real calendar day; `RegexNoMatch`
/// exactly when the shape is wrong; `ParseOhNo` exactly when the shape is
/// right but a field is out of range.
pub fn parse_day(name: &str) -> (r: Result<Timestamp, TimelapsifyError>)
    ensures
        match r {
            Ok(t) => matches_day_pattern(name@) && t == pattern_day(name@) && t.valid(),
            Err(TimelapsifyError::RegexNoMatch) => !matches_day_pattern(name@),
            Err(TimelapsifyError::ParseOhNo(_)) => matches_day_pattern(name@) && !pattern_day(
                name@,
            ).valid(),
            Err(_) => false,
        },
{
    let n = name.unicode_len();
    if n < 12 {
        return Err(TimelapsifyError::RegexNoMatch);
    }
    if name.get_char(4) != '-' || name.get_char(7) != '-' || name.get_char(10) != '.' {
        return Err(TimelapsifyError::RegexNoMatch);
    }
    let d0 = digit_at(name, 0);
    let d1 = digit_at(name, 1);
    let d2 = digit_at(name, 2);
    let d3 = digit_at(name, 3);
    let d5 = digit_at(name, 5);
    let d6 = digit_at(name, 6);
    let d8 = digit_at(name, 8);
    let d9 = digit_at(name, 9);
    match (d0, d1, d2, d3, d5, d6, d8, d9) {
        (Some(y0), Some(y1), Some(y2), Some(y3), Some(mo0), Some(mo1), Some(da0), Some(da1)) => {
            let year = 1000 * y0 + 100 * y1 + 10 * y2 + y3;
            let month = 10 * mo0 + mo1;
            let day = 10 * da0 + da1;
            if month < 1 || month > 12 {
                return Err(TimelapsifyError::ParseOhNo("month"));
            }
            if day < 1 || day > days_in_month(year, month) {
                return Err(TimelapsifyError::ParseOhNo("day"));
            }
            Ok(Timestamp { year, month, day, hour: 0, minute: 0, second: 0 })
        },
        _ => Err(TimelapsifyError::RegexNoMatch),
    }
}

} // verus!
