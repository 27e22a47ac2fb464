//! Reading the local wall clock.
//!
//! The clock is the one outside value the scheduler depends on. The trusted
//! wrapper states only what the clock library documents of every reading;
//! the verified [`timestamp_from_clock`] then decides, with an exact
//! contract, which readings become a [`Timestamp`], so everything
//! downstream works on a proved-valid value.

use vstd::prelude::*;

use chrono::Datelike;
use chrono::Timelike;

use crate::calendar::duration_until_tomorrow_night_01;
use crate::timestamp::{days_in_month, spec_days_in_month, Timestamp};

verus! {

/// Relies on chrono's `Local::now` and its `Datelike` / `Timelike`
/// accessors, documented to return the month from 1 to 12, the day of the
/// month from 1 to 31, the hour from 0 to 23, and the minute and second
/// from 0 to 59. The year is an `i32` with no promised range. `Local::now`
/// reads the system clock through `Utc::now`, which aborts the process on a
/// host clock set before the Unix epoch.
#[verifier::external_body]
fn clock_now() -> (r: (i32, u32, u32, u32, u32, u32))
    ensures
        1 <= r.1 <= 12,
        1 <= r.2 <= 31,
        r.3 < 24,
        r.4 < 60,
        r.5 < 60,
{
    let now = chrono::Local::now();
    (now.year(), now.month(), now.day(), now.hour(), now.minute(), now.second())
}

/// The decision over one clock reading: the six plain fields become a
/// timestamp exactly when they name a calendar instant whose year the
/// wake-time arithmetic can still step past; nothing else is changed.
pub fn timestamp_from_clock(
    year: i32,
    month: u32,
    day: u32,
    hour: u32,
    minute: u32,
    second: u32,
) -> (r: Option<Timestamp>)
    ensures
        r is Some <==> {
            &&& 0 <= year <= 9998
            &&& 1 <= month <= 12
            &&& 1 <= day <= spec_days_in_month(year as int, month as int)
            &&& hour < 24
            &&& minute < 60
            &&& second < 60
        },
        match r {
            Some(t) => t == (Timestamp { year: year as u32, month, day, hour, minute, second }),
            None => true,
        },
{
    if year < 0 || year > 9998 {
        return None;
    }
    let y = year as u32;
    if month < 1 || month > 12 {
        return None;
    }
    if day < 1 || day > days_in_month(y, month) {
        return None;
    }
    if hour >= 24 || minute >= 60 || second >= 60 {
        return None;
    }
    Some(Timestamp { year: y, month, day, hour, minute, second })
}

/// The local time as a validated timestamp: one clock reading handed to
/// [`timestamp_from_clock`]. `None` when the clock reads outside the
/// model's calendar: a year that is negative, past 9998 (the wake-time
/// arithmetic needs one spare year), or a day that its month does not have.
pub fn current_time() -> (r: Option<Timestamp>)
    ensures
        match r {
            Some(t) => t.valid() && t.year <= 9998,
            None => true,
        },
{
    let (year, month, day, hour, minute, second) = clock_now();
    timestamp_from_clock(year, month, day, hour, minute, second)
}

/// How long the scheduler sleeps, read from the local clock: the seconds
/// until the next local 01:00 strictly after tomorrow — more than one day,
/// at most two. `None` exactly when the clock reads outside the model's
/// calendar.
pub fn wake_seconds_from_now() -> (r: Option<u64>)
    ensures
        match r {
            Some(s) => 86400 < s <= 172800,
            None => true,
        },
{
    match current_time() {
        Some(now) => Some(duration_until_tomorrow_night_01(&now)),
        None => None,
    }
}

} // verus!
