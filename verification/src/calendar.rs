//! Calendar arithmetic for the scheduler.
//!
//! The scheduler sleeps until a fixed nightly slot: the next local 01:00
//! that lies strictly after "now plus one day". To state how long that is,
//! timestamps are mapped to absolute day numbers (days since the calendar's
//! year zero) and absolute seconds, and stepping to the next calendar day is
//! proved to advance the day number by exactly one.

use vstd::prelude::*;

use crate::timestamp::{days_in_month, is_leap_year, spec_days_in_month, Timestamp};

verus! {

/// Number of days in the given year.
pub open spec fn spec_days_in_year(y: int) -> int {
    if is_leap_year(y) {
        366
    } else {
        365
    }
}

/// Days in all years before year `y`, counting from year 0.
pub open spec fn spec_days_before_year(y: int) -> int
    decreases y,
{
    if y <= 0 {
        0
    } else {
        spec_days_before_year(y - 1) + spec_days_in_year(y - 1)
    }
}

/// Days in all months of year `y` before month `m`.
pub open spec fn spec_days_before_month(y: int, m: int) -> int
    decreases m,
{
    if m <= 1 {
        0
    } else {
        spec_days_before_month(y, m - 1) + spec_days_in_month(y, m - 1)
    }
}

/// Absolute day number of a date: days between year 0, January 1st and it.
pub open spec fn spec_day_number(t: Timestamp) -> int {
    spec_days_before_year(t.year as int) + spec_days_before_month(t.year as int, t.month as int)
        + (t.day - 1)
}

/// Absolute second count of an instant, from year 0, January 1st, 00:00:00.
pub open spec fn spec_abs_seconds(t: Timestamp) -> int {
    86400 * spec_day_number(t) + 3600 * t.hour + 60 * t.minute + t.second
}

/// The calendar day after the day of `t`, time of day kept.
pub open spec fn spec_next_day(t: Timestamp) -> Timestamp {
    if t.day < spec_days_in_month(t.year as int, t.month as int) {
        Timestamp { day: (t.day + 1) as u32, ..t }
    } else if t.month < 12 {
        Timestamp { month: (t.month + 1) as u32, day: 1u32, ..t }
    } else {
        Timestamp { year: (t.year + 1) as u32, month: 1u32, day: 1u32, ..t }
    }
}

/// The next local 01:00:00 lying strictly after `now` plus one day.
pub open spec fn spec_next_wake(now: Timestamp) -> Timestamp {
    let base = if now.hour == 0 {
        spec_next_day(now)
    } else {
        spec_next_day(spec_next_day(now))
    };
    Timestamp { hour: 1u32, minute: 0u32, second: 0u32, ..base }
}

/// The days before year `y` number at most 366 per year.
pub proof fn lemma_days_before_year_bound(y: int)
    requires
        y >= 0,
    ensures
        0 <= spec_days_before_year(y) <= 366 * y,
    decreases y,
{
    if y > 0 {
        lemma_days_before_year_bound(y - 1);
    }
}

/// The days before month `m` number at most 31 per month.
pub proof fn lemma_days_before_month_bound(y: int, m: int)
    requires
        1 <= m <= 13,
    ensures
        0 <= spec_days_before_month(y, m) <= 31 * (m - 1),
    decreases m,
{
    if m > 1 {
        lemma_days_before_month_bound(y, m - 1);
    }
}

/// The twelve months together hold exactly one year's days.
pub proof fn lemma_days_before_month_full(y: int)
    ensures
        spec_days_before_month(y, 13) == spec_days_in_year(y),
{
    assert(spec_days_before_month(y, 2) == spec_days_before_month(y, 1) + spec_days_in_month(y, 1));
    assert(spec_days_before_month(y, 3) == spec_days_before_month(y, 2) + spec_days_in_month(y, 2));
    assert(spec_days_before_month(y, 4) == spec_days_before_month(y, 3) + spec_days_in_month(y, 3));
    assert(spec_days_before_month(y, 5) == spec_days_before_month(y, 4) + spec_days_in_month(y, 4));
    assert(spec_days_before_month(y, 6) == spec_days_before_month(y, 5) + spec_days_in_month(y, 5));
    assert(spec_days_before_month(y, 7) == spec_days_before_month(y, 6) + spec_days_in_month(y, 6));
    assert(spec_days_before_month(y, 8) == spec_days_before_month(y, 7) + spec_days_in_month(y, 7));
    assert(spec_days_before_month(y, 9) == spec_days_before_month(y, 8) + spec_days_in_month(y, 8));
    assert(spec_days_before_month(y, 10) == spec_days_before_month(y, 9) + spec_days_in_month(
        y,
        9,
    ));
    assert(spec_days_before_month(y, 11) == spec_days_before_month(y, 10) + spec_days_in_month(
        y,
        10,
    ));
    assert(spec_days_before_month(y, 12) == spec_days_before_month(y, 11) + spec_days_in_month(
        y,
        11,
    ));
    assert(spec_days_before_month(y, 13) == spec_days_before_month(y, 12) + spec_days_in_month(
        y,
        12,
    ));
}

/// Stepping to the next calendar day advances the day number by one.
pub proof fn lemma_next_day_number(t: Timestamp)
    requires
        t.valid_date(),
        !(t.year == 9999 && t.month == 12 && t.day == 31),
    ensures
        spec_next_day(t).valid_date(),
        spec_day_number(spec_next_day(t)) == spec_day_number(t) + 1,
{
    let y = t.year as int;
    let m = t.month as int;
    if t.day < spec_days_in_month(y, m) {
    } else if t.month < 12 {
        assert(spec_days_before_month(y, m + 1) == spec_days_before_month(y, m)
            + spec_days_in_month(y, m));
    } else {
        lemma_days_before_month_full(y);
        assert(spec_days_before_year(y + 1) == spec_days_before_year(y) + spec_days_in_year(y));
    }
}

/// Absolute day number of a valid date, executable form.
pub fn day_number(t: &Timestamp) -> (n: u64)
    requires
        t.valid_date(),
    ensures
        n == spec_day_number(*t),
        n <= 3_660_372,
{
    let ghost yi = t.year as int;
    let mut days: u64 = 0;
    let mut y: u32 = 0;
    while y < t.year
        invariant
            y <= t.year,
            t.year <= 9999,
            days == spec_days_before_year(y as int),
            days <= 366 * y,
        decreases t.year - y,
    {
        if (y % 4 == 0 && y % 100 != 0) || y % 400 == 0 {
            days = days + 366;
        } else {
            days = days + 365;
        }
        y = y + 1;
    }
    let mut m: u32 = 1;
    while m < t.month
        invariant
            1 <= m <= t.month,
            t.month <= 12,
            t.valid_date(),
            days == spec_days_before_year(t.year as int) + spec_days_before_month(
                t.year as int,
                m as int,
            ),
            days <= 366 * 9999 + 31 * 12,
        decreases t.month - m,
    {
        proof {
            lemma_days_before_year_bound(t.year as int);
            lemma_days_before_month_bound(t.year as int, m as int + 1);
        }
        days = days + days_in_month(t.year, m) as u64;
        m = m + 1;
    }
    days + (t.day as u64 - 1)
}

/// Absolute second count of a valid instant, executable form.
pub fn abs_seconds(t: &Timestamp) -> (s: u64)
    requires
        t.valid(),
    ensures
        s == spec_abs_seconds(*t),
{
    let n = day_number(t);
    86400 * n + 3600 * t.hour as u64 + 60 * t.minute as u64 + t.second as u64
}

/// The calendar day after the day of `t`, executable form.
pub fn next_day(t: &Timestamp) -> (r: Timestamp)
    requires
        t.valid_date(),
        !(t.year == 9999 && t.month == 12 && t.day == 31),
    ensures
        r == spec_next_day(*t),
        r.valid_date(),
        spec_day_number(r) == spec_day_number(*t) + 1,
{
    proof {
        lemma_next_day_number(*t);
    }
    if t.day < days_in_month(t.year, t.month) {
        Timestamp { day: t.day + 1, ..*t }
    } else if t.month < 12 {
        Timestamp { month: t.month + 1, day: 1, ..*t }
    } else {
        Timestamp { year: t.year + 1, month: 1, day: 1, ..*t }
    }
}

/// The wake-up instant of the scheduler: the next local 01:00:00 strictly
/// after `now` plus one day, so always more than a day and at most two
/// days ahead.
pub fn next_wake(now: &Timestamp) -> (w: Timestamp)
    requires
        now.valid(),
        now.year <= 9998,
    ensures
        w == spec_next_wake(*now),
        w.valid(),
        w.hour == 1 && w.minute == 0 && w.second == 0,
        spec_day_number(w) == spec_day_number(*now) + if now.hour == 0 {
            1int
        } else {
            2int
        },
{
    let base = if now.hour == 0 {
        next_day(now)
    } else {
        let mid = next_day(now);
        next_day(&mid)
    };
    Timestamp { hour: 1, minute: 0, second: 0, ..base }
}

/// Seconds from `now` until the scheduler's next wake-up instant.
///
/// The wake instant is the next local 01:00:00 strictly after `now` plus one
/// day, so the result is always more than 24 hours and at most 48.
pub fn duration_until_tomorrow_night_01(now: &Timestamp) -> (secs: u64)
    requires
        now.valid(),
        now.year <= 9998,
    ensures
        secs == spec_abs_seconds(spec_next_wake(*now)) - spec_abs_seconds(*now),
        86400 < secs <= 172800,
{
    let w = next_wake(now);
    let wake_abs = abs_seconds(&w);
    let now_abs = abs_seconds(now);
    wake_abs - now_abs
}

} // verus!
