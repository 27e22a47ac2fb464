//! Wall-clock timestamps as plain calendar fields.
//!
//! A capture instant is modelled by its local calendar fields: year, month,
//! day, hour, minute, second. Validity pins every field to its calendar
//! range (leap years included), and a mixed-radix value [`Timestamp::ord_val`]
//! gives the total order that sorting and grouping reason about.

use vstd::prelude::*;

verus! {

/// A local wall-clock instant, split into calendar fields.
#[derive(Clone, Copy, Debug, PartialEq, Eq, Structural)]
pub struct Timestamp {
    pub year: u32,
    pub month: u32,
    pub day: u32,
    pub hour: u32,
    pub minute: u32,
    pub second: u32,
}

/// A year is a leap year if divisible by 4, except century years,
/// which must be divisible by 400.
pub open spec fn is_leap_year(y: int) -> bool {
    (y % 4 == 0 && y % 100 != 0) || y % 400 == 0
}

/// Number of days in the given month of the given year.
pub open spec fn spec_days_in_month(y: int, m: int) -> int {
    if m == 2 {
        if is_leap_year(y) {
            29
        } else {
            28
        }
    } else if m == 4 || m == 6 || m == 9 || m == 11 {
        30
    } else {
        31
    }
}

impl Timestamp {
    /// The date fields name a real calendar day with a four-digit year.
    pub open spec fn valid_date(self) -> bool {
        &&& self.year <= 9999
        &&& 1 <= self.month <= 12
        &&& 1 <= self.day <= spec_days_in_month(self.year as int, self.month as int)
    }

    /// The timestamp names a real calendar day and time of day.
    pub open spec fn valid(self) -> bool {
        &&& self.valid_date()
        &&& self.hour < 24
        &&& self.minute < 60
        &&& self.second < 60
    }

    /// Mixed-radix encoding of the date fields alone. On valid dates it
    /// orders exactly as (year, month, day) orders lexicographically.
    pub open spec fn day_val(self) -> int {
        (self.day - 1) + 31 * ((self.month - 1) + 12 * self.year)
    }

    /// Mixed-radix encoding of all six fields. On valid timestamps it
    /// orders exactly as the fields order lexicographically, so `a` is
    /// earlier than `b` iff `a.ord_val() < b.ord_val()`.
    pub open spec fn ord_val(self) -> int {
        self.second + 60 * (self.minute + 60 * (self.hour + 24 * self.day_val()))
    }

    /// Same calendar day.
    pub open spec fn same_day(self, other: Self) -> bool {
        self.year == other.year && self.month == other.month && self.day == other.day
    }
}

impl Timestamp {
    /// Whether the fields name a real calendar day and time of day,
    /// executable form.
    pub fn is_valid(&self) -> (r: bool)
        ensures
            r == self.valid(),
    {
        self.year <= 9999 && 1 <= self.month && self.month <= 12 && 1 <= self.day && self.day
            <= days_in_month(self.year, self.month) && self.hour < 24 && self.minute < 60
            && self.second < 60
    }
}

/// Days in the given month, executable form.
pub fn days_in_month(year: u32, month: u32) -> (d: u32)
    requires
        1 <= month <= 12,
    ensures
        d == spec_days_in_month(year as int, month as int),
{
    if month == 2 {
        if (year % 4 == 0 && year % 100 != 0) || year % 400 == 0 {
            29
        } else {
            28
        }
    } else if month == 4 || month == 6 || month == 9 || month == 11 {
        30
    } else {
        31
    }
}

/// The date encoding of a valid date, as a machine integer.
pub fn day_value(t: &Timestamp) -> (v: u64)
    requires
        t.valid_date(),
    ensures
        v == t.day_val(),
{
    t.day as u64 - 1 + 31 * (t.month as u64 - 1 + 12 * t.year as u64)
}

/// The mixed-radix value of a valid timestamp, as a machine integer.
pub fn ts_value(t: &Timestamp) -> (v: u64)
    requires
        t.valid(),
    ensures
        v == t.ord_val(),
{
    t.second as u64 + 60 * (t.minute as u64 + 60 * (t.hour as u64 + 24 * ((t.day as u64 - 1)
        + 31 * ((t.month as u64 - 1) + 12 * t.year as u64))))
}

/// Strictly-earlier comparison of two valid timestamps.
pub fn ts_lt(a: &Timestamp, b: &Timestamp) -> (r: bool)
    requires
        a.valid(),
        b.valid(),
    ensures
        r == (a.ord_val() < b.ord_val()),
{
    ts_value(a) < ts_value(b)
}

/// Earlier-or-equal comparison of two valid timestamps.
pub fn ts_le(a: &Timestamp, b: &Timestamp) -> (r: bool)
    requires
        a.valid(),
        b.valid(),
    ensures
        r == (a.ord_val() <= b.ord_val()),
{
    ts_value(a) <= ts_value(b)
}

/// Two valid timestamps share a calendar day exactly when their date
/// encodings agree.
pub proof fn lemma_day_val_same_day(a: Timestamp, b: Timestamp)
    requires
        a.valid_date(),
        b.valid_date(),
    ensures
        a.same_day(b) <==> a.day_val() == b.day_val(),
{
}

/// The full ordering refines the date ordering: a strictly earlier calendar
/// day means a strictly earlier timestamp, whatever the times of day.
pub proof fn lemma_day_lt_ord_lt(a: Timestamp, b: Timestamp)
    requires
        a.valid(),
        b.valid(),
        a.day_val() < b.day_val(),
    ensures
        a.ord_val() < b.ord_val(),
{
}

} // verus!
