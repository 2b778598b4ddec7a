//! Timestamps and calendar dates.
//!
//! A timestamp is seconds since the Unix epoch plus a sub-second part in
//! milliseconds; ordering is lexicographic on the two fields.  A date is a
//! proleptic Gregorian calendar date; `epoch_day` gives its day number
//! relative to 1970-01-01.

use vstd::prelude::*;

verus! {

/// Smallest calendar year a `Date` may hold.
pub const MIN_YEAR: i64 = -262144;

/// Largest calendar year a `Date` may hold.
pub const MAX_YEAR: i64 = 262143;

/// A point in time: whole seconds since the Unix epoch plus milliseconds.
#[derive(Debug, Clone, Copy, PartialEq, Eq, Structural)]
pub struct Ts {
    pub secs: i64,
    pub millis: u32,
}

impl Ts {
    /// The sub-second part must stay below one second.
    pub open spec fn wf(self) -> bool {
        self.millis < 1000
    }

    /// Strict ordering: earlier seconds, or equal seconds and fewer millis.
    pub open spec fn spec_lt(self, other: Ts) -> bool {
        self.secs < other.secs || (self.secs == other.secs && self.millis < other.millis)
    }

    /// True when `self` is strictly earlier than `other`.
    pub fn lt(&self, other: &Ts) -> (r: bool)
        ensures
            r == self.spec_lt(*other),
    {
        self.secs < other.secs || (self.secs == other.secs && self.millis < other.millis)
    }

    /// Two timestamps agree once truncated to whole seconds exactly when
    /// their `secs` fields agree.
    pub fn same_second(&self, other: &Ts) -> (r: bool)
        ensures
            r == (self.secs == other.secs),
    {
        self.secs == other.secs
    }
}

/// Sort key of a stored message: a message may lack a timestamp, and the
/// absent key sorts before every present one.
pub open spec fn key_lt(a: Option<Ts>, b: Option<Ts>) -> bool {
    match (a, b) {
        (Option::None, Option::None) => false,
        (Option::None, Option::Some(_)) => true,
        (Option::Some(_), Option::None) => false,
        (Option::Some(x), Option::Some(y)) => x.spec_lt(y),
    }
}

/// Executable comparison matching `key_lt`.
pub fn key_lt_exec(a: &Option<Ts>, b: &Option<Ts>) -> (r: bool)
    ensures
        r == key_lt(*a, *b),
{
    match (a, b) {
        (Option::None, Option::None) => false,
        (Option::None, Option::Some(_)) => true,
        (Option::Some(_), Option::None) => false,
        (Option::Some(x), Option::Some(y)) => x.lt(y),
    }
}

/// A proleptic Gregorian calendar date.
#[derive(Debug, Clone, Copy, PartialEq, Eq, Structural)]
pub struct Date {
    pub year: i64,
    pub month: u32,
    pub day: u32,
}

/// Gregorian leap-year rule.
pub open spec fn spec_is_leap(y: int) -> bool {
    y % 4 == 0 && (y % 100 != 0 || y % 400 == 0)
}

/// Length of a month in the given year.
pub open spec fn spec_days_in_month(y: int, m: int) -> int {
    if m == 2 {
        if spec_is_leap(y) {
            29
        } else {
            28
        }
    } else if m == 4 || m == 6 || m == 9 || m == 11 {
        30
    } else {
        31
    }
}

impl Date {
    /// A valid calendar date within the supported year range.
    pub open spec fn wf(self) -> bool {
        &&& MIN_YEAR <= self.year <= MAX_YEAR
        &&& 1 <= self.month <= 12
        &&& 1 <= self.day <= spec_days_in_month(self.year as int, self.month as int)
    }

    /// Builds a date, rejecting out-of-range years and invalid month or day
    /// combinations.
    pub fn from_ymd(year: i64, month: u32, day: u32) -> (r: Option<Date>)
        ensures
            match r {
                Option::Some(d) => d == (Date { year, month, day }) && d.wf(),
                Option::None => !(Date { year, month, day }).wf(),
            },
    {
        if year < MIN_YEAR || year > MAX_YEAR {
            return None;
        }
        if month < 1 || month > 12 {
            return None;
        }
        let dim: u32 = days_in_month(year, month);
        if day < 1 || day > dim {
            return None;
        }
        Some(Date { year, month, day })
    }

    /// Strict chronological order, which on valid dates coincides with
    /// lexicographic order on (year, month, day).
    pub open spec fn spec_lt(self, other: Date) -> bool {
        self.year < other.year || (self.year == other.year && (self.month < other.month || (
        self.month == other.month && self.day < other.day)))
    }

    /// True when `self` falls strictly before `other`.
    pub fn lt(&self, other: &Date) -> (r: bool)
        ensures
            r == self.spec_lt(*other),
    {
        self.year < other.year || (self.year == other.year && (self.month < other.month || (
        self.month == other.month && self.day < other.day)))
    }
}

/// Executable leap-year test.
pub fn is_leap(y: i64) -> (r: bool)
    ensures
        r == spec_is_leap(y as int),
{
    y % 4 == 0 && (y % 100 != 0 || y % 400 == 0)
}

/// Executable month length.
pub fn days_in_month(y: i64, m: u32) -> (r: u32)
    ensures
        r == spec_days_in_month(y as int, m as int),
{
    if m == 2 {
        if is_leap(y) {
            29
        } else {
            28
        }
    } else if m == 4 || m == 6 || m == 9 || m == 11 {
        30
    } else {
        31
    }
}

/// Years are shifted by this amount (a multiple of 400) before the day-number
/// computation so that every intermediate quantity stays non-negative.
pub const YEAR_SHIFT: i64 = 320000;

/// Days contributed by `YEAR_SHIFT / 400` whole 400-year eras.
pub const SHIFT_DAYS: i64 = 116877600;

/// Day number of a date relative to 1970-01-01, by the standard civil
/// calendar formula: the year is shifted so arithmetic is non-negative, the
/// year is split into 400-year eras, and the day of year is computed from a
/// March-based month index.
pub open spec fn spec_epoch_day(d: Date) -> int {
    let ys = d.year + YEAR_SHIFT;
    let y2 = if d.month <= 2 {
        ys - 1
    } else {
        ys as int
    };
    let era = y2 / 400;
    let yoe = y2 - era * 400;
    let mp = (d.month + 9) % 12;
    let doy = (153 * mp + 2) / 5 + d.day - 1;
    let doe = yoe * 365 + yoe / 4 - yoe / 100 + doy;
    era * 146097 + doe - 719468 - SHIFT_DAYS
}

/// Day number of `d` relative to 1970-01-01.
pub fn epoch_day(d: &Date) -> (r: i64)
    requires
        d.wf(),
    ensures
        r == spec_epoch_day(*d),
        -106752000 <= r <= 106752000,
{
    let ys: i64 = d.year + YEAR_SHIFT;
    let y2: u64 = if d.month <= 2 {
        (ys - 1) as u64
    } else {
        ys as u64
    };
    let era: u64 = y2 / 400;
    let yoe: u64 = y2 - era * 400;
    let mp: u64 = ((d.month + 9) % 12) as u64;
    let doy: u64 = (153 * mp + 2) / 5 + d.day as u64 - 1;
    let doe: u64 = yoe * 365 + yoe / 4 - yoe / 100 + doy;
    (era * 146097 + doe) as i64 - 719468 - SHIFT_DAYS
}

/// Seconds per day, hour and minute.
pub const SECS_PER_DAY: i64 = 86400;

/// Timestamp of a calendar date combined with a time of day, at millisecond
/// precision zero.
pub open spec fn spec_ts_of(d: Date, h: int, mi: int, s: int) -> Ts {
    Ts { secs: (spec_epoch_day(d) * SECS_PER_DAY + h * 3600 + mi * 60 + s) as i64, millis: 0 }
}

/// Combines a date and a time of day into a timestamp.
pub fn ts_of_date_time(d: &Date, h: u32, mi: u32, s: u32) -> (r: Ts)
    requires
        d.wf(),
        h < 24,
        mi < 60,
        s < 60,
    ensures
        r == spec_ts_of(*d, h as int, mi as int, s as int),
        r.wf(),
{
    let day: i64 = epoch_day(d);
    Ts { secs: day * SECS_PER_DAY + (h as i64) * 3600 + (mi as i64) * 60 + s as i64, millis: 0 }
}

} // verus!
