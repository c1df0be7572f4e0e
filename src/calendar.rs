//! Proleptic Gregorian calendar dates and the day-count helpers built on them.

use vstd::prelude::*;
use chrono::{Datelike, NaiveDate};

verus! {

/// Earliest year that a `Date` can hold (the earliest year chrono represents).
pub const MIN_YEAR: i32 = -262143;

/// Latest year that a `Date` can hold (the latest year chrono represents).
pub const MAX_YEAR: i32 = 262142;

pub open spec fn is_leap(y: int) -> bool {
    y % 4 == 0 && (y % 100 != 0 || y % 400 == 0)
}

pub open spec fn days_in_month(y: int, m: int) -> int {
    if m == 2 {
        if is_leap(y) { 29 } else { 28 }
    } else if m == 4 || m == 6 || m == 9 || m == 11 {
        30
    } else {
        31
    }
}

pub open spec fn valid_ymd(y: int, m: int, d: int) -> bool {
    &&& MIN_YEAR <= y <= MAX_YEAR
    &&& 1 <= m <= 12
    &&& 1 <= d <= days_in_month(y, m)
}

/// Days in the months of year `y` that come before month `m`.
pub open spec fn days_before_month(y: int, m: int) -> int
    decreases m,
{
    if m <= 1 {
        0
    } else {
        days_before_month(y, m - 1) + days_in_month(y, m - 1)
    }
}

/// Days in the years before year `y`, counted from January 1 of year 1.
pub open spec fn days_before_year(y: int) -> int {
    let p = y - 1;
    365 * p + p / 4 - p / 100 + p / 400
}

/// The day number of a calendar date, January 1 of year 1 being day 1.
pub open spec fn ce_day(y: int, m: int, d: int) -> int {
    days_before_year(y) + days_before_month(y, m) + d
}

/// A calendar date of the proleptic Gregorian calendar.
#[derive(Clone, Copy, Debug, PartialEq, Eq, Structural, PartialOrd, Ord, Hash)]
pub struct Date {
    pub year: i32,
    pub month: u32,
    pub day: u32,
}

impl Date {
    /// The fields name an existing day within the supported years.
    pub open spec fn wf(self) -> bool {
        valid_ymd(self.year as int, self.month as int, self.day as int)
    }

    pub open spec fn day_number(self) -> int {
        ce_day(self.year as int, self.month as int, self.day as int)
    }

    /// Months elapsed since January of year 0.
    pub open spec fn month_index(self) -> int {
        self.year * 12 + self.month - 1
    }
}

/// Chronological order: `a` comes strictly before `b`.
pub open spec fn date_lt(a: Date, b: Date) -> bool {
    a.year < b.year || (a.year == b.year && (a.month < b.month || (a.month == b.month && a.day
        < b.day)))
}

pub open spec fn date_le(a: Date, b: Date) -> bool {
    date_lt(a, b) || a == b
}

/// Relies on chrono's `NaiveDate::from_ymd_opt`: it returns `Some` exactly for
/// an existing day of a year in chrono's range.
#[verifier::external_body]
fn ymd_exists(year: i32, month: u32, day: u32) -> (r: bool)
    ensures
        r == valid_ymd(year as int, month as int, day as int),
{
    NaiveDate::from_ymd_opt(year, month, day).is_some()
}

/// Relies on chrono's `Datelike::num_days_from_ce` for `NaiveDate`: the day
/// number with January 1 of year 1 as day 1.
#[verifier::external_body]
fn days_from_ce(d: &Date) -> (r: i32)
    requires
        d.wf(),
    ensures
        r == d.day_number(),
{
    NaiveDate::from_ymd_opt(d.year, d.month, d.day).unwrap().num_days_from_ce()
}

impl Date {
    /// The date with the given year, month and day, if that day exists.
    pub fn from_ymd(year: i32, month: u32, day: u32) -> (r: Option<Date>)
        ensures
            r.is_some() <==> valid_ymd(year as int, month as int, day as int),
            r matches Some(d) ==> d == (Date { year, month, day }),
    {
        if ymd_exists(year, month, day) {
            Some(Date { year, month, day })
        } else {
            None
        }
    }

    pub fn is_valid(&self) -> (r: bool)
        ensures
            r == self.wf(),
    {
        ymd_exists(self.year, self.month, self.day)
    }

    /// `self` comes strictly before `other`.
    pub fn is_before(&self, other: &Date) -> (r: bool)
        ensures
            r == date_lt(*self, *other),
    {
        self.year < other.year || (self.year == other.year && (self.month < other.month || (
        self.month == other.month && self.day < other.day)))
    }
}


/// The days from January 1 of year 1 to January 1, 1970 (day zero of the
/// serial numbering used by hosts that count days since 1970).
pub const SERIAL_EPOCH_CE: i32 = 719163;

pub open spec fn first_day_number() -> int {
    ce_day(MIN_YEAR as int, 1, 1)
}

pub open spec fn last_day_number() -> int {
    ce_day(MAX_YEAR as int, 12, 31)
}

/// Relies on chrono's `NaiveDate::from_num_days_from_ce_opt`: the date whose
/// day number (January 1 of year 1 being day 1) is `n`, or `None` when that
/// date lies outside chrono's years; and on `Datelike`'s `year`, `month`, `day`.
#[verifier::external_body]
fn date_of_day_number(n: i32) -> (r: Option<Date>)
    ensures
        r.is_some() <==> first_day_number() <= n <= last_day_number(),
        r matches Some(d) ==> d.wf() && d.day_number() == n,
{
    NaiveDate::from_num_days_from_ce_opt(n).map(
        |nd| Date { year: nd.year(), month: nd.month(), day: nd.day() },
    )
}

pub proof fn lemma_day_number_bounds()
    ensures
        i32::MIN < first_day_number() - SERIAL_EPOCH_CE,
        last_day_number() < i32::MAX,
{
    reveal_with_fuel(days_before_month, 12);
    assert(first_day_number() == -95746129);
    assert(last_day_number() == 95745399);
}

/// Number of days from the first day of month `m` to the first day of the
/// month after it.
pub proof fn lemma_month_length(y: int, m: int)
    requires
        1 <= m <= 12,
    ensures
        m < 12 ==> ce_day(y, m + 1, 1) - ce_day(y, m, 1) == days_in_month(y, m),
        m == 12 ==> ce_day(y + 1, 1, 1) - ce_day(y, 12, 1) == days_in_month(y, 12),
{
    if m == 12 {
        reveal_with_fuel(days_before_month, 12);
        assert(days_before_month(y, 12) == 334 + if is_leap(y) { 1int } else { 0 });
        assert(days_before_year(y + 1) - days_before_year(y) == 365 + if is_leap(y) { 1int } else { 0 });
    }
}

impl Date {
    /// The number of days from `d0` to `self` (negative when `self` is earlier).
    pub fn days_since(&self, d0: &Date) -> (r: i64)
        requires
            self.wf(),
            d0.wf(),
        ensures
            r == self.day_number() - d0.day_number(),
    {
        days_from_ce(self) as i64 - days_from_ce(d0) as i64
    }

    /// The day's serial number counted from January 1, 1970 (day 0).
    pub fn serial(&self) -> (r: i64)
        requires
            self.wf(),
        ensures
            r == self.day_number() - SERIAL_EPOCH_CE,
    {
        days_from_ce(self) as i64 - SERIAL_EPOCH_CE as i64
    }

    /// The date whose serial number counted from January 1, 1970 is `serial`,
    /// if it lies within the supported years.
    pub fn from_serial(serial: i64) -> (r: Option<Date>)
        ensures
            r.is_some() <==> first_day_number() <= serial + SERIAL_EPOCH_CE <= last_day_number(),
            r matches Some(d) ==> d.wf() && d.day_number() == serial + SERIAL_EPOCH_CE,
    {
        proof {
            lemma_day_number_bounds();
        }
        if serial < i32::MIN as i64 || serial > i32::MAX as i64 - SERIAL_EPOCH_CE as i64 {
            return None;
        }
        date_of_day_number((serial + SERIAL_EPOCH_CE as i64) as i32)
    }
}


/// The date `n` months after `d`, its day lowered to the last day of the
/// target month where that month is shorter.
pub open spec fn add_months_spec(d: Date, n: int) -> Date {
    let k = d.month_index() + n;
    let y = k / 12;
    let m = k % 12 + 1;
    let day = if d.day <= days_in_month(y, m) {
        d.day as int
    } else {
        days_in_month(y, m)
    };
    Date { year: y as i32, month: m as u32, day: day as u32 }
}

/// The month-shifted date exists and the first day of the month after it too.
pub open spec fn add_months_in_range(d: Date, n: int) -> bool {
    MIN_YEAR <= (d.month_index() + n) / 12 < MAX_YEAR
}

/// Shifts `ref_date` by `months` months (backwards when negative); a day past
/// the end of the target month becomes that month's last day.
pub fn add_months(ref_date: &Date, months: i32) -> (r: Date)
    requires
        ref_date.wf(),
        add_months_in_range(*ref_date, months as int),
    ensures
        r == add_months_spec(*ref_date, months as int),
        r.wf(),
{
    let k: i64 = ref_date.year as i64 * 12 + ref_date.month as i64 - 1 + months as i64;
    let off: i64 = k - MIN_YEAR as i64 * 12;
    let year: i32 = (off / 12 + MIN_YEAR as i64) as i32;
    let month: u32 = (off % 12 + 1) as u32;
    assert(year == k / 12 && month == k % 12 + 1) by {
        assert(off == k - MIN_YEAR * 12);
        assert(k == 12 * (year - MIN_YEAR) + off % 12 + 12 * MIN_YEAR) by (nonlinear_arith)
            requires off == 12 * (off / 12) + off % 12, off == k - MIN_YEAR * 12, year == off / 12 + MIN_YEAR;
        assert(k == 12 * year + (month - 1));
    }
    let first = Date { year, month, day: 1 };
    let next = if month == 12 {
        Date { year: year + 1, month: 1, day: 1 }
    } else {
        Date { year, month: month + 1, day: 1 }
    };
    proof {
        lemma_month_length(year as int, month as int);
    }
    let max_day: u32 = next.days_since(&first) as u32;
    let day = if ref_date.day > max_day {
        max_day
    } else {
        ref_date.day
    };
    Date { year, month, day }
}

/// A shift by zero months gives the date back.
pub proof fn lemma_add_zero_months(d: Date)
    requires
        d.wf(),
    ensures
        add_months_spec(d, 0) == d,
{
    let k = d.month_index();
    assert(k == 12 * d.year + (d.month - 1));
    assert(k / 12 == d.year && k % 12 == d.month - 1) by (nonlinear_arith)
        requires k == 12 * d.year + (d.month - 1), 0 <= d.month - 1 < 12;
}

/// January 31 plus one month is the last day of February: the 29th in a leap
/// year, the 28th otherwise.
pub proof fn lemma_end_of_january_plus_one_month(year: i32)
    requires
        MIN_YEAR <= year <= MAX_YEAR,
    ensures
        add_months_spec(Date { year, month: 1, day: 31 }, 1) == (Date {
            year,
            month: 2,
            day: if is_leap(year as int) { 29u32 } else { 28u32 },
        }),
{
    let k = Date { year, month: 1, day: 31 }.month_index() + 1;
    assert(k == 12 * year + 1);
    assert(k / 12 == year && k % 12 == 1) by (nonlinear_arith)
        requires k == 12 * year + 1;
}

/// The parts of the year fraction between two dates: it is
/// `years + months / 12 + days / 365`, each part a signed difference.
#[derive(Clone, Copy, Debug, PartialEq, Eq, Structural)]
pub struct YearFraction {
    pub years: i64,
    pub months: i64,
    pub days: i64,
}

impl YearFraction {
    /// The fraction in units of 1/4380 of a year (4380 = 12 * 365).
    pub open spec fn units(self) -> int {
        4380 * self.years + 365 * self.months + 12 * self.days
    }
}

/// The year fraction from `d0` to `d1` under the simple convention
/// `(Y1 - Y0) + (M1 - M0) / 12 + (D1 - D0) / 365`.
pub fn year_frac(d1: &Date, d0: &Date) -> (r: YearFraction)
    ensures
        r.years == d1.year - d0.year,
        r.months == d1.month - d0.month,
        r.days == d1.day - d0.day,
{
    YearFraction {
        years: d1.year as i64 - d0.year as i64,
        months: d1.month as i64 - d0.month as i64,
        days: d1.day as i64 - d0.day as i64,
    }
}

} // verus!
