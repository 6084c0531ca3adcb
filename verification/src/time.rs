//! Instants, elapsed time and the Gregorian calendar.
//!
//! An instant is a count of seconds and nanoseconds since 1970-01-01T00:00:00Z.
//! Calendar questions go to `chrono`; what its answers mean is stated here over
//! the day numbers of the proleptic Gregorian calendar.

use chrono::{DateTime, Datelike, Months, NaiveDate, TimeDelta, Utc};
use vstd::prelude::*;

verus! {

/// Nanoseconds in a second.
pub const NANOS: u32 = 1_000_000_000;

/// Seconds in a day.
pub const DAY_SECS: u64 = 86_400;

/// The first second of the first representable day.
pub const FIRST_SECOND: i64 = -8_334_601_228_800;

/// The last second of the last representable day.
pub const LAST_SECOND: i64 = 8_210_266_876_799;

/// Elapsed time, exact to the nanosecond.
#[derive(Debug, Clone, Copy, PartialEq, Eq, Structural)]
pub struct Elapsed {
    pub secs: u64,
    pub nanos: u32,
}

impl Elapsed {
    /// The nanoseconds are those beyond the whole seconds.
    pub open spec fn wf(&self) -> bool {
        self.nanos < NANOS
    }

    /// The elapsed time as a count of nanoseconds.
    pub open spec fn total(&self) -> nat {
        (self.secs * NANOS + self.nanos) as nat
    }
}

/// An elapsed time, or a second where it is shorter.
pub fn at_least_a_second(time: Elapsed) -> (r: Elapsed)
    requires
        time.wf(),
    ensures
        r.wf(),
        r.total() == if time.total() < NANOS {
            NANOS as nat
        } else {
            time.total()
        },
{
    if time.secs == 0 {
        Elapsed { secs: 1, nanos: 0 }
    } else {
        time
    }
}

/// An instant in UTC.
#[derive(Debug, Clone, Copy, PartialEq, Eq, Structural)]
pub struct Timestamp {
    pub secs: i64,
    pub nanos: u32,
}

impl Timestamp {
    /// The instant lies on a representable day, and the nanoseconds are those
    /// beyond the whole second.
    pub open spec fn wf(&self) -> bool {
        FIRST_SECOND <= self.secs <= LAST_SECOND && self.nanos < NANOS
    }

    /// Whether the instant is one that this library works on.
    pub fn valid(&self) -> (r: bool)
        ensures
            r == self.wf(),
    {
        FIRST_SECOND <= self.secs && self.secs <= LAST_SECOND && self.nanos < NANOS
    }

    /// The instant as a count of nanoseconds.
    pub open spec fn total(&self) -> int {
        self.secs * NANOS + self.nanos
    }

    /// The Gregorian day the instant lies on.
    pub open spec fn day(&self) -> int {
        self.secs as int / DAY_SECS as int + EPOCH_DAY
    }

    /// Whether `self` comes after `other`.
    pub open spec fn later_than(&self, other: &Timestamp) -> bool {
        self.secs > other.secs || (self.secs == other.secs && self.nanos > other.nanos)
    }

    /// Whether `self` comes after `other`.
    pub fn after(&self, other: &Timestamp) -> (r: bool)
        ensures
            r == self.later_than(other),
            self.wf() && other.wf() ==> r == (self.total() > other.total()),
    {
        self.secs > other.secs || (self.secs == other.secs && self.nanos > other.nanos)
    }

    /// Whole seconds from `earlier` to `self`, rounded towards zero.
    pub fn seconds_since(&self, earlier: &Timestamp) -> (r: i64)
        requires
            self.wf(),
            earlier.wf(),
        ensures
            self.total() >= earlier.total() ==> r == (self.total() - earlier.total()) / (NANOS as int),
            self.total() < earlier.total() ==> r == -((earlier.total() - self.total())
                / (NANOS as int)),
    {
        let whole: i64 = self.secs - earlier.secs;
        if whole > 0 && self.nanos < earlier.nanos {
            assert((self.total() - earlier.total()) / (NANOS as int) == whole - 1);
            whole - 1
        } else if whole < 0 && self.nanos > earlier.nanos {
            assert((earlier.total() - self.total()) / (NANOS as int) == -(whole + 1));
            whole + 1
        } else {
            whole
        }
    }
}

// ---------------------------------------------------------------------------
// The Gregorian calendar
// ---------------------------------------------------------------------------

/// Whether a year has a 29 February.
pub open spec fn is_leap(year: int) -> bool {
    year % 4 == 0 && (year % 100 != 0 || year % 400 == 0)
}

/// The length of a month.
pub open spec fn month_days(year: int, month: int) -> int {
    if month == 2 {
        if is_leap(year) {
            29
        } else {
            28
        }
    } else if month == 4 || month == 6 || month == 9 || month == 11 {
        30
    } else {
        31
    }
}

/// The days of a year that lie before a month.
pub open spec fn days_before_month(year: int, month: int) -> int
    decreases month,
{
    if month <= 1 {
        0
    } else {
        days_before_month(year, month - 1) + month_days(year, month - 1)
    }
}

/// The days from 1 January of year 1 to 1 January of `year`.
pub open spec fn days_before_year(year: int) -> int {
    365 * (year - 1) + (year - 1) / 4 - (year - 1) / 100 + (year - 1) / 400
}

/// A day counted from 1 January of year 1, which is day 1.
pub open spec fn day_number(year: int, month: int, day: int) -> int {
    days_before_year(year) + days_before_month(year, month) + day
}

/// Whether a year, month and day name a day of the calendar.
pub open spec fn is_date(year: int, month: int, day: int) -> bool {
    1 <= month <= 12 && 1 <= day <= month_days(year, month)
}

/// The number of 1970-01-01.
pub const EPOCH_DAY: i64 = 719_163;

/// The year that lies `months` after a month.
pub open spec fn later_year(year: int, month: int, months: int) -> int {
    (year * 12 + month - 1 + months) / 12
}

/// The month that lies `months` after a month.
pub open spec fn later_month(year: int, month: int, months: int) -> int {
    (year * 12 + month - 1 + months) % 12 + 1
}

/// How many days lie between a date and the date `months` later, whose day is
/// constrained to the last day of its month.
pub open spec fn days_to_later_month(year: int, month: int, day: int, months: int) -> int {
    let y = later_year(year, month, months);
    let m = later_month(year, month, months);
    let last = month_days(y, m);
    day_number(y, m, if day <= last { day } else { last }) - day_number(year, month, day)
}

/// Dates four hundred years apart fall on days 146,097 apart, and months keep
/// their lengths.
pub proof fn lemma_calendar_repeats(year: int, month: int, cycles: int)
    ensures
        is_leap(year + 400 * cycles) == is_leap(year),
        month_days(year + 400 * cycles, month) == month_days(year, month),
        days_before_month(year + 400 * cycles, month) == days_before_month(year, month),
        days_before_year(year + 400 * cycles) == days_before_year(year) + 146_097 * cycles,
    decreases month,
{
    lemma_shifted(year, 100 * cycles, 4);
    lemma_shifted(year, 4 * cycles, 100);
    lemma_shifted(year, cycles, 400);
    lemma_shifted(year - 1, 100 * cycles, 4);
    lemma_shifted(year - 1, 4 * cycles, 100);
    lemma_shifted(year - 1, cycles, 400);
    if month > 1 {
        lemma_calendar_repeats(year, month - 1, cycles);
    }
}

/// Adding a multiple of the divisor shifts the quotient and keeps the rest.
proof fn lemma_shifted(x: int, k: int, n: int)
    requires
        n > 0,
    ensures
        (x + n * k) / n == x / n + k,
        (x + n * k) % n == x % n,
{
    vstd::arithmetic::div_mod::lemma_hoist_over_denominator(x, k, n as nat);
    vstd::arithmetic::div_mod::lemma_mod_multiples_vanish(k, x, n);
    assert(n * k == k * n) by (nonlinear_arith);
}

/// A quotient steps up by one where the divisor divides.
proof fn lemma_quotient_step(x: int, n: int)
    requires
        n > 1,
    ensures
        x / n - (x - 1) / n == if x % n == 0 {
            1int
        } else {
            0int
        },
{
    vstd::arithmetic::div_mod::lemma_fundamental_div_mod(x, n);
    vstd::arithmetic::div_mod::lemma_fundamental_div_mod(x - 1, n);
    let q = x / n;
    let p = (x - 1) / n;
    assert(n * (q - p) == n * q - n * p) by (nonlinear_arith);
    assert(q - p == 0 || q - p == 1) by (nonlinear_arith)
        requires
            n > 1,
            -n < n * (q - p) - 1 < n,
    ;
    if q - p == 0 {
        assert(n * (q - p) == 0) by (nonlinear_arith)
            requires
                q - p == 0,
        ;
    } else {
        assert(n * (q - p) == n) by (nonlinear_arith)
            requires
                q - p == 1,
        ;
    }
}

/// The calendar repeats every 400 years: whole cycles of 4,800 months add
/// 146,097 days each, and the rest may be counted from the same date of any
/// equivalent year.
pub proof fn lemma_later_month_repeats(
    year: int,
    month: int,
    day: int,
    months: int,
    shift: int,
    cycles: int,
)
    requires
        1 <= month <= 12,
    ensures
        days_to_later_month(year, month, day, months + 4_800 * cycles) == days_to_later_month(
            year + 400 * shift,
            month,
            day,
            months,
        ) + 146_097 * cycles,
{
    let y = later_year(year, month, months);
    let m = later_month(year, month, months);
    assert(later_year(year, month, months + 4_800 * cycles) == y + 400 * cycles);
    assert(later_month(year, month, months + 4_800 * cycles) == m);
    assert(later_year(year + 400 * shift, month, months) == y + 400 * shift);
    assert(later_month(year + 400 * shift, month, months) == m);
    lemma_calendar_repeats(y, m, cycles);
    lemma_calendar_repeats(y, m, shift);
    lemma_calendar_repeats(year, month, shift);
}

/// `chrono`'s `DateTime::from_timestamp` with `Datelike::year`, `month` and
/// `day`: the Gregorian date of an instant. Claimed: the three numbers name a
/// day of the calendar, the one whose number is that of the instant's day.
#[verifier::external_body]
fn civil_date(secs: i64) -> (r: (i32, u32, u32))
    requires
        FIRST_SECOND <= secs <= LAST_SECOND,
    ensures
        is_date(r.0 as int, r.1 as int, r.2 as int),
        day_number(r.0 as int, r.1 as int, r.2 as int) == secs as int / DAY_SECS as int + EPOCH_DAY,
{
    let date = DateTime::<Utc>::from_timestamp(secs, 0).unwrap();
    (date.year(), date.month(), date.day())
}

/// `chrono`'s `NaiveDate::checked_add_months`, with the difference of the two
/// dates in days. Claimed: the day is kept, or is the last of the month where
/// that month is shorter, and the difference is that of the two day numbers.
#[verifier::external_body]
fn days_after_months(year: i32, month: u32, day: u32, months: u32) -> (r: u64)
    requires
        2000 <= year < 2400,
        months < 4800,
        is_date(year as int, month as int, day as int),
    ensures
        r == days_to_later_month(year as int, month as int, day as int, months as int),
{
    let date = NaiveDate::from_ymd_opt(year, month, day).unwrap();
    let end = date.checked_add_months(Months::new(months)).unwrap();
    (end - date).num_days().unsigned_abs()
}

/// `chrono`'s `DateTime::checked_add_signed` on a `TimeDelta` made by
/// `TimeDelta::from_std`. Claimed: the sum, or nothing where it lies beyond the
/// last representable day.
#[verifier::external_body]
fn add_elapsed(secs: i64, nanos: u32, more: u64, more_nanos: u32) -> (r: Option<(i64, u32)>)
    requires
        FIRST_SECOND <= secs <= LAST_SECOND,
        nanos < NANOS,
        more_nanos < NANOS,
    ensures
        match r {
            Some(t) => {
                &&& FIRST_SECOND <= t.0 <= LAST_SECOND
                &&& t.1 < NANOS
                &&& t.0 * NANOS + t.1 == secs * NANOS + nanos + more * NANOS + more_nanos
            },
            None => secs * NANOS + nanos + more * NANOS + more_nanos >= (LAST_SECOND + 1) * NANOS,
        },
{
    let start = DateTime::<Utc>::from_timestamp(secs, nanos)?;
    let delta = TimeDelta::from_std(std::time::Duration::new(more, more_nanos)).ok()?;
    let end = start.checked_add_signed(delta)?;
    Some((end.timestamp(), end.timestamp_subsec_nanos()))
}

/// The date with a given day number.
pub open spec fn date_of(day: int) -> (int, int, int) {
    choose|date: (int, int, int)|
        is_date(date.0, date.1, date.2) && #[trigger] day_number(date.0, date.1, date.2) == day
}

/// A year has as many days as its twelve months.
pub proof fn lemma_year_length(year: int)
    ensures
        days_before_month(year, 13) == if is_leap(year) {
            366int
        } else {
            365int
        },
        days_before_year(year + 1) == days_before_year(year) + days_before_month(year, 13),
{
    lemma_quotient_step(year, 4);
    lemma_quotient_step(year, 100);
    lemma_quotient_step(year, 400);
    lemma_divisors(year);
    lemma_twelve_months(year);
    let before = year - 1;
    assert(days_before_year(year + 1) == 365 * year + year / 4 - year / 100 + year / 400);
    assert(days_before_year(year) == 365 * before + before / 4 - before / 100 + before / 400);
}

proof fn lemma_divisors(x: int)
    ensures
        x % 400 == 0 ==> x % 100 == 0,
        x % 100 == 0 ==> x % 4 == 0,
{
}

proof fn lemma_twelve_months(year: int)
    ensures
        days_before_month(year, 13) == 337 + month_days(year, 2),
{
    reveal_with_fuel(days_before_month, 14);
}

proof fn lemma_month_order(year: int, a: int, b: int)
    requires
        1 <= a <= b <= 13,
    ensures
        days_before_month(year, a) <= days_before_month(year, b),
        a < b ==> days_before_month(year, a) + month_days(year, a) <= days_before_month(year, b),
    decreases b - a,
{
    if a < b {
        lemma_month_order(year, a, b - 1);
    }
}

proof fn lemma_year_order(a: int, b: int)
    requires
        a < b,
    ensures
        days_before_year(a + 1) <= days_before_year(b),
    decreases b - a,
{
    if a + 1 < b {
        lemma_year_order(a, b - 1);
        lemma_year_length(b - 1);
    }
}

/// Two dates in order have day numbers in order.
proof fn lemma_day_order(y1: int, m1: int, d1: int, y2: int, m2: int, d2: int)
    requires
        is_date(y1, m1, d1),
        is_date(y2, m2, d2),
        y1 < y2 || (y1 == y2 && m1 < m2) || (y1 == y2 && m1 == m2 && d1 < d2),
    ensures
        day_number(y1, m1, d1) < day_number(y2, m2, d2),
{
    lemma_year_length(y1);
    lemma_month_order(y1, m1, 13);
    lemma_month_order(y2, 1, m2);
    if y1 < y2 {
        lemma_year_order(y1, y2);
    } else if m1 < m2 {
        lemma_month_order(y1, m1, m2);
    }
}

/// No two dates share a day number: a day has one date.
pub proof fn lemma_date_of(year: int, month: int, day: int)
    requires
        is_date(year, month, day),
    ensures
        date_of(day_number(year, month, day)) == (year, month, day),
{
    let n = day_number(year, month, day);
    let date = (year, month, day);
    assert(is_date(date.0, date.1, date.2) && day_number(date.0, date.1, date.2) == n);
    let (y, m, d) = date_of(n);
    assert(is_date(y, m, d) && day_number(y, m, d) == n);
    if y < year || (y == year && m < month) || (y == year && m == month && d < day) {
        lemma_day_order(y, m, d, year, month, day);
    }
    if year < y || (y == year && month < m) || (y == year && m == month && day < d) {
        lemma_day_order(year, month, day, y, m, d);
    }
}

/// Less than a whole cycle of months takes less than a whole cycle of days.
proof fn lemma_within_cycle(year: int, month: int, day: int, months: int)
    requires
        is_date(year, month, day),
        0 <= months < 4800,
    ensures
        days_to_later_month(year, month, day, months) < 146_097,
{
    let y = later_year(year, month, months);
    let m = later_month(year, month, months);
    let last = month_days(y, m);
    let d = if day <= last { day } else { last };
    lemma_calendar_repeats(year, month, 1);
    lemma_day_order(y, m, d, year + 400, month, day);
}

/// The days that `months` calendar months take from an instant's date.
pub open spec fn days_in_months(months: int, start: Timestamp) -> int {
    let (year, month, day) = date_of(start.day());
    days_to_later_month(year, month, day, months)
}

/// Days to the same date `months` later, constrained to the last day of the
/// target month. Dates repeat every 400 years, so the remainder is resolved
/// in a safe range of years: even a date beyond the last representable day has
/// a finite distance.
pub fn calendar_days(months: u32, start: Timestamp) -> (r: u64)
    requires
        start.wf(),
    ensures
        r == days_in_months(months as int, start),
        r <= 146_097 * (months as int / 4800 + 1),
{
    let (year, month, day) = civil_date(start.secs);
    let near: i32 = 2000 + year.checked_rem_euclid(400).unwrap();
    let shift = Ghost((near - year) / 400);
    proof {
        let (y, m, d) = (year as int, month as int, day as int);
        assert(near == y + 400 * shift@);
        lemma_calendar_repeats(y, m, shift@);
        lemma_date_of(y, m, d);
        lemma_later_month_repeats(y, m, d, months as int % 4800, shift@, months as int / 4800);
        lemma_within_cycle(near as int, m, d, months as int % 4800);
    }
    let days = days_after_months(near, month, day, months % 4800);
    (months / 4800) as u64 * 146_097 + days
}

/// The instant some elapsed time after another; `None` beyond the last
/// representable day.
pub fn later_instant(start: Timestamp, elapsed: Elapsed) -> (r: Option<Timestamp>)
    requires
        start.wf(),
        elapsed.wf(),
    ensures
        match r {
            Some(t) => t.wf() && t.total() == start.total() + elapsed.total(),
            None => start.total() + elapsed.total() >= (LAST_SECOND + 1) * NANOS,
        },
{
    match add_elapsed(start.secs, start.nanos, elapsed.secs, elapsed.nanos) {
        Some((secs, nanos)) => Some(Timestamp { secs, nanos }),
        None => None,
    }
}

/// An instant in RFC 3339, in UTC.
pub uninterp spec fn rfc3339_text(secs: int, nanos: int) -> Seq<char>;

/// `chrono`'s `DateTime::from_timestamp` and `DateTime::to_rfc3339`. Claimed:
/// the result is a function of the instant.
#[verifier::external_body]
fn format_instant(secs: i64, nanos: u32) -> (r: String)
    requires
        FIRST_SECOND <= secs <= LAST_SECOND,
        nanos < NANOS,
    ensures
        r@ == rfc3339_text(secs as int, nanos as int),
{
    DateTime::<Utc>::from_timestamp(secs, nanos).unwrap().to_rfc3339()
}

impl Timestamp {
    /// The instant in RFC 3339.
    pub open spec fn text(&self) -> Seq<char> {
        rfc3339_text(self.secs as int, self.nanos as int)
    }
}

/// Writes an instant in RFC 3339.
pub fn rfc3339(t: Timestamp) -> (r: String)
    requires
        t.wf(),
    ensures
        r@ == t.text(),
{
    format_instant(t.secs, t.nanos)
}

} // verus!
