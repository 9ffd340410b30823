//! Naive civil timestamps (no time zone), modelled as plain calendar fields,
//! with the calendar arithmetic the recurrence engine needs: day counting,
//! day stepping, month/year shifting with month-end clamping, and weekdays.

use vstd::arithmetic::div_mod::{
    lemma_div_is_ordered, lemma_fundamental_div_mod, lemma_fundamental_div_mod_converse,
    lemma_mod_bound,
};
use vstd::prelude::*;

verus! {

/// A day of the week.
#[derive(Clone, Copy, Debug, PartialEq, Eq, Structural)]
pub enum Weekday {
    Monday,
    Tuesday,
    Wednesday,
    Thursday,
    Friday,
    Saturday,
    Sunday,
}

/// The weekday of the date with the given day index. Day index 0
/// (year 0, January 1) falls on a Saturday.
pub open spec fn spec_weekday_of_index(idx: int) -> Weekday {
    let r = idx % 7;
    if r == 0 {
        Weekday::Saturday
    } else if r == 1 {
        Weekday::Sunday
    } else if r == 2 {
        Weekday::Monday
    } else if r == 3 {
        Weekday::Tuesday
    } else if r == 4 {
        Weekday::Wednesday
    } else if r == 5 {
        Weekday::Thursday
    } else {
        Weekday::Friday
    }
}

/// True for years with 366 days in the proleptic Gregorian calendar.
pub open spec fn spec_is_leap_year(y: int) -> bool {
    (y % 4 == 0 && y % 100 != 0) || y % 400 == 0
}

/// Number of days in year `y`.
pub open spec fn spec_days_in_year(y: int) -> int {
    if spec_is_leap_year(y) {
        366
    } else {
        365
    }
}

/// Number of days in month `m` (1-based) of year `y`.
pub open spec fn spec_days_in_month(y: int, m: int) -> int {
    if m == 2 {
        if spec_is_leap_year(y) {
            29
        } else {
            28
        }
    } else if m == 4 || m == 6 || m == 9 || m == 11 {
        30
    } else {
        31
    }
}

/// Number of days in all years of `[0, y)`.
pub open spec fn days_before_year(y: int) -> int
    decreases y,
{
    if y <= 0 {
        0
    } else {
        days_before_year(y - 1) + spec_days_in_year(y - 1)
    }
}

/// Number of days in months `[1, m)` of year `y`.
pub open spec fn days_before_month(y: int, m: int) -> int
    decreases m,
{
    if m <= 1 {
        0
    } else {
        days_before_month(y, m - 1) + spec_days_in_month(y, m - 1)
    }
}

/// A timestamp: a date of the proleptic Gregorian calendar in years 0..=9999,
/// plus a time of day with second precision.
#[derive(Clone, Copy, Debug, PartialEq, Eq, Structural)]
pub struct DateTime {
    pub year: i32,
    pub month: u8,
    pub day: u8,
    pub hour: u8,
    pub minute: u8,
    pub second: u8,
}

impl DateTime {
    /// The fields describe a real calendar date and time of day.
    pub open spec fn valid(self) -> bool {
        &&& 0 <= self.year <= 9999
        &&& 1 <= self.month <= 12
        &&& 1 <= self.day <= spec_days_in_month(self.year as int, self.month as int)
        &&& self.hour <= 23
        &&& self.minute <= 59
        &&& self.second <= 59
    }

    /// Days between year 0, January 1 and this date.
    pub open spec fn day_index(self) -> int {
        days_before_year(self.year as int) + days_before_month(
            self.year as int,
            self.month as int,
        ) + self.day - 1
    }

    /// Seconds since midnight.
    pub open spec fn secs_of_day(self) -> int {
        self.hour * 3600 + self.minute * 60 + self.second
    }

    /// Seconds between year 0, January 1, midnight and this timestamp.
    /// Valid timestamps compare equal, earlier or later exactly as their
    /// keys do.
    pub open spec fn time_key(self) -> int {
        self.day_index() * 86400 + self.secs_of_day()
    }
}

/// `days_before_year` grows with the year.
pub proof fn lemma_days_before_year_mono(a: int, b: int)
    requires
        a <= b,
    ensures
        days_before_year(a) <= days_before_year(b),
    decreases b - a,
{
    if a < b {
        lemma_days_before_year_mono(a, b - 1);
    }
}

/// Bounds on `days_before_year` for non-negative years.
pub proof fn lemma_days_before_year_bounds(y: int)
    requires
        0 <= y,
    ensures
        365 * y <= days_before_year(y) <= 366 * y,
    decreases y,
{
    if y > 0 {
        lemma_days_before_year_bounds(y - 1);
    }
}

/// `days_before_month` grows with the month.
pub proof fn lemma_days_before_month_mono(y: int, a: int, b: int)
    requires
        a <= b,
    ensures
        days_before_month(y, a) <= days_before_month(y, b),
    decreases b - a,
{
    if a < b {
        lemma_days_before_month_mono(y, a, b - 1);
    }
}

/// Bounds on `days_before_month`.
pub proof fn lemma_days_before_month_bounds(y: int, m: int)
    requires
        1 <= m <= 13,
    ensures
        0 <= days_before_month(y, m) <= 31 * (m - 1),
    decreases m,
{
    if m > 1 {
        lemma_days_before_month_bounds(y, m - 1);
    }
}

/// The months of a year cover exactly its days.
pub proof fn lemma_months_cover_year(y: int)
    ensures
        days_before_month(y, 13) == spec_days_in_year(y),
{
    reveal_with_fuel(days_before_month, 13);
}

/// A valid date lies within the day range of its own year.
pub proof fn lemma_day_index_in_year(dt: DateTime)
    requires
        dt.valid(),
    ensures
        days_before_year(dt.year as int) <= dt.day_index(),
        dt.day_index() < days_before_year(dt.year as int + 1),
{
    lemma_days_before_month_bounds(dt.year as int, dt.month as int);
    lemma_days_before_month_mono(dt.year as int, dt.month as int + 1, 13);
    lemma_months_cover_year(dt.year as int);
    assert(days_before_month(dt.year as int, dt.month as int + 1) == days_before_month(
        dt.year as int,
        dt.month as int,
    ) + spec_days_in_month(dt.year as int, dt.month as int));
}

/// The day index of every valid date is non-negative and below the count of
/// days in years 0..=9999.
pub proof fn lemma_day_index_in_range(dt: DateTime)
    requires
        dt.valid(),
    ensures
        0 <= dt.day_index(),
        dt.day_index() < days_before_year(10000),
{
    lemma_day_index_in_year(dt);
    lemma_days_before_year_bounds(dt.year as int);
    lemma_days_before_year_mono(dt.year as int + 1, 10000);
}

/// Leap-year test.
pub fn is_leap_year(y: i32) -> (r: bool)
    requires
        y >= 0,
    ensures
        r == spec_is_leap_year(y as int),
{
    (y % 4 == 0 && y % 100 != 0) || y % 400 == 0
}

/// Number of days in year `y`.
pub fn days_in_year(y: i32) -> (r: u16)
    requires
        y >= 0,
    ensures
        r == spec_days_in_year(y as int),
{
    if is_leap_year(y) {
        366
    } else {
        365
    }
}

/// Number of days in month `m` of year `y`.
pub fn days_in_month(y: i32, m: u8) -> (r: u8)
    requires
        y >= 0,
        1 <= m <= 12,
    ensures
        r == spec_days_in_month(y as int, m as int),
{
    if m == 2 {
        if is_leap_year(y) {
            29
        } else {
            28
        }
    } else if m == 4 || m == 6 || m == 9 || m == 11 {
        30
    } else {
        31
    }
}

impl DateTime {
    /// Number of days between year 0, January 1 and this date, as a machine
    /// integer.
    pub fn to_day_index(&self) -> (r: i64)
        requires
            self.valid(),
        ensures
            r == self.day_index(),
    {
        let mut acc: i64 = 0;
        let mut y: i32 = 0;
        while y < self.year
            invariant
                0 <= y <= self.year,
                self.valid(),
                acc == days_before_year(y as int),
            decreases self.year - y,
        {
            proof {
                lemma_days_before_year_bounds(y as int);
            }
            acc = acc + days_in_year(y) as i64;
            y = y + 1;
        }
        proof {
            lemma_days_before_year_bounds(self.year as int);
        }
        let mut m: u8 = 1;
        while m < self.month
            invariant
                1 <= m <= self.month,
                self.valid(),
                y == self.year,
                acc == days_before_year(self.year as int) + days_before_month(
                    self.year as int,
                    m as int,
                ),
                days_before_year(self.year as int) <= 366 * 10000,
            decreases self.month - m,
        {
            proof {
                lemma_days_before_month_bounds(self.year as int, m as int);
            }
            acc = acc + days_in_month(self.year, m) as i64;
            m = m + 1;
        }
        proof {
            lemma_days_before_month_bounds(self.year as int, self.month as int);
        }
        acc + (self.day - 1) as i64
    }

    /// Number of seconds between year 0, January 1, midnight and this
    /// timestamp, as a machine integer.
    pub fn to_time_key(&self) -> (r: i64)
        requires
            self.valid(),
        ensures
            r == self.time_key(),
    {
        let idx = self.to_day_index();
        proof {
            lemma_day_index_in_range(*self);
            lemma_days_before_year_bounds(10000);
        }
        idx * 86400 + (self.hour as i64 * 3600 + self.minute as i64 * 60 + self.second as i64)
    }

    /// Is this timestamp at or before `other`?
    pub fn le(&self, other: &DateTime) -> (r: bool)
        requires
            self.valid(),
            other.valid(),
        ensures
            r == (self.time_key() <= other.time_key()),
    {
        self.to_time_key() <= other.to_time_key()
    }

    /// Is this timestamp strictly before `other`?
    pub fn lt(&self, other: &DateTime) -> (r: bool)
        requires
            self.valid(),
            other.valid(),
        ensures
            r == (self.time_key() < other.time_key()),
    {
        self.to_time_key() < other.to_time_key()
    }

    /// Steps this timestamp forward by `n` days, keeping the time of day.
    /// Returns `None` when the result would land past year 9999.
    pub fn checked_add_days(&self, n: i64) -> (r: Option<DateTime>)
        requires
            self.valid(),
            0 <= n <= 0x4000_0000_0000,
        ensures
            r is Some <==> self.day_index() + n < days_before_year(10000),
            r matches Some(dt) ==> {
                &&& dt.valid()
                &&& dt.day_index() == self.day_index() + n
                &&& dt.hour == self.hour
                &&& dt.minute == self.minute
                &&& dt.second == self.second
            },
    {
        proof {
            lemma_day_index_in_range(*self);
            lemma_days_before_year_bounds(10000);
        }
        let target: i64 = self.to_day_index() + n;
        try_date_from_day_index(target, self.hour, self.minute, self.second)
    }

    /// The weekday this timestamp falls on.
    pub fn weekday(&self) -> (r: Weekday)
        requires
            self.valid(),
        ensures
            r == spec_weekday_of_index(self.day_index()),
    {
        proof {
            lemma_day_index_in_range(*self);
        }
        let idx: i64 = self.to_day_index();
        let rem: i64 = idx % 7;
        if rem == 0 {
            Weekday::Saturday
        } else if rem == 1 {
            Weekday::Sunday
        } else if rem == 2 {
            Weekday::Monday
        } else if rem == 3 {
            Weekday::Tuesday
        } else if rem == 4 {
            Weekday::Wednesday
        } else if rem == 5 {
            Weekday::Thursday
        } else {
            Weekday::Friday
        }
    }

    /// Shifts this timestamp forward by `n` calendar months, clamping the
    /// day of month to the target month's last day when needed (so January
    /// 31 shifted one month lands on February 28 or 29). Returns `None`
    /// when the result would land past year 9999.
    pub fn checked_shift_months(&self, n: i64) -> (r: Option<DateTime>)
        requires
            self.valid(),
            0 <= n <= 0x4000_0000_0000,
        ensures
            r is Some <==> spec_shift_months(*self, n as int).year <= 9999,
            r matches Some(dt) ==> {
                &&& dt.valid()
                &&& dt.year == spec_shift_months(*self, n as int).year
                &&& dt.month == spec_shift_months(*self, n as int).month
                &&& dt.day == spec_shift_months(*self, n as int).day
                &&& dt.hour == self.hour
                &&& dt.minute == self.minute
                &&& dt.second == self.second
            },
    {
        let mi: i64 = self.year as i64 * 12 + (self.month as i64 - 1) + n;
        let miu: u64 = mi as u64;
        let yq: u64 = miu / 12;
        let mr: u64 = miu % 12;
        if yq > 9999 {
            return None;
        }
        let y: i32 = yq as i32;
        let m: u8 = mr as u8 + 1;
        let dim: u8 = days_in_month(y, m);
        let d: u8 = if self.day <= dim {
            self.day
        } else {
            dim
        };
        Some(DateTime { year: y, month: m, day: d, hour: self.hour, minute: self.minute, second: self.second })
    }

    /// Steps this timestamp forward by `n` days, keeping the time of day,
    /// when the caller can show the result stays within year 9999.
    pub fn add_days(&self, n: i64) -> (r: DateTime)
        requires
            self.valid(),
            0 <= n <= 0x4000_0000_0000,
            self.day_index() + n < days_before_year(10000),
        ensures
            r.valid(),
            r.day_index() == self.day_index() + n,
            r.hour == self.hour,
            r.minute == self.minute,
            r.second == self.second,
    {
        match self.checked_add_days(n) {
            Some(d) => d,
            None => {
                // Unreachable: the precondition keeps the result in range.
                proof {
                    assert(false);
                }
                *self
            },
        }
    }

    /// Shifts this timestamp forward by `n` calendar months, clamping the
    /// day of month, when the caller can show the result stays within year
    /// 9999.
    pub fn shift_months(&self, n: i64) -> (r: DateTime)
        requires
            self.valid(),
            0 <= n <= 0x4000_0000_0000,
            spec_shift_months(*self, n as int).year <= 9999,
        ensures
            r.valid(),
            r.civil() == shift_civil(self.civil(), n as int),
            r.hour == self.hour,
            r.minute == self.minute,
            r.second == self.second,
    {
        match self.checked_shift_months(n) {
            Some(d) => d,
            None => {
                // Unreachable: the precondition keeps the result in range.
                proof {
                    assert(false);
                }
                *self
            },
        }
    }

    /// Builds a timestamp, rejecting field combinations that name no real
    /// calendar date or time of day.
    pub fn new(year: i32, month: u8, day: u8, hour: u8, minute: u8, second: u8) -> (r: Option<
        DateTime,
    >)
        ensures
            r is Some <==> (DateTime { year, month, day, hour, minute, second }).valid(),
            r matches Some(dt) ==> dt == (DateTime { year, month, day, hour, minute, second }),
    {
        if 0 <= year && year <= 9999 && 1 <= month && month <= 12 && 1 <= day && day
            <= days_in_month(year, month) && hour <= 23 && minute <= 59 && second <= 59 {
            Some(DateTime { year, month, day, hour, minute, second })
        } else {
            None
        }
    }
}

/// The calendar fields reached by a month shift, as unbounded integers.
pub struct ShiftedDate {
    pub year: int,
    pub month: int,
    pub day: int,
}

/// The calendar fields reached by shifting `dt` forward by `n` months:
/// month-index arithmetic, with the day of month clamped to the target
/// month's length.
pub open spec fn spec_shift_months(dt: DateTime, n: int) -> ShiftedDate {
    shift_civil(dt.civil(), n)
}

/// Earlier calendar fields mean a smaller day index.
pub proof fn lemma_day_index_strict(a: DateTime, b: DateTime)
    requires
        a.valid(),
        b.valid(),
        (a.year < b.year) || (a.year == b.year && a.month < b.month) || (a.year == b.year
            && a.month == b.month && a.day < b.day),
    ensures
        a.day_index() < b.day_index(),
{
    if a.year < b.year {
        lemma_day_index_in_year(a);
        lemma_day_index_in_year(b);
        lemma_days_before_year_mono(a.year as int + 1, b.year as int);
    } else if a.month < b.month {
        let y = a.year as int;
        assert(days_before_month(y, a.month as int + 1) == days_before_month(y, a.month as int)
            + spec_days_in_month(y, a.month as int));
        lemma_days_before_month_mono(y, a.month as int + 1, b.month as int);
    }
}

/// Valid timestamps with the same key agree on every field.
pub proof fn lemma_time_key_injective(a: DateTime, b: DateTime)
    requires
        a.valid(),
        b.valid(),
        a.time_key() == b.time_key(),
    ensures
        a == b,
{
    assert(0 <= a.secs_of_day() < 86400);
    assert(0 <= b.secs_of_day() < 86400);
    assert(a.day_index() == b.day_index());
    if a.year != b.year || a.month != b.month || a.day != b.day {
        if (a.year < b.year) || (a.year == b.year && a.month < b.month) || (a.year == b.year
            && a.month == b.month && a.day < b.day) {
            lemma_day_index_strict(a, b);
        } else {
            lemma_day_index_strict(b, a);
        }
    }
}

/// Shifting by at least one month moves every valid timestamp strictly
/// later, whatever the day clamping does.
pub proof fn lemma_shift_months_increases(a: DateTime, b: DateTime, n: int)
    requires
        a.valid(),
        b.valid(),
        n >= 1,
        b.year == spec_shift_months(a, n).year,
        b.month == spec_shift_months(a, n).month,
        b.hour == a.hour,
        b.minute == a.minute,
        b.second == a.second,
    ensures
        a.time_key() < b.time_key(),
{
    let mia = a.year * 12 + a.month - 1;
    let mib = mia + n;
    lemma_fundamental_div_mod_converse(mia, 12, a.year as int, a.month - 1);
    lemma_div_is_ordered(mia, mib, 12);
    if a.year == b.year {
        // Same quotient, so the remainders differ by n.
        assert(mia == a.year * 12 + (a.month - 1)) by {}
        assert(mib == b.year * 12 + (b.month - 1)) by {
            lemma_fundamental_div_mod_converse(mib, 12, mib / 12, mib % 12);
        }
    }
    lemma_day_index_strict(a, b);
}

/// Day index of raw calendar fields: days between year 0, January 1 and
/// the date `(y, m, d)`.
pub open spec fn index_of_civil(y: int, m: int, d: int) -> int {
    days_before_year(y) + days_before_month(y, m) + d - 1
}

/// The key a timestamp with calendar fields `c` and `secs` seconds past
/// midnight would have, whether or not `c.year` fits a `DateTime`.
pub open spec fn civil_key(c: ShiftedDate, secs: int) -> int {
    index_of_civil(c.year, c.month, c.day) * 86400 + secs
}

/// Month and day name a real day of a month, in a non-negative year that
/// may lie past 9999.
pub open spec fn civil_ok(c: ShiftedDate) -> bool {
    &&& 0 <= c.year
    &&& 1 <= c.month <= 12
    &&& 1 <= c.day <= spec_days_in_month(c.year, c.month)
}

/// Months elapsed between year 0, January and the month of `c`.
pub open spec fn month_index(c: ShiftedDate) -> int {
    c.year * 12 + c.month - 1
}

/// Month shift on raw calendar fields: month-index arithmetic with the day
/// clamped to the target month's length.
pub open spec fn shift_civil(c: ShiftedDate, n: int) -> ShiftedDate {
    let mi = c.year * 12 + c.month - 1 + n;
    let y = mi / 12;
    let m = mi % 12 + 1;
    let d = if c.day <= spec_days_in_month(y, m) {
        c.day
    } else {
        spec_days_in_month(y, m)
    };
    ShiftedDate { year: y, month: m, day: d }
}

/// `k` repeated month shifts of `n` months each, from `c`.
pub open spec fn iter_shift_civil(c: ShiftedDate, n: int, k: int) -> ShiftedDate
    decreases k,
{
    if k <= 0 {
        c
    } else {
        shift_civil(iter_shift_civil(c, n, k - 1), n)
    }
}

impl DateTime {
    /// This timestamp's calendar fields as raw integers.
    pub open spec fn civil(self) -> ShiftedDate {
        ShiftedDate { year: self.year as int, month: self.month as int, day: self.day as int }
    }
}

/// A forward month shift keeps the fields well-formed, advances the month
/// index by exactly the shift, and never moves the year back.
pub proof fn lemma_shift_civil_props(c: ShiftedDate, n: int)
    requires
        civil_ok(c),
        0 <= n,
    ensures
        civil_ok(shift_civil(c, n)),
        month_index(shift_civil(c, n)) == month_index(c) + n,
        c.year <= shift_civil(c, n).year,
    {
    let mi = c.year * 12 + c.month - 1 + n;
    lemma_fundamental_div_mod(mi, 12);
    lemma_mod_bound(mi, 12);
}

/// Repeated forward month shifts keep the fields well-formed and advance
/// the month index by exactly `k * n`.
pub proof fn lemma_iter_shift_civil_props(c: ShiftedDate, n: int, k: int)
    requires
        civil_ok(c),
        0 <= n,
        0 <= k,
    ensures
        civil_ok(iter_shift_civil(c, n, k)),
        month_index(iter_shift_civil(c, n, k)) == month_index(c) + k * n,
        c.year <= iter_shift_civil(c, n, k).year,
    decreases k,
{
    if k <= 0 {
        assert(iter_shift_civil(c, n, k) == c);
        assert(k * n == 0) by (nonlinear_arith)
            requires k == 0,
        ;
    } else {
        lemma_iter_shift_civil_props(c, n, k - 1);
        lemma_shift_civil_props(iter_shift_civil(c, n, k - 1), n);
        assert(iter_shift_civil(c, n, k) == shift_civil(iter_shift_civil(c, n, k - 1), n));
        assert((k - 1) * n + n == k * n) by (nonlinear_arith);
    }
}

/// An earlier or equal key never means a later calendar month.
pub proof fn lemma_key_le_month_index_le(a: DateTime, b: DateTime)
    requires
        a.valid(),
        b.valid(),
        a.time_key() <= b.time_key(),
    ensures
        month_index(a.civil()) <= month_index(b.civil()),
{
    if month_index(a.civil()) > month_index(b.civil()) {
        // Then a's calendar month lies after b's, so a's day index is
        // strictly larger, contradicting the key order.
        lemma_day_index_strict(b, a);
    }
}

/// Under repeated forward shifts the year never moves back.
pub proof fn lemma_iter_shift_year_mono(c: ShiftedDate, n: int, k1: int, k2: int)
    requires
        civil_ok(c),
        0 <= n,
        0 <= k1 <= k2,
    ensures
        iter_shift_civil(c, n, k1).year <= iter_shift_civil(c, n, k2).year,
{
    let a = iter_shift_civil(c, n, k1);
    let b = iter_shift_civil(c, n, k2);
    lemma_iter_shift_civil_props(c, n, k1);
    lemma_iter_shift_civil_props(c, n, k2);
    vstd::arithmetic::mul::lemma_mul_inequality(k1, k2, n);
    lemma_fundamental_div_mod_converse(month_index(a), 12, a.year, a.month - 1);
    lemma_fundamental_div_mod_converse(month_index(b), 12, b.year, b.month - 1);
    lemma_div_is_ordered(month_index(a), month_index(b), 12);
}

/// Well-formed calendar fields have a day index no earlier than their
/// year's first day.
pub proof fn lemma_civil_index_at_least_year(c: ShiftedDate)
    requires
        civil_ok(c),
    ensures
        index_of_civil(c.year, c.month, c.day) >= days_before_year(c.year),
{
    lemma_days_before_month_bounds(c.year, c.month);
}

/// Builds the unique date with the given day index (days since year 0,
/// January 1), carrying the given time of day. Returns `None` exactly when
/// the index lies past year 9999.
pub fn try_date_from_day_index(idx: i64, hour: u8, minute: u8, second: u8) -> (r: Option<DateTime>)
    requires
        0 <= idx,
        hour <= 23,
        minute <= 59,
        second <= 59,
    ensures
        r is Some <==> idx < days_before_year(10000),
        r matches Some(dt) ==> {
            &&& dt.valid()
            &&& dt.day_index() == idx
            &&& dt.hour == hour
            &&& dt.minute == minute
            &&& dt.second == second
        },
{
    let mut y: i32 = 0;
    let mut rem: i64 = idx;
    while y < 9999 && rem >= days_in_year(y) as i64
        invariant
            0 <= y <= 9999,
            rem == idx - days_before_year(y as int),
            0 <= rem,
        decreases rem,
    {
        rem = rem - days_in_year(y) as i64;
        y = y + 1;
    }
    if rem >= days_in_year(y) as i64 {
        // Only reachable with y == 9999: the index lies past year 9999.
        proof {
            assert(days_before_year(10000) == days_before_year(9999) + spec_days_in_year(9999));
        }
        return None;
    }
    proof {
        // idx < days_before_year(y + 1) <= days_before_year(10000)
        assert(days_before_year(y as int + 1) == days_before_year(y as int) + spec_days_in_year(
            y as int,
        ));
        lemma_days_before_year_mono(y as int + 1, 10000);
    }
    let mut m: u8 = 1;
    while rem >= days_in_month(y, m) as i64
        invariant
            1 <= m <= 12,
            0 <= y <= 9999,
            rem == idx - days_before_year(y as int) - days_before_month(y as int, m as int),
            0 <= rem,
            idx - days_before_year(y as int) < spec_days_in_year(y as int),
        decreases rem,
    {
        proof {
            if m == 12 {
                lemma_months_cover_year(y as int);
                assert(days_before_month(y as int, 13) == days_before_month(y as int, 12)
                    + spec_days_in_month(y as int, 12));
            }
        }
        rem = rem - days_in_month(y, m) as i64;
        m = m + 1;
    }
    let day: u8 = (rem as u8) + 1;
    Some(DateTime { year: y, month: m, day, hour, minute, second })
}

} // verus!
