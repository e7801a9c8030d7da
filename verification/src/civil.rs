//! Civil time: dates, weekdays and the clock of Europe/Berlin.
//!
//! Everything else in the crate works in UTC unix seconds. This module is the only
//! place that knows about the calendar and the summer-time rule.
use vstd::prelude::*;

verus! {

pub const SECS_PER_DAY: i64 = 86_400;

/// The first instant that every date around it can be computed for in 32-bit years: the arithmetic
/// steps back by an era of 400 years, and a wall clock by less than a day.
pub const EARLIEST: i64 = -67_768_087_913_568_000;

/// The last instant whose local year fits into 32 bits.
pub const LATEST: i64 = 67_767_976_233_529_199;

/// Monday = 0 … Sunday = 6.
pub type Weekday = u8;

pub const MON: Weekday = 0;

pub const SAT: Weekday = 5;

pub const SUN: Weekday = 6;

/// A local wall-clock instant, already converted out of UTC.
#[derive(Debug, Clone, Copy, PartialEq, Eq, Structural)]
pub struct LocalDateTime {
    pub year: i32,
    pub month: u32,
    pub day: u32,
    pub hour: u32,
    pub minute: u32,
    pub second: u32,
    pub weekday: Weekday,
}

/// Whether `y` is a leap year of the Gregorian calendar.
pub open spec fn leap(y: int) -> bool {
    (y % 4 == 0 && y % 100 != 0) || y % 400 == 0
}

/// How many days month `m` of year `y` has.
pub open spec fn month_len(y: int, m: int) -> int {
    if m == 2 {
        if leap(y) {
            29
        } else {
            28
        }
    } else if m == 4 || m == 6 || m == 9 || m == 11 {
        30
    } else {
        31
    }
}

/// Whether year, month and day name a day of the calendar.
pub open spec fn valid_date(y: int, m: int, d: int) -> bool {
    1 <= m <= 12 && 1 <= d <= month_len(y, m)
}

/// Days before the year that begins on 1 March of year `y`, counted from 1 March of year 0.
pub open spec fn days_before_march(y: int) -> int {
    365 * y + y / 4 - y / 100 + y / 400
}

/// Days between 1 March and the first day of the `mp`-th month after March.
pub open spec fn days_before_month(mp: int) -> int {
    (153 * mp + 2) / 5
}

/// Days from 1970-01-01 to the given date. The laws [`epoch_is_day_zero`],
/// [`days_count_up`], [`months_follow_each_other`] and [`years_follow_each_other`] say
/// that this is the day count of the proleptic Gregorian calendar.
pub open spec fn day_number(y: int, m: int, d: int) -> int {
    let march_year = if m <= 2 { y - 1 } else { y };
    let mp = if m <= 2 { m + 9 } else { m - 3 };
    days_before_march(march_year) + days_before_month(mp) + d - 1 - 719_468
}

/// The date whose day number is `z`.
pub open spec fn date_of(z: int) -> (int, int, int) {
    choose|date: (int, int, int)|
        valid_date(date.0, date.1, date.2) && #[trigger] day_number(date.0, date.1, date.2) == z
}

/// Monday-based weekday of a day number: day 0 was a Thursday.
pub open spec fn weekday_of(days: int) -> int {
    (days + 3) % 7
}

/// Day of the month of the last Sunday in a month.
pub open spec fn last_sunday_of(y: int, m: int) -> int {
    let last = month_len(y, m);
    last - (weekday_of(day_number(y, m, last)) + 1) % 7
}

/// 01:00 UTC on the last Sunday of month `m`, when the clocks change.
#[verifier::opaque]
pub open spec fn clock_change(y: int, m: int) -> int {
    day_number(y, m, last_sunday_of(y, m)) * 86_400 + 3_600
}

/// The UTC year of an instant, as the 32-bit number that a date carries.
pub open spec fn utc_year(utc: int) -> int {
    (date_of(utc / 86_400).0 as i32) as int
}

/// Seconds to add to UTC for Berlin wall-clock time.
pub open spec fn offset_of(utc: int) -> int {
    if clock_change(utc_year(utc), 3) <= utc < clock_change(utc_year(utc), 10) {
        7_200
    } else {
        3_600
    }
}

/// Whether the calendar can place `utc`: its year stays clear of the lower end of `i32`
/// and local time does not run past the end of `i64`.
pub open spec fn on_calendar(utc: int) -> bool {
    utc_year(utc) >= i32::MIN + 400 && utc + 7_200 <= i64::MAX
}

/// Berlin wall-clock time of an instant.
pub open spec fn local_of(utc: int) -> LocalDateTime {
    let secs = utc + offset_of(utc);
    let (y, m, d) = date_of(secs / 86_400);
    LocalDateTime {
        year: y as i32,
        month: m as u32,
        day: d as u32,
        hour: (secs % 86_400 / 3_600) as u32,
        minute: (secs % 3_600 / 60) as u32,
        second: (secs % 60) as u32,
        weekday: weekday_of(secs / 86_400) as u8,
    }
}

impl LocalDateTime {
    /// Minutes since local midnight, the unit in which windows are expressed.
    pub open spec fn minutes(self) -> int {
        self.hour * 60 + self.minute
    }

    /// Minutes since local midnight.
    pub fn minute_of_day(&self) -> (r: u32)
        requires
            self.minutes() <= u32::MAX,
        ensures
            r == self.minutes(),
    {
        self.hour * 60 + self.minute
    }
}

/// A quotient goes up by one exactly at the multiples of the divisor.
proof fn lemma_next_quotient(y: int, d: int)
    requires
        d > 1,
    ensures
        (y + 1) / d == y / d + if (y + 1) % d == 0 {
            1int
        } else {
            0
        },
{
    let (q, r) = (y / d, y % d);
    vstd::arithmetic::div_mod::lemma_fundamental_div_mod(y, d);
    if r + 1 == d {
        assert(y + 1 == (q + 1) * d + 0) by (nonlinear_arith)
            requires
                y == d * q + r,
                r + 1 == d,
        ;
        vstd::arithmetic::div_mod::lemma_fundamental_div_mod_converse(y + 1, d, q + 1, 0);
    } else {
        assert(y + 1 == q * d + (r + 1)) by (nonlinear_arith)
            requires
                y == d * q + r,
        ;
        vstd::arithmetic::div_mod::lemma_fundamental_div_mod_converse(y + 1, d, q, r + 1);
    }
}

/// A multiple of a multiple is a multiple.
proof fn lemma_multiple(n: int, d: int, k: int)
    requires
        d > 0,
        k > 0,
        n % (d * k) == 0,
    ensures
        n % d == 0,
{
    let q = n / (d * k);
    assert(d * k > 0) by (nonlinear_arith)
        requires
            d > 0,
            k > 0,
    ;
    vstd::arithmetic::div_mod::lemma_fundamental_div_mod(n, d * k);
    assert(n == (k * q) * d + 0) by (nonlinear_arith)
        requires
            n == (d * k) * q,
    ;
    vstd::arithmetic::div_mod::lemma_fundamental_div_mod_converse(n, d, k * q, 0);
}

proof fn lemma_days_before_march_step(y: int)
    ensures
        days_before_march(y + 1) == days_before_march(y) + if leap(y + 1) {
            366int
        } else {
            365
        },
{
    lemma_next_quotient(y, 4);
    lemma_next_quotient(y, 100);
    lemma_next_quotient(y, 400);
    if (y + 1) % 100 == 0 {
        lemma_multiple(y + 1, 4, 25);
    }
    if (y + 1) % 400 == 0 {
        lemma_multiple(y + 1, 100, 4);
    }
}

proof fn lemma_days_before_march_grows(a: int, b: int)
    requires
        a <= b,
    ensures
        days_before_march(a) + 365 * (b - a) <= days_before_march(b),
    decreases b - a,
{
    if a < b {
        lemma_days_before_march_grows(a, b - 1);
        lemma_days_before_march_step(b - 1);
    }
}

/// Position of a date in its March-based year.
proof fn lemma_date_in_march_year(y: int, m: int, d: int)
    requires
        valid_date(y, m, d),
    ensures
        ({
            let my = if m <= 2 { y - 1 } else { y };
            let mp = if m <= 2 { m + 9 } else { m - 3 };
            let doy = days_before_month(mp) + d - 1;
            &&& 0 <= mp < 12
            &&& 0 <= doy < days_before_march(my + 1) - days_before_march(my)
            &&& days_before_month(mp) <= doy < days_before_month(mp + 1) || mp == 11
            &&& days_before_month(mp) <= doy
        }),
{
    let my = if m <= 2 { y - 1 } else { y };
    lemma_days_before_march_step(my);
    let mp = if m <= 2 { m + 9 } else { m - 3 };
    assert(mp == 0 || mp == 1 || mp == 2 || mp == 3 || mp == 4 || mp == 5 || mp == 6 || mp == 7
        || mp == 8 || mp == 9 || mp == 10 || mp == 11);
}

proof fn lemma_day_number_injective(y: int, m: int, d: int, y2: int, m2: int, d2: int)
    requires
        valid_date(y, m, d),
        valid_date(y2, m2, d2),
        day_number(y, m, d) == day_number(y2, m2, d2),
    ensures
        (y, m, d) == (y2, m2, d2),
{
    let my = if m <= 2 { y - 1 } else { y };
    let my2 = if m2 <= 2 { y2 - 1 } else { y2 };
    lemma_date_in_march_year(y, m, d);
    lemma_date_in_march_year(y2, m2, d2);
    if my < my2 {
        lemma_days_before_march_grows(my + 1, my2);
    }
    if my2 < my {
        lemma_days_before_march_grows(my2 + 1, my);
    }
    assert(my == my2);
    let mp = if m <= 2 { m + 9 } else { m - 3 };
    let mp2 = if m2 <= 2 { m2 + 9 } else { m2 - 3 };
    assert(mp == mp2);
}

/// Day 0 is 1970-01-01, a Thursday.
pub proof fn epoch_is_day_zero()
    ensures
        day_number(1970, 1, 1) == 0,
        weekday_of(0) == 3,
{
}

/// The day after is one day later.
pub proof fn days_count_up(y: int, m: int, d: int)
    ensures
        day_number(y, m, d + 1) == day_number(y, m, d) + 1,
{
}

/// The first of a month comes right after the last day of the month before.
pub proof fn months_follow_each_other(y: int, m: int)
    requires
        1 <= m < 12,
    ensures
        day_number(y, m + 1, 1) == day_number(y, m, month_len(y, m)) + 1,
{
    lemma_days_before_march_step(y - 1);
    assert(m == 1 || m == 2 || m == 3 || m == 4 || m == 5 || m == 6 || m == 7 || m == 8 || m == 9
        || m == 10 || m == 11);
}

/// New Year's Day comes right after 31 December.
pub proof fn years_follow_each_other(y: int)
    ensures
        day_number(y + 1, 1, 1) == day_number(y, 12, 31) + 1,
{
}

/// A date survives the way through its day number.
pub proof fn date_round_trip(y: int, m: int, d: int)
    requires
        valid_date(y, m, d),
    ensures
        date_of(day_number(y, m, d)) == (y, m, d),
{
    let date = (y, m, d);
    assert(valid_date(date.0, date.1, date.2) && day_number(date.0, date.1, date.2) == day_number(
        y,
        m,
        d,
    ));
    let found = date_of(day_number(y, m, d));
    lemma_day_number_injective(y, m, d, found.0, found.1, found.2);
}

/// Splits a day count since 1 March of year 0 into a March-based year and the day in it.
pub open spec fn march_year_of(n: int) -> int {
    let doe = n % 146_097;
    let century = if doe / 36_524 < 3 { doe / 36_524 } else { 3 };
    let doc = doe - 36_524 * century;
    let doq = doc % 1_461;
    let rest = if doq / 365 < 3 { doq / 365 } else { 3 };
    400 * (n / 146_097) + 100 * century + 4 * (doc / 1_461) + rest
}

proof fn lemma_march_year(n: int)
    ensures
        days_before_march(march_year_of(n)) <= n < days_before_march(march_year_of(n) + 1),
{
    let era = n / 146_097;
    let doe = n % 146_097;
    let century = if doe / 36_524 < 3 { doe / 36_524 } else { 3 };
    let doc = doe - 36_524 * century;
    let quad = doc / 1_461;
    let doq = doc % 1_461;
    let rest = if doq / 365 < 3 { doq / 365 } else { 3 };
    let y = march_year_of(n);
    assert(0 <= quad <= 24 && 0 <= rest <= 3 && 0 <= century <= 3);
    assert(y == 400 * era + 100 * century + 4 * quad + rest);
    assert(y / 4 == 100 * era + 25 * century + quad);
    assert(y / 100 == 4 * era + century);
    assert(y / 400 == era);
    lemma_days_before_march_step(y);
    assert(days_before_march(y) == 146_097 * era + 36_524 * century + 1_461 * quad + 365 * rest);
    if rest == 3 && doq >= 1_460 {
        assert((y + 1) % 4 == 0);
        if quad == 24 {
            assert(century == 3);
            assert((y + 1) == 400 * era + 400);
            assert((y + 1) % 400 == 0);
        } else {
            assert((y + 1) == 100 * (4 * era + century) + (4 * quad + 4));
            assert((y + 1) % 100 == 4 * quad + 4);
        }
    }
}

/// The date that a day number belongs to, by construction.
proof fn lemma_date_exists(z: int) -> (date: (int, int, int))
    ensures
        valid_date(date.0, date.1, date.2),
        day_number(date.0, date.1, date.2) == z,
        date.1 <= 2 ==> date.0 == march_year_of(z + 719_468) + 1,
        date.1 > 2 ==> date.0 == march_year_of(z + 719_468),
        ({
            let doy = z + 719_468 - days_before_march(march_year_of(z + 719_468));
            let mp = (5 * doy + 2) / 153;
            &&& date.1 == if mp < 10 { mp + 3 } else { mp - 9 }
            &&& date.2 == doy - days_before_month(mp) + 1
            &&& 0 <= doy <= 365
            &&& 0 <= mp <= 11
        }),
{
    let n = z + 719_468;
    lemma_march_year(n);
    let my = march_year_of(n);
    lemma_days_before_march_step(my);
    let doy = n - days_before_march(my);
    let mp = (5 * doy + 2) / 153;
    assert(mp == 0 || mp == 1 || mp == 2 || mp == 3 || mp == 4 || mp == 5 || mp == 6 || mp == 7
        || mp == 8 || mp == 9 || mp == 10 || mp == 11);
    let d = doy - days_before_month(mp) + 1;
    let m = if mp < 10 { mp + 3 } else { mp - 9 };
    let y = if m <= 2 { my + 1 } else { my };
    (y, m, d)
}

/// Every day number belongs to a date, and that date leads back to it.
pub proof fn day_round_trip(z: int)
    ensures
        valid_date(date_of(z).0, date_of(z).1, date_of(z).2),
        day_number(date_of(z).0, date_of(z).1, date_of(z).2) == z,
{
    let date = lemma_date_exists(z);
    assert(valid_date(date.0, date.1, date.2) && day_number(date.0, date.1, date.2) == z);
}

/// `a / b` rounded down, for a positive divisor.
pub(crate) fn floor_div(a: i64, b: i64) -> (q: i64)
    requires
        b > 0,
    ensures
        q == a as int / b as int,
{
    if a >= 0 {
        a / b
    } else {
        let up: i64 = -(a + 1);
        proof {
            let q = up as int / b as int;
            let r = up as int % b as int;
            vstd::arithmetic::div_mod::lemma_fundamental_div_mod(up as int, b as int);
            assert(a as int == b * (-q - 1) + (b - 1 - r)) by (nonlinear_arith)
                requires
                    up as int == b * q + r,
                    up as int == -(a + 1),
            ;
            vstd::arithmetic::div_mod::lemma_fundamental_div_mod_converse(
                a as int,
                b as int,
                -q - 1,
                b - 1 - r,
            );
            assert(0 <= q <= up) by (nonlinear_arith)
                requires
                    up as int == b * q + r,
                    0 <= r < b,
                    up >= 0,
            ;
        }
        -(up / b) - 1
    }
}

/// `a - b * (a / b)` with the quotient rounded down, for a positive divisor.
pub(crate) fn floor_mod(a: i64, b: i64) -> (r: i64)
    requires
        0 < b,
    ensures
        r == a as int % b as int,
        0 <= r < b,
{
    if a >= 0 {
        a % b
    } else {
        let up: i64 = -(a + 1);
        proof {
            let q = up as int / b as int;
            let r = up as int % b as int;
            vstd::arithmetic::div_mod::lemma_fundamental_div_mod(up as int, b as int);
            assert(a as int == b * (-q - 1) + (b - 1 - r)) by (nonlinear_arith)
                requires
                    up as int == b * q + r,
                    up as int == -(a + 1),
            ;
            vstd::arithmetic::div_mod::lemma_fundamental_div_mod_converse(
                a as int,
                b as int,
                -q - 1,
                b - 1 - r,
            );
        }
        b - 1 - up % b
    }
}

/// Days since the unix epoch for a proleptic-Gregorian date.
pub fn days_from_civil(y: i32, m: u32, d: u32) -> (r: i64)
    requires
        y >= i32::MIN + 400,
    ensures
        r == day_number(y as int, m as int, d as int),
{
    let my: i64 = if m <= 2 {
        y as i64 - 1
    } else {
        y as i64
    };
    let mp: i64 = if m > 2 {
        m as i64 - 3
    } else {
        m as i64 + 9
    };
    let doy: i64 = (153 * mp + 2) / 5 + d as i64 - 1;
    365 * my + floor_div(my, 4) - floor_div(my, 100) + floor_div(my, 400) + doy - 719_468
}

/// Inverse of [`days_from_civil`]. A year beyond `i32` wraps around.
pub fn civil_from_days(z: i64) -> (r: (i32, u32, u32))
    requires
        z + 719_468 <= i64::MAX,
    ensures
        r.0 == date_of(z as int).0 as i32,
        r.1 == date_of(z as int).1,
        r.2 == date_of(z as int).2,
        1 <= r.1 <= 12,
        1 <= r.2 <= 31,
{
    let n: i64 = z + 719_468;
    let era: i64 = floor_div(n, 146_097);
    let doe: i64 = floor_mod(n, 146_097);
    let century: i64 = if doe / 36_524 < 3 {
        doe / 36_524
    } else {
        3
    };
    let doc: i64 = doe - 36_524 * century;
    let quad: i64 = doc / 1_461;
    let doq: i64 = doc % 1_461;
    let rest: i64 = if doq / 365 < 3 {
        doq / 365
    } else {
        3
    };
    let my: i64 = 400 * era + 100 * century + 4 * quad + rest;
    let doy: i64 = doq - 365 * rest;
    let mp: i64 = (5 * doy + 2) / 153;
    let d: u32 = (doy - (153 * mp + 2) / 5 + 1) as u32;
    let m: u32 = if mp < 10 {
        (mp + 3) as u32
    } else {
        (mp - 9) as u32
    };
    let y: i64 = if m <= 2 {
        my + 1
    } else {
        my
    };
    proof {
        assert(my == march_year_of(n as int));
        let date = lemma_date_exists(z as int);
        lemma_march_year(n as int);
        assert(my as int / 4 == 100 * era + 25 * century + quad);
        assert(my as int / 100 == 4 * era + century);
        assert(my as int / 400 == era);
        assert(days_before_march(my as int) == 146_097 * era + 36_524 * century + 1_461 * quad + 365
            * rest);
        date_round_trip(date.0, date.1, date.2);
    }
    (y as i32, m, d)
}

/// Monday-based weekday for a day number. 1970-01-01 was a Thursday.
pub fn weekday_from_days(days: i64) -> (r: Weekday)
    requires
        days + 3 <= i64::MAX,
    ensures
        r == weekday_of(days as int),
        r < 7,
{
    floor_mod(days + 3, 7) as u8
}

/// How many days a month has.
pub fn days_in_month(y: i32, m: u32) -> (r: u32)
    requires
        1 <= m <= 12,
    ensures
        r == month_len(y as int, m as int),
{
    if m == 2 {
        let quads: i64 = floor_mod(y as i64, 4);
        let centuries: i64 = floor_mod(y as i64, 100);
        let eras: i64 = floor_mod(y as i64, 400);
        if (quads == 0 && centuries != 0) || eras == 0 {
            29
        } else {
            28
        }
    } else if m == 4 || m == 6 || m == 9 || m == 11 {
        30
    } else {
        31
    }
}

/// Going back as many days as a week has gone by since Sunday leads to a Sunday.
proof fn lemma_back_to_sunday(n: int)
    ensures
        weekday_of(n - (weekday_of(n) + 1) % 7) == 6,
{
    let (q, r) = ((n + 3) / 7, (n + 3) % 7);
    let z = n - (r + 1) % 7 + 3;
    if r == 6 {
        assert(z == n + 3);
    } else {
        vstd::arithmetic::div_mod::lemma_fundamental_div_mod_converse(z, 7, q - 1, 6);
    }
}

/// The last Sunday of a month is a Sunday of that month, and no later one is.
#[verifier::rlimit(60)]
pub proof fn last_sunday_is_the_last(y: int, m: int)
    requires
        1 <= m <= 12,
    ensures
        valid_date(y, m, last_sunday_of(y, m)),
        weekday_of(day_number(y, m, last_sunday_of(y, m))) == 6,
        last_sunday_of(y, m) + 7 > month_len(y, m),
{
    let last = month_len(y, m);
    let n = day_number(y, m, last);
    let back = (weekday_of(n) + 1) % 7;
    lemma_back_to_sunday(n);
    assert(day_number(y, m, last - back) == n - back);
}

/// Day of the month of the last Sunday in the given month.
pub fn last_sunday(y: i32, m: u32) -> (r: u32)
    requires
        1 <= m <= 12,
        y >= i32::MIN + 400,
    ensures
        r == last_sunday_of(y as int, m as int),
        1 <= r <= 31,
{
    let last: u32 = days_in_month(y, m);
    let wd: Weekday = weekday_from_days(days_from_civil(y, m, last));
    last - (wd as u32 + 1) % 7
}

/// UTC offset for Europe/Berlin at `utc` in seconds: +1 h CET or +2 h CEST.
///
/// The EU rule switches at 01:00 UTC on the last Sunday of March and October, so it is
/// decided entirely in UTC.
pub fn utc_offset(utc: i64) -> (r: i64)
    requires
        utc_year(utc as int) >= i32::MIN + 400,
    ensures
        r == offset_of(utc as int),
        r == 3_600 || r == 7_200,
{
    reveal(clock_change);
    let (year, _m, _d) = civil_from_days(floor_div(utc, SECS_PER_DAY));
    let start: i64 = days_from_civil(year, 3, last_sunday(year, 3)) * SECS_PER_DAY + 3_600;
    let end: i64 = days_from_civil(year, 10, last_sunday(year, 10)) * SECS_PER_DAY + 3_600;
    if utc >= start && utc < end {
        7_200
    } else {
        3_600
    }
}

/// Convert a UTC unix timestamp to Europe/Berlin wall-clock time.
pub fn local(utc: i64) -> (r: LocalDateTime)
    requires
        on_calendar(utc as int),
    ensures
        r == local_of(utc as int),
        r.hour < 24,
        r.minute < 60,
        r.second < 60,
        r.weekday < 7,
{
    let secs: i64 = utc + utc_offset(utc);
    let days: i64 = floor_div(secs, SECS_PER_DAY);
    let tod: i64 = floor_mod(secs, SECS_PER_DAY);
    let (year, month, day) = civil_from_days(days);
    assert((secs as int % 86_400) % 3_600 == secs as int % 3_600);
    assert((secs as int % 86_400) % 60 == secs as int % 60);
    LocalDateTime {
        year,
        month,
        day,
        hour: (tod / 3_600) as u32,
        minute: (tod % 3_600 / 60) as u32,
        second: (tod % 60) as u32,
        weekday: weekday_from_days(days),
    }
}

/// Within a year the clocks change twice: the offset is one hour until the end of March,
/// two hours until the end of October, and one hour again after that.
#[verifier::rlimit(60)]
pub proof fn clocks_change_twice_a_year(utc: int)
    requires
        i32::MIN <= date_of(utc / 86_400).0 <= i32::MAX,
    ensures
        ({
            let y = date_of(utc / 86_400).0;
            &&& day_number(y, 1, 1) * 86_400 < clock_change(y, 3) < clock_change(y, 10)
                < day_number(y + 1, 1, 1) * 86_400
            &&& offset_of(utc) == 3_600 <==> utc < clock_change(y, 3) || utc >= clock_change(y, 10)
            &&& offset_of(utc) == 7_200 <==> clock_change(y, 3) <= utc < clock_change(y, 10)
        }),
{
    reveal(clock_change);
    let y = date_of(utc / 86_400).0;
    last_sunday_is_the_last(y, 3);
    last_sunday_is_the_last(y, 10);
    lemma_days_before_march_step(y - 1);
}

/// A date lies between the first day of its year and that of the next.
pub(crate) proof fn lemma_within_its_year(y: int, m: int, d: int)
    requires
        valid_date(y, m, d),
    ensures
        day_number(y, 1, 1) <= day_number(y, m, d) < day_number(y + 1, 1, 1),
{
    lemma_date_in_march_year(y, m, d);
    lemma_days_before_march_step(y - 1);
    assert(m == 1 || m == 2 || m == 3 || m == 4 || m == 5 || m == 6 || m == 7 || m == 8 || m == 9
        || m == 10 || m == 11 || m == 12);
}

proof fn lemma_years_count_up(a: int, b: int)
    requires
        a <= b,
    ensures
        day_number(a, 1, 1) <= day_number(b, 1, 1),
{
    lemma_days_before_march_grows(a - 1, b - 1);
}

/// Just the days between two first days of the year have a year between them.
pub proof fn years_between(z: int, first: int, last: int)
    ensures
        first <= date_of(z).0 <= last <==> day_number(first, 1, 1) <= z < day_number(
            last + 1,
            1,
            1,
        ),
{
    day_round_trip(z);
    let (y, m, d) = date_of(z);
    lemma_within_its_year(y, m, d);
    if first <= y <= last {
        lemma_years_count_up(first, y);
        lemma_years_count_up(y + 1, last + 1);
    }
    if y < first {
        lemma_years_count_up(y + 1, first);
    }
    if y > last {
        lemma_years_count_up(last + 1, y);
    }
}

/// The years from [`EARLIEST`] to [`LATEST`] fit into 32 bits, an era apart from the lower end.
/// The day before still does.
pub proof fn years_within(utc: int)
    requires
        EARLIEST - 86_400 <= utc <= LATEST + 3_600,
    ensures
        i32::MIN + 400 <= date_of(utc / 86_400).0 <= i32::MAX,
        utc >= EARLIEST ==> i32::MIN + 401 <= date_of(utc / 86_400).0,
{
    years_between(utc / 86_400, i32::MIN + 400, i32::MAX as int);
    if utc >= EARLIEST {
        years_between(utc / 86_400, i32::MIN + 401, i32::MAX as int);
    }
}

/// Instants from [`EARLIEST`] to [`LATEST`] are on the calendar, and their local years fit into
/// 32 bits.
pub proof fn on_calendar_within(utc: int)
    requires
        EARLIEST <= utc <= LATEST,
    ensures
        on_calendar(utc),
        i32::MIN + 401 <= date_of((utc + offset_of(utc)) / 86_400).0 <= i32::MAX,
{
    years_within(utc);
    if offset_of(utc) == 3_600 {
        years_within(utc + 3_600);
    } else {
        let y = date_of(utc / 86_400).0;
        clocks_change_twice_a_year(utc);
        reveal(clock_change);
        last_sunday_is_the_last(y, 10);
        lemma_autumn(y);
        lemma_years_count_up(y + 1, i32::MAX + 1);
        years_within(utc + 7_200);
    }
}

/// The clocks go back more than a day before the year ends.
pub(crate) proof fn lemma_autumn(y: int)
    ensures
        clock_change(y, 10) + 86_400 <= day_number(y + 1, 1, 1) * 86_400,
{
    reveal(clock_change);
    last_sunday_is_the_last(y, 10);
    assert(day_number(y, 10, last_sunday_of(y, 10)) <= day_number(y, 10, 31));
    assert(day_number(y, 10, 31) + 62 == day_number(y + 1, 1, 1));
}

/// The week goes on from Monday, day after day, and starts again after Sunday. Day 0 was a Thursday.
pub proof fn weekdays_follow_each_other(z: int)
    ensures
        weekday_of(0) == 3,
        0 <= weekday_of(z) <= 6,
        weekday_of(z + 1) == if weekday_of(z) == 6 {
            0
        } else {
            weekday_of(z) + 1
        },
{
}

/// The months have the lengths of the calendar: 31 days, or 30 in April, June, September and
/// November, and in February 28, or 29 every fourth year but for the full centuries that 400 does
/// not divide.
#[verifier::rlimit(60)]
pub proof fn months_have_their_lengths(y: int, m: int)
    requires
        1 <= m <= 12,
    ensures
        (if m == 12 {
            day_number(y + 1, 1, 1)
        } else {
            day_number(y, m + 1, 1)
        }) - day_number(y, m, 1) == if m == 2 && y % 4 == 0 && (y % 100 != 0 || y % 400 == 0) {
            29int
        } else if m == 2 {
            28
        } else if m == 4 || m == 6 || m == 9 || m == 11 {
            30
        } else {
            31
        },
{
    if m == 12 {
        years_follow_each_other(y);
    } else {
        months_follow_each_other(y, m);
    }
    if y % 400 == 0 {
        lemma_multiple(y, 4, 100);
    }
}

/// Whether a day is the last Sunday of a month: a Sunday of that month, with the next one in
/// another.
pub open spec fn is_last_sunday(d: int, y: int, m: int) -> bool {
    &&& (d + 3) % 7 == 6
    &&& date_of(d).0 == y && date_of(d).1 == m
    &&& !(date_of(d + 7).0 == y && date_of(d + 7).1 == m)
}

#[verifier::rlimit(60)]
proof fn lemma_last_sunday_found(d: int, y: int, m: int)
    requires
        is_last_sunday(d, y, m),
    ensures
        d == day_number(y, m, last_sunday_of(y, m)),
{
    day_round_trip(d);
    day_round_trip(d + 7);
    let dom = date_of(d).2;
    last_sunday_is_the_last(y, m);
    if dom + 7 <= month_len(y, m) {
        date_round_trip(y, m, dom + 7);
        lemma_days_in_a_month(y, m, dom + 7, dom);
    }
    let last = last_sunday_of(y, m);
    lemma_days_in_a_month(y, m, last, dom);
    lemma_sundays_lie_apart(day_number(y, m, last), d);
}

proof fn lemma_days_in_a_month(y: int, m: int, a: int, b: int)
    ensures
        day_number(y, m, a) - day_number(y, m, b) == a - b,
{
}

/// Two Sundays less than a week apart are the same.
proof fn lemma_sundays_lie_apart(a: int, b: int)
    requires
        (a + 3) % 7 == 6,
        (b + 3) % 7 == 6,
        -7 < a - b < 7,
    ensures
        a == b,
{
    let (p, q) = ((a + 3) / 7, (b + 3) / 7);
    assert(a + 3 == 7 * p + 6 && b + 3 == 7 * q + 6);
}

/// The clocks change at 01:00 UTC on a Sunday of March and of October after which no other comes in
/// that month.
#[verifier::rlimit(60)]
pub proof fn the_clocks_change_on_a_last_sunday(y: int, m: int)
    requires
        m == 3 || m == 10,
    ensures
        clock_change(y, m) % 86_400 == 3_600,
        (clock_change(y, m) / 86_400 + 3) % 7 == 6,
        date_of(clock_change(y, m) / 86_400).0 == y,
        date_of(clock_change(y, m) / 86_400).1 == m,
        !(date_of(clock_change(y, m) / 86_400 + 7).0 == y && date_of(
            clock_change(y, m) / 86_400 + 7,
        ).1 == m),
{
    reveal(clock_change);
    last_sunday_is_the_last(y, m);
    let last = last_sunday_of(y, m);
    let d = day_number(y, m, last);
    assert(clock_change(y, m) == d * 86_400 + 3_600);
    vstd::arithmetic::div_mod::lemma_fundamental_div_mod_converse(
        d * 86_400 + 3_600,
        86_400,
        d,
        3_600,
    );
    date_round_trip(y, m, last);
    day_round_trip(d + 7);
    let (y2, m2, d2) = date_of(d + 7);
    if y2 == y && m2 == m {
        lemma_days_in_a_month(y, m, d2, last);
    }
}

/// Summer time: Berlin is two hours ahead of UTC from 01:00 UTC on the last Sunday of March until
/// 01:00 UTC on the last Sunday of October, and one hour ahead for the rest of the year.
#[verifier::rlimit(60)]
pub proof fn summer_time_lasts_from_march_to_october(utc: int, y: int, spring: int, autumn: int)
    requires
        i32::MIN <= y <= i32::MAX,
        date_of(utc / 86_400).0 == y,
        is_last_sunday(spring, y, 3),
        is_last_sunday(autumn, y, 10),
    ensures
        offset_of(utc) == if spring * 86_400 + 3_600 <= utc < autumn * 86_400 + 3_600 {
            7_200int
        } else {
            3_600
        },
{
    reveal(clock_change);
    lemma_last_sunday_found(spring, y, 3);
    lemma_last_sunday_found(autumn, y, 10);
}

/// Local time is UTC plus the offset: the date and the time of day that it shows count up to that
/// instant, and the weekday is that of the date.
#[verifier::rlimit(60)]
pub proof fn local_time_counts_up_to_the_instant(utc: int)
    requires
        i32::MIN <= date_of((utc + offset_of(utc)) / 86_400).0 <= i32::MAX,
    ensures
        ({
            let l = local_of(utc);
            let day = day_number(l.year as int, l.month as int, l.day as int);
            &&& day * 86_400 + l.hour * 3_600 + l.minute * 60 + l.second == utc + offset_of(utc)
            &&& valid_date(l.year as int, l.month as int, l.day as int)
            &&& l.hour < 24 && l.minute < 60 && l.second < 60
            &&& l.weekday == (day + 3) % 7
            &&& l.minutes() == l.hour * 60 + l.minute
        }),
{
    let secs = utc + offset_of(utc);
    day_round_trip(secs / 86_400);
    vstd::arithmetic::div_mod::lemma_mod_mod(secs, 3_600, 24);
    vstd::arithmetic::div_mod::lemma_mod_mod(secs, 60, 60);
}

} // verus!
