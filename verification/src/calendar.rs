//! Proleptic Gregorian calendar arithmetic: days since 1970-01-01 and the
//! second bounds of a calendar year.

use vstd::prelude::*;
use crate::error::{AppError, ErrorKind, is_app_error};

verus! {

/// Leap years of the proleptic Gregorian calendar.
pub open spec fn is_leap_year(y: int) -> bool {
    y % 4 == 0 && (y % 100 != 0 || y % 400 == 0)
}

pub open spec fn year_length(y: int) -> int {
    if is_leap_year(y) { 366 } else { 365 }
}

/// Number of days from 1970-01-01 to January 1st of year `y` (negative before 1970).
pub open spec fn days_before_year(y: int) -> int
    decreases (if y >= 1970 { y - 1970 } else { 1970 - y }),
{
    if y == 1970 {
        0
    } else if y > 1970 {
        days_before_year(y - 1) + year_length(y - 1)
    } else {
        days_before_year(y + 1) - year_length(y)
    }
}

pub open spec fn month_length(y: int, m: int) -> int {
    if m == 2 {
        if is_leap_year(y) { 29 } else { 28 }
    } else if m == 4 || m == 6 || m == 9 || m == 11 {
        30
    } else {
        31
    }
}

/// Number of days in year `y` before the first day of month `m`.
pub open spec fn days_before_month(y: int, m: int) -> int
    decreases m,
{
    if m <= 1 { 0 } else { days_before_month(y, m - 1) + month_length(y, m - 1) }
}

/// Number of days from 1970-01-01 to the date `y`-`m`-`d`.
pub open spec fn days_since_epoch(y: int, m: int, d: int) -> int {
    days_before_year(y) + days_before_month(y, m) + d - 1
}

/// Whether `x` is a value of `i32`.
pub open spec fn fits_i32(x: int) -> bool {
    i32::MIN <= x <= i32::MAX
}

/// Integer division rounding toward zero, as `/` on `i32` does.
pub open spec fn div_toward_zero(a: int, b: int) -> int {
    if a >= 0 { a / b } else { -((-a) / b) }
}

/// The year of the March-based calendar in which the date falls.
pub open spec fn march_year(year: int, month: u32) -> int {
    if month <= 2 { year - 1 } else { year }
}

/// Day of the March-based year, from the month and day as `i32` values.
pub open spec fn day_of_march_year(m: int, d: int) -> int {
    div_toward_zero(153 * (m + if m > 2 { -3int } else { 9int }) + 2, 5) + d - 1
}

/// The day count of the era/day-of-era method, on any arguments: the month
/// and day are read as `i32` values, as the computation reads them.
pub open spec fn civil_day_count(year: i32, month: u32, day: u32) -> int {
    let y = march_year(year as int, month);
    let era = y / 400;
    let yoe = y - era * 400;
    era * 146097 + (yoe * 365 + yoe / 4 - yoe / 100 + day_of_march_year(
        (month as i32) as int,
        (day as i32) as int,
    )) - 719468
}

/// The arguments on which every step of the day count stays within `i32`.
pub open spec fn civil_count_fits(year: i32, month: u32, day: u32) -> bool {
    let y = march_year(year as int, month);
    let era = y / 400;
    let yoe = y - era * 400;
    let m = (month as i32) as int;
    let d = (day as i32) as int;
    let a = 153 * (m + if m > 2 { -3int } else { 9int });
    let q = div_toward_zero(a + 2, 5);
    let doe = yoe * 365 + yoe / 4 - yoe / 100 + (q + d - 1);
    &&& fits_i32(y)
    &&& (y < 0 ==> fits_i32(y - 399))
    &&& fits_i32(a)
    &&& fits_i32(a + 2)
    &&& fits_i32(q + d)
    &&& fits_i32(q + d - 1)
    &&& fits_i32(doe)
    &&& fits_i32(era * 146097)
    &&& fits_i32(era * 146097 + doe)
    &&& fits_i32(era * 146097 + doe - 719468)
}

/// Leap days in the years 1..=x (by the 4/100/400 rule, extended to all integers).
pub open spec fn leap_count(x: int) -> int {
    x / 4 - x / 100 + x / 400
}

proof fn lemma_div_step(y: int, d: int)
    requires
        d > 0,
    ensures
        y / d - (y - 1) / d == (if y % d == 0 { 1int } else { 0int }),
{
    let q = y / d;
    let r = y % d;
    vstd::arithmetic::div_mod::lemma_fundamental_div_mod(y, d);
    if r == 0 {
        assert(y - 1 == (q - 1) * d + (d - 1)) by (nonlinear_arith)
            requires y == d * q + r, r == 0;
        vstd::arithmetic::div_mod::lemma_fundamental_div_mod_converse(y - 1, d, q - 1, d - 1);
    } else {
        assert(y - 1 == q * d + (r - 1)) by (nonlinear_arith)
            requires y == d * q + r;
        vstd::arithmetic::div_mod::lemma_fundamental_div_mod_converse(y - 1, d, q, r - 1);
    }
}

proof fn lemma_divides_chain(y: int)
    ensures
        y % 400 == 0 ==> y % 100 == 0,
        y % 100 == 0 ==> y % 4 == 0,
{
    vstd::arithmetic::div_mod::lemma_fundamental_div_mod(y, 400);
    vstd::arithmetic::div_mod::lemma_fundamental_div_mod(y, 100);
    if y % 400 == 0 {
        let q = y / 400;
        assert(y == (4 * q) * 100 + 0) by (nonlinear_arith)
            requires y == 400 * q + 0;
        vstd::arithmetic::div_mod::lemma_fundamental_div_mod_converse(y, 100, 4 * q, 0);
    }
    if y % 100 == 0 {
        let q = y / 100;
        assert(y == (25 * q) * 4 + 0) by (nonlinear_arith)
            requires y == 100 * q + 0;
        vstd::arithmetic::div_mod::lemma_fundamental_div_mod_converse(y, 4, 25 * q, 0);
    }
}

proof fn lemma_leap_count_step(y: int)
    ensures
        leap_count(y) - leap_count(y - 1) == (if is_leap_year(y) { 1int } else { 0int }),
{
    lemma_div_step(y, 4);
    lemma_div_step(y, 100);
    lemma_div_step(y, 400);
    lemma_divides_chain(y);
}

/// Closed form of the number of days before a year.
proof fn lemma_days_before_year(y: int)
    ensures
        days_before_year(y) == 365 * (y - 1970) + leap_count(y - 1) - leap_count(1969),
    decreases (if y >= 1970 { y - 1970 } else { 1970 - y }),
{
    if y > 1970 {
        lemma_days_before_year(y - 1);
        lemma_leap_count_step(y - 1);
    } else if y < 1970 {
        lemma_days_before_year(y + 1);
        lemma_leap_count_step(y);
    }
}

proof fn lemma_era_split(y: int)
    ensures
        ({
            let era = y / 400;
            let yoe = y - era * 400;
            &&& 0 <= yoe < 400
            &&& era * 146097 + yoe * 365 + yoe / 4 - yoe / 100 == 365 * y + leap_count(y)
        }),
{
    let era = y / 400;
    let yoe = y - era * 400;
    vstd::arithmetic::div_mod::lemma_fundamental_div_mod(y, 400);
    assert(yoe == y % 400) by (nonlinear_arith)
        requires y == 400 * era + y % 400, yoe == y - era * 400;
    vstd::arithmetic::div_mod::lemma_hoist_over_denominator(yoe, 100 * era, 4);
    vstd::arithmetic::div_mod::lemma_hoist_over_denominator(yoe, 4 * era, 100);
    vstd::arithmetic::div_mod::lemma_hoist_over_denominator(yoe, era, 400);
    assert(yoe + (100 * era) * 4 == y) by (nonlinear_arith)
        requires yoe == y - era * 400;
    assert(yoe + (4 * era) * 100 == y) by (nonlinear_arith)
        requires yoe == y - era * 400;
    assert(yoe + era * 400 == y);
    assert(yoe / 400 == 0);
    assert(era * 146097 + yoe * 365 == 365 * y + 97 * era) by (nonlinear_arith)
        requires yoe == y - era * 400;
}

/// The day count computed by the era/day-of-era method.
pub open spec fn civil_formula(year: int, month: int, day: int) -> int {
    let y = if month <= 2 { year - 1 } else { year };
    let era = y / 400;
    let yoe = y - era * 400;
    let doy = (153 * (month + if month > 2 { -3int } else { 9int }) + 2) / 5 + day - 1;
    let doe = yoe * 365 + yoe / 4 - yoe / 100 + doy;
    era * 146097 + doe - 719468
}

/// The era/day-of-era method counts the days since 1970-01-01 exactly.
pub proof fn lemma_civil_formula(year: int, month: int, day: int)
    requires
        1 <= month <= 12,
    ensures
        civil_formula(year, month, day) == days_since_epoch(year, month, day),
{
    let y = if month <= 2 { year - 1 } else { year };
    lemma_era_split(y);
    lemma_days_before_year(year);
    lemma_leap_count_step(year);
    assert(leap_count(1969) == 477);
    reveal_with_fuel(days_before_month, 13);
    assert(days_before_month(year, month) == (if month == 1 {
        0int
    } else if month == 2 {
        31int
    } else {
        (153 * (month - 3) + 2) / 5 + 59 + (if is_leap_year(year) { 1int } else { 0int })
    }));
}

/// Rounding `y` (or `y - 399` below zero) toward zero on division by 400
/// rounds `y` down.
proof fn lemma_toward_zero_era(y: int)
    ensures
        div_toward_zero(if y >= 0 { y } else { y - 399 }, 400) == y / 400,
{
    if y < 0 {
        let q = (399 - y) / 400;
        let r = (399 - y) % 400;
        vstd::arithmetic::div_mod::lemma_fundamental_div_mod(399 - y, 400);
        assert(y == 400 * (-q) + (399 - r)) by (nonlinear_arith)
            requires 399 - y == 400 * q + r;
        vstd::arithmetic::div_mod::lemma_fundamental_div_mod_converse(y, 400, -q, 399 - r);
    }
}

/// On a date of the calendar, the general day count is the number of days
/// since 1970-01-01.
pub proof fn lemma_civil_day_count(year: i32, month: u32, day: u32)
    requires
        1 <= month <= 12,
        1 <= day <= 31,
    ensures
        civil_day_count(year, month, day) == days_since_epoch(year as int, month as int, day as int),
{
    lemma_civil_formula(year as int, month as int, day as int);
    assert((month as i32) as int == month as int);
    assert((day as i32) as int == day as int);
}

/// A calendar date whose year lies within five million years of the epoch
/// keeps the day count within `i32`.
pub proof fn lemma_civil_count_fits(year: i32, month: u32, day: u32)
    requires
        1 <= month <= 12,
        1 <= day <= 31,
        -5_000_000 <= year <= 5_000_000,
    ensures
        civil_count_fits(year, month, day),
{
    let y = march_year(year as int, month);
    lemma_era_split(y);
    assert(-12501 <= y / 400 <= 12500) by (nonlinear_arith)
        requires -5_000_001 <= y <= 5_000_000;
    let era = y / 400;
    assert(-1_826_358_597 <= era * 146_097 <= 1_826_212_500) by (nonlinear_arith)
        requires -12501 <= era <= 12500;
    assert((month as i32) as int == month as int);
    assert((day as i32) as int == day as int);
}

/// Days from 1970-01-01 to the given date of the proleptic Gregorian
/// calendar, by the era/day-of-era method; other month and day numbers are
/// counted on by the same method.
pub fn days_from_civil(year: i32, month: u32, day: u32) -> (days: i64)
    requires
        civil_count_fits(year, month, day),
    ensures
        days == civil_day_count(year, month, day),
        1 <= month <= 12 && 1 <= day <= 31 ==> days == days_since_epoch(
            year as int,
            month as int,
            day as int,
        ),
{
    proof {
        if 1 <= month <= 12 && 1 <= day <= 31 {
            lemma_civil_day_count(year, month, day);
        }
        let y = march_year(year as int, month);
        lemma_era_split(y);
        lemma_toward_zero_era(y);
    }
    let year: i32 = year - if month <= 2 { 1i32 } else { 0i32 };
    let era: i32 = if year >= 0 { year } else { year - 399 } / 400;
    let yoe: i32 = year - era * 400;
    let month: i32 = month as i32;
    let day: i32 = day as i32;
    let a: i32 = 153 * (month + if month > 2 { -3i32 } else { 9i32 });
    let doy: i32 = (a + 2) / 5 + day - 1;
    let doe: i32 = yoe * 365 + yoe / 4 - yoe / 100 + doy;
    (era * 146_097 + doe - 719_468) as i64
}

proof fn lemma_days_before_year_step(y: int)
    ensures
        days_before_year(y + 1) == days_before_year(y) + year_length(y),
{
    if y >= 1970 {
        assert(days_before_year(y + 1) == days_before_year(y) + year_length(y));
    } else {
        assert(days_before_year(y) == days_before_year(y + 1) - year_length(y));
    }
}

proof fn lemma_days_before_year_monotone(a: int, b: int)
    requires
        a <= b,
    ensures
        days_before_year(a) + 365 * (b - a) <= days_before_year(b),
        days_before_year(b) <= days_before_year(a) + 366 * (b - a),
    decreases b - a,
{
    if a < b {
        lemma_days_before_year_monotone(a, b - 1);
        lemma_days_before_year_step(b - 1);
    }
}

/// Whether the seconds since the epoch at midnight (UTC) of the counted day fit in an `i32`.
pub open spec fn timestamp_fits(year: i32, month: u32, day: u32) -> bool {
    fits_i32(86400 * civil_day_count(year, month, day))
}

/// Seconds since 1970-01-01T00:00:00Z at the start of the given day, or a
/// usage error when that number does not fit in an `i32`.
pub fn unix_timestamp(year: i32, month: u32, day: u32) -> (r: Result<i32, AppError>)
    requires
        civil_count_fits(year, month, day),
    ensures
        timestamp_fits(year, month, day) ==> (r matches Ok(t) && t == 86400 * civil_day_count(
            year,
            month,
            day,
        )),
        !timestamp_fits(year, month, day) ==> is_app_error(
            r,
            ErrorKind::Usage,
            "date is out of range"@,
        ),
{
    let days = days_from_civil(year, month, day);
    let seconds = match days.checked_mul(86_400) {
        Some(s) => s,
        None => {
            return Err(AppError::usage("date is out of range"));
        },
    };
    if seconds < i32::MIN as i64 || seconds > i32::MAX as i64 {
        return Err(AppError::usage("date is out of range"));
    }
    Ok(seconds as i32)
}

/// The years whose bounds `year_bounds` can give as `i32` timestamps.
pub open spec fn year_bounds_ok(year: int) -> bool {
    1970 <= year <= 2037
}

/// First and last second (since the epoch) of a calendar year, for years
/// between 1970 and 2100; years whose bounds do not fit in an `i32` are
/// refused as out of range.
pub fn year_bounds(year: i32) -> (r: Result<(i32, i32), AppError>)
    ensures
        year_bounds_ok(year as int) ==> (r matches Ok((begin, end)) && begin == 86400
            * days_since_epoch(year as int, 1, 1) && end == 86400 * days_since_epoch(year + 1, 1, 1)
            - 1),
        !(1970 <= year <= 2100) ==> is_app_error(
            r,
            ErrorKind::Usage,
            "year must be between 1970 and 2100"@,
        ),
        2038 <= year <= 2100 ==> is_app_error(r, ErrorKind::Usage, "date is out of range"@),
{
    if !(1970 <= year && year <= 2100) {
        return Err(AppError::usage("year must be between 1970 and 2100"));
    }
    proof {
        lemma_days_before_year(2038);
        lemma_days_before_year(2039);
        assert(leap_count(2037) == 494);
        assert(leap_count(2038) == 494);
        lemma_days_before_year_monotone(1970, year as int);
        if year <= 2037 {
            lemma_days_before_year_monotone(year as int, 2038);
            lemma_days_before_year_monotone(year as int + 1, 2038);
        } else if year == 2038 {
            lemma_days_before_year_monotone(2039, 2039);
        } else {
            lemma_days_before_year_monotone(2039, year as int);
        }
        lemma_days_before_year_step(year as int);
        reveal_with_fuel(days_before_month, 2);
        lemma_civil_count_fits(year, 1, 1);
        lemma_civil_count_fits((year + 1) as i32, 1, 1);
        lemma_civil_day_count(year, 1, 1);
        lemma_civil_day_count((year + 1) as i32, 1, 1);
    }
    let begin = unix_timestamp(year, 1, 1)?;
    let end = unix_timestamp(year + 1, 1, 1)? - 1;
    Ok((begin, end))
}


// --------------------------------------------------------------------- laws

/// Day 0 is 1970-01-01.
pub proof fn law_epoch_is_day_zero()
    ensures
        days_since_epoch(1970, 1, 1) == 0,
{
    reveal_with_fuel(days_before_month, 2);
}

/// January 1st of the next year comes a year's length after January 1st.
pub proof fn law_year_span(y: int)
    ensures
        days_since_epoch(y + 1, 1, 1) - days_since_epoch(y, 1, 1) == year_length(y),
{
    reveal_with_fuel(days_before_month, 2);
    lemma_days_before_year_step(y);
}

/// The bounds of consecutive years tile the time line: a year ends one
/// second before the next begins, and spans exactly its length in days.
pub proof fn law_year_bounds_tile(y: int)
    requires
        year_bounds_ok(y),
        year_bounds_ok(y + 1),
    ensures
        (86400 * days_since_epoch(y + 1, 1, 1) - 1) + 1 == 86400 * days_since_epoch(y + 1, 1, 1),
        (86400 * days_since_epoch(y + 1, 1, 1) - 1) - 86400 * days_since_epoch(y, 1, 1) + 1 == 86400
            * year_length(y),
{
    law_year_span(y);
}

/// Later days of a month are later days since the epoch, one day apart.
pub proof fn law_consecutive_days(y: int, m: int, d: int)
    ensures
        days_since_epoch(y, m, d + 1) == days_since_epoch(y, m, d) + 1,
{
}

} // verus!
