//! Construction and decomposition of Unix timestamps.
//!
//! A timestamp is a signed 32-bit count of seconds since 1970-01-01T00:00:00Z.
//! Every method takes its date or its timestamp as an argument, so nothing here
//! depends on a clock, a locale or a time zone of the machine. The offset of
//! local time is set by `Timezone` and starts at UTC.
//!
//! Constructor seconds 60 and 61 count into the next minute. `FromGPS` drops the
//! fraction of its seconds.

use crate::env::Env;
use crate::error::{bad_call, is_bad_call, is_unsupported, unsupported, EvalError};
use crate::float::binary32::F32;
use crate::text::{decimal, decimal_text, enclosed, joined, same, signed_decimal, signed_text};
use crate::value::{show_value, value_text, M1Scalar, Value};
use vstd::prelude::*;

verus! {

/// Whether a year of the Gregorian calendar has a leap day.
pub open spec fn leap(year: int) -> bool {
    year % 4 == 0 && (year % 100 != 0 || year % 400 == 0)
}

/// The days of a year.
pub open spec fn year_length(year: int) -> int {
    if leap(year) {
        366
    } else {
        365
    }
}

/// The days from 1970-01-01 to the first day of a year.
pub open spec fn year_start(year: int) -> int
    decreases
            if year < 1970 {
                1970 - year
            } else {
                year - 1970
            },
{
    if year == 1970 {
        0
    } else if year > 1970 {
        year_start(year - 1) + year_length(year - 1)
    } else {
        year_start(year + 1) - year_length(year)
    }
}

/// The days of a month, counted from zero.
pub open spec fn month_length(year: int, month: int) -> int {
    if month == 1 {
        if leap(year) {
            29
        } else {
            28
        }
    } else if month == 3 || month == 5 || month == 8 || month == 10 {
        30
    } else if 0 <= month <= 11 {
        31
    } else {
        0
    }
}

/// The days from the first of a year to the first of a month of it.
pub open spec fn month_start(year: int, month: int) -> int
    decreases month,
{
    if month <= 0 {
        0
    } else {
        month_start(year, month - 1) + month_length(year, month - 1)
    }
}

/// Whether a year, a month from zero and a day from one are a date.
pub open spec fn is_date(year: int, month: int, day: int) -> bool {
    0 <= month <= 11 && 1 <= day <= month_length(year, month)
}

/// The days from 1970-01-01 to a date.
pub open spec fn day_number(year: int, month: int, day: int) -> int {
    year_start(year) + month_start(year, month) + day - 1
}

/// The days of a year are those of its twelve months.
proof fn lemma_year_of_months(year: int)
    ensures
        month_start(year, 12) == year_length(year),
{
    reveal_with_fuel(month_start, 13);
}

/// A later month starts after every day of an earlier one.
proof fn lemma_months_increase(year: int, a: int, b: int)
    requires
        0 <= a < b <= 12,
    ensures
        month_start(year, a) + month_length(year, a) <= month_start(year, b),
        0 <= month_start(year, a),
    decreases b,
{
    lemma_month_start_nonnegative(year, a);
    if a + 1 < b {
        lemma_months_increase(year, a, b - 1);
    }
}

proof fn lemma_month_start_nonnegative(year: int, month: int)
    ensures
        0 <= month_start(year, month),
    decreases month,
{
    if month > 0 {
        lemma_month_start_nonnegative(year, month - 1);
    }
}

/// A later year starts after every day of an earlier one.
proof fn lemma_years_increase(a: int, b: int)
    requires
        a < b,
    ensures
        year_start(a) + year_length(a) <= year_start(b),
    decreases b - a,
{
    if a + 1 == b {
        if a >= 1970 {
        } else {
        }
    } else {
        lemma_years_increase(a, b - 1);
        lemma_years_increase(b - 1, b);
    }
}

/// A date lies within its year.
proof fn lemma_date_in_year(year: int, month: int, day: int)
    requires
        is_date(year, month, day),
    ensures
        year_start(year) <= day_number(year, month, day) < year_start(year) + year_length(year),
{
    lemma_year_of_months(year);
    lemma_months_increase(year, month, 12);
}

/// Two dates with the same day number are the same date.
pub proof fn law_dates_are_unique(y: int, m: int, d: int, y2: int, m2: int, d2: int)
    requires
        is_date(y, m, d),
        is_date(y2, m2, d2),
        day_number(y, m, d) == day_number(y2, m2, d2),
    ensures
        y == y2,
        m == m2,
        d == d2,
{
    lemma_date_in_year(y, m, d);
    lemma_date_in_year(y2, m2, d2);
    if y < y2 {
        lemma_years_increase(y, y2);
    } else if y2 < y {
        lemma_years_increase(y2, y);
    } else if m < m2 {
        lemma_months_increase(y, m, m2);
    } else if m2 < m {
        lemma_months_increase(y, m2, m);
    }
}

/// A timestamp taken apart.
#[derive(Clone, Copy, PartialEq, Eq, Structural, Debug)]
pub struct Civil {
    /// The year.
    pub year: i32,
    /// The month from zero.
    pub month: i32,
    /// The day from one.
    pub day: i32,
    /// The hour.
    pub hour: i32,
    /// The minute.
    pub minute: i32,
    /// The second.
    pub second: i32,
    /// The day of the week; Sunday is zero.
    pub weekday: i32,
    /// The day of the year from zero.
    pub year_day: i32,
}

/// Whether `c` is what a timestamp reads as at an offset from UTC.
pub open spec fn describes(c: Civil, unix: int, offset: int) -> bool {
    let t = unix + offset;
    let days = t / 86_400;
    let within = t % 86_400;
    &&& is_date(c.year as int, c.month as int, c.day as int)
    &&& day_number(c.year as int, c.month as int, c.day as int) == days
    &&& c.hour == within / 3_600
    &&& c.minute == (within / 60) % 60
    &&& c.second == within % 60
    &&& c.weekday == (days + 4) % 7
    &&& c.year_day == days - year_start(c.year as int)
}

/// What a timestamp reads as at an offset from UTC.
pub open spec fn civil_of(unix: int, offset: int) -> Civil {
    choose|c: Civil| describes(c, unix, offset)
}

/// A timestamp reads in one way only.
pub proof fn law_decomposition_is_unique(c: Civil, unix: int, offset: int)
    requires
        describes(c, unix, offset),
    ensures
        civil_of(unix, offset) == c,
{
    let o = civil_of(unix, offset);
    assert(describes(o, unix, offset));
    law_dates_are_unique(
        c.year as int,
        c.month as int,
        c.day as int,
        o.year as int,
        o.month as int,
        o.day as int,
    );
}

fn is_leap_year(year: i32) -> (r: bool)
    requires
        year >= 0,
    ensures
        r == leap(year as int),
{
    year % 4 == 0 && (year % 100 != 0 || year % 400 == 0)
}

fn days_in_month(year: i32, month: i32) -> (r: i32)
    requires
        year >= 0,
    ensures
        r == month_length(year as int, month as int),
        0 <= r <= 31,
{
    if month == 1 {
        if is_leap_year(year) {
            29
        } else {
            28
        }
    } else if month == 3 || month == 5 || month == 8 || month == 10 {
        30
    } else if 0 <= month && month <= 11 {
        31
    } else {
        0
    }
}

fn days_in_year(year: i32) -> (r: i64)
    requires
        year >= 0,
    ensures
        r == year_length(year as int),
{
    if is_leap_year(year) {
        366
    } else {
        365
    }
}

/// The days from 1970-01-01 to the first day of a year from 1970 on.
fn first_day_of(year: i32) -> (r: i64)
    requires
        1970 <= year <= 3000,
    ensures
        r == year_start(year as int),
        0 <= r <= 366 * (year - 1970),
{
    let mut y: i32 = 1970;
    let mut days: i64 = 0;
    while y < year
        invariant
            1970 <= y <= year <= 3000,
            days == year_start(y as int),
            0 <= days <= 366 * (y - 1970),
        decreases year - y,
    {
        days = days + days_in_year(y);
        y = y + 1;
    }
    days
}

fn first_day_of_month(year: i32, month: i32) -> (r: i64)
    requires
        year >= 0,
        0 <= month <= 11,
    ensures
        r == month_start(year as int, month as int),
        0 <= r <= 31 * month,
{
    let mut m: i32 = 0;
    let mut days: i64 = 0;
    while m < month
        invariant
            0 <= m <= month <= 11,
            year >= 0,
            days == month_start(year as int, m as int),
            0 <= days <= 31 * m,
        decreases month - m,
    {
        days = days + days_in_month(year, m) as i64;
        m = m + 1;
    }
    days
}

/// The days from 1970-01-01 to a date, if it is one.
fn days_from_civil(year: i32, month: i32, day: i32) -> (r: Option<i64>)
    requires
        1970 <= year <= 3000,
    ensures
        r == if is_date(year as int, month as int, day as int) {
            Some(day_number(year as int, month as int, day as int) as i64)
        } else {
            None
        },
        r matches Some(d) ==> 0 <= d <= 400_000 && d == day_number(
            year as int,
            month as int,
            day as int,
        ),
{
    if month < 0 || month > 11 || day < 1 || day > days_in_month(year, month) {
        return None;
    }
    let d: i64 = first_day_of(year) + first_day_of_month(year, month) + day as i64 - 1;
    Some(d)
}

/// The year of a day number, and the day within it.
fn year_of(days: i64) -> (r: (i32, i64))
    requires
        -60_000 <= days <= 60_000,
    ensures
        1500 <= r.0 <= 2500,
        r.1 == days - year_start(r.0 as int),
        0 <= r.1 < year_length(r.0 as int),
{
    let mut year: i32 = 1970;
    let mut left: i64 = days;
    while left < 0
        invariant
            1500 <= year <= 1970,
            left == days - year_start(year as int),
            year < 1970 ==> left < year_length(year as int),
            -60_000 <= days <= 60_000,
            -60_000 + 365 * (1970 - year) <= left <= 60_000,
        decreases year,
    {
        assert(year > 1500) by {
            assert(365 * (1970 - 1500) > 60_000);
        }
        year = year - 1;
        left = left + days_in_year(year);
    }
    let mut rest: i64 = left;
    while rest >= days_in_year(year)
        invariant
            1500 <= year <= 2500,
            rest >= 0,
            rest == days - year_start(year as int),
            -60_000 <= days <= 60_000,
            year < 1970 ==> rest < year_length(year as int),
            year >= 1970 ==> rest <= 60_000 - 365 * (year - 1970),
        decreases rest,
    {
        rest = rest - days_in_year(year);
        year = year + 1;
    }
    (year, rest)
}

/// The month and day of a day within a year.
fn month_of(year: i32, year_day: i64) -> (r: (i32, i32))
    requires
        year >= 0,
        0 <= year_day < year_length(year as int),
    ensures
        is_date(year as int, r.0 as int, r.1 as int),
        month_start(year as int, r.0 as int) + r.1 - 1 == year_day,
{
    let mut month: i32 = 0;
    let mut left: i64 = year_day;
    proof {
        lemma_year_of_months(year as int);
    }
    while left >= days_in_month(year, month) as i64
        invariant
            0 <= month <= 11,
            year >= 0,
            0 <= left <= 366,
            left == year_day - month_start(year as int, month as int),
            year_day < year_length(year as int) == month_start(year as int, 12),
        decreases 12 - month,
    {
        left = left - days_in_month(year, month) as i64;
        month = month + 1;
    }
    (month, left as i32 + 1)
}

/// Takes a timestamp apart at an offset from UTC.
pub fn decompose(unix: i32, offset_seconds: i32) -> (c: Civil)
    ensures
        describes(c, unix as int, offset_seconds as int),
        c == civil_of(unix as int, offset_seconds as int),
{
    let adjusted: i64 = unix as i64 + offset_seconds as i64;
    let (days, within): (i64, i64) = if adjusted >= 0 {
        (adjusted / 86_400, adjusted % 86_400)
    } else {
        let m: i64 = -adjusted;
        let q: i64 = (m + 86_399) / 86_400;
        (-q, adjusted + q * 86_400)
    };
    assert(days == adjusted as int / 86_400 && within == adjusted as int % 86_400);
    let (year, year_day) = year_of(days);
    let (month, day) = month_of(year, year_day);
    let weekday: i64 = (days + 70_004) % 7;
    assert(weekday == (days + 4) as int % 7);
    let c = Civil {
        year,
        month,
        day,
        hour: (within / 3_600) as i32,
        minute: ((within / 60) % 60) as i32,
        second: (within % 60) as i32,
        weekday: weekday as i32,
        year_day: year_day as i32,
    };
    proof {
        law_decomposition_is_unique(c, unix as int, offset_seconds as int);
    }
    c
}

/// The timestamp of a date and a time of day at an offset from UTC, where each
/// part is in range and the timestamp fits.
pub open spec fn timestamp_of(
    year: int,
    month: int,
    day: int,
    hour: int,
    minute: int,
    second: int,
    offset: int,
) -> Option<int> {
    let t = day_number(year, month, day) * 86_400 + hour * 3_600 + minute * 60 + second - offset;
    if 1970 <= year <= 2038 && is_date(year, month, day) && 0 <= hour <= 23 && 0 <= minute <= 59
        && 0 <= second <= 61 && i32::MIN <= t <= i32::MAX {
        Some(t)
    } else {
        None
    }
}

/// Putting a decomposed timestamp together again gives the timestamp.
pub proof fn law_decompose_then_construct(c: Civil, unix: i32, offset: int)
    requires
        describes(c, unix as int, offset),
        1970 <= c.year <= 2038,
    ensures
        timestamp_of(
            c.year as int,
            c.month as int,
            c.day as int,
            c.hour as int,
            c.minute as int,
            c.second as int,
            offset,
        ) == Some(unix as int),
{
    let within = (unix + offset) % 86_400;
    assert(within == (within / 3_600) * 3_600 + ((within / 60) % 60) * 60 + within % 60);
}

/// Taking a constructed timestamp apart gives the parts, without leap seconds.
pub proof fn law_construct_then_decompose(
    year: int,
    month: int,
    day: int,
    hour: int,
    minute: int,
    second: int,
    offset: int,
    c: Civil,
)
    requires
        second <= 59,
        timestamp_of(year, month, day, hour, minute, second, offset) is Some,
        describes(
            c,
            timestamp_of(year, month, day, hour, minute, second, offset)->Some_0,
            offset,
        ),
    ensures
        c.year == year,
        c.month == month,
        c.day == day,
        c.hour == hour,
        c.minute == minute,
        c.second == second,
{
    let t = timestamp_of(year, month, day, hour, minute, second, offset)->Some_0;
    let n = day_number(year, month, day);
    let w = hour * 3_600 + minute * 60 + second;
    assert(t + offset == n * 86_400 + w);
    assert((t + offset) / 86_400 == n && (t + offset) % 86_400 == w);
    law_dates_are_unique(year, month, day, c.year as int, c.month as int, c.day as int);
}

/// What is wrong with a date and a time of day that have no timestamp: the first
/// part that is out of range, or else the timestamp itself.
pub open spec fn date_fault(
    year: int,
    month: int,
    day: int,
    hour: int,
    minute: int,
    second: int,
    offset: int,
) -> Seq<char> {
    let t = day_number(year, month, day) * 86_400 + hour * 3_600 + minute * 60 + second - offset;
    if !(1970 <= year <= 2038) {
        "year must be in 1970..=2038, got "@ + signed_decimal(year)
    } else if !(0 <= month <= 11) {
        "month must be in 0..=11, got "@ + signed_decimal(month)
    } else if !is_date(year, month, day) {
        "day "@ + signed_decimal(day) + " is invalid for year "@ + signed_decimal(year)
            + ", month "@ + signed_decimal(month)
    } else if !(0 <= hour <= 23) {
        "hour must be in 0..=23, got "@ + signed_decimal(hour)
    } else if !(0 <= minute <= 59) {
        "minute must be in 0..=59, got "@ + signed_decimal(minute)
    } else if !(0 <= second <= 61) {
        "second must be in 0..=61, got "@ + signed_decimal(second)
    } else {
        "date/time resolves to Unix timestamp "@ + signed_decimal(t)
            + ", outside the M1 Integer range"@
    }
}

/// A bad call of a method.
fn refused(method: &str, detail: &str) -> (r: EvalError)
    ensures
        is_bad_call(r, refusal(method@, detail@)),
{
    bad_call(joined(enclosed("UnixTime.", method, ": ").as_str(), detail).as_str())
}

/// The message of a bad call of a method.
pub open spec fn refusal(method: Seq<char>, detail: Seq<char>) -> Seq<char> {
    "UnixTime."@ + method + ": "@ + detail
}

/// A bad call of a method with a number at the end of its message.
fn refused_number(method: &str, detail: &str, got: i32) -> (r: EvalError)
    ensures
        is_bad_call(r, refusal(method@, detail@ + signed_decimal(got as int))),
{
    refused(method, joined(detail, signed_text(got as i64).as_str()).as_str())
}

fn construct_timestamp(
    method: &str,
    year: i32,
    month: i32,
    day: i32,
    hour: i32,
    minute: i32,
    second: i32,
    offset_seconds: i32,
) -> (r: Result<Value, EvalError>)
    ensures
        stamps(
            r,
            method@,
            timestamp_of(
                year as int,
                month as int,
                day as int,
                hour as int,
                minute as int,
                second as int,
                offset_seconds as int,
            ),
            date_fault(
                year as int,
                month as int,
                day as int,
                hour as int,
                minute as int,
                second as int,
                offset_seconds as int,
            ),
        ),
{
    if year < 1970 || year > 2038 {
        return Err(refused_number(method, "year must be in 1970..=2038, got ", year));
    }
    if month < 0 || month > 11 {
        return Err(refused_number(method, "month must be in 0..=11, got ", month));
    }
    let days: i64 = match days_from_civil(year, month, day) {
        Some(d) => d,
        None => {
            let head: String = enclosed(
                "day ",
                signed_text(day as i64).as_str(),
                " is invalid for year ",
            );
            let middle: String = enclosed(
                head.as_str(),
                signed_text(year as i64).as_str(),
                ", month ",
            );
            return Err(refused_number(method, middle.as_str(), month));
        },
    };
    if hour < 0 || hour > 23 {
        return Err(refused_number(method, "hour must be in 0..=23, got ", hour));
    }
    if minute < 0 || minute > 59 {
        return Err(refused_number(method, "minute must be in 0..=59, got ", minute));
    }
    if second < 0 || second > 61 {
        return Err(refused_number(method, "second must be in 0..=61, got ", second));
    }
    let local: i64 = days * 86_400 + hour as i64 * 3_600 + minute as i64 * 60 + second as i64;
    let unix: i64 = local - offset_seconds as i64;
    if unix < -0x8000_0000 || unix > 0x7fff_ffff {
        let detail: String = enclosed(
            "date/time resolves to Unix timestamp ",
            signed_text(unix).as_str(),
            ", outside the M1 Integer range",
        );
        return Err(refused(method, detail.as_str()));
    }
    Ok(Value::m1_integer(unix as i32))
}

/// Whether a result of a method is a timestamp that is specified, and a bad call with a
/// message where there is none.
pub open spec fn stamps(
    r: Result<Value, EvalError>,
    method: Seq<char>,
    t: Option<int>,
    fault: Seq<char>,
) -> bool {
    match t {
        Some(t) => r == Ok::<Value, EvalError>(Value::M1(M1Scalar::Integer(t as i32))),
        None => r matches Err(e) && is_bad_call(e, refusal(method, fault)),
    }
}

/// A signed integer argument.
pub open spec fn integer_of(v: Value) -> Option<int> {
    match v {
        Value::M1(M1Scalar::Integer(x)) => Some(x as int),
        _ => None,
    }
}

/// What is wrong with an argument of another family than the expected one.
pub open spec fn family_fault(name: Seq<char>, family: Seq<char>, v: Value) -> Seq<char> {
    name + " expects M1 "@ + family + ", got "@ + value_text(v)
}

fn wrong_family(method: &str, name: &str, family: &str, v: &Value) -> (r: EvalError)
    ensures
        is_bad_call(r, refusal(method@, family_fault(name@, family@, *v))),
{
    let head: String = enclosed(name, " expects M1 ", family);
    let text: String = enclosed(head.as_str(), ", got ", show_value(v).as_str());
    refused(method, text.as_str())
}

fn integer_arg(method: &str, name: &str, value: &Value) -> (r: Result<i32, EvalError>)
    ensures
        match integer_of(*value) {
            Some(x) => r matches Ok(y) && y == x,
            None => r matches Err(e) && is_bad_call(
                e,
                refusal(method@, family_fault(name@, "Integer"@, *value)),
            ),
        },
{
    match value {
        Value::M1(M1Scalar::Integer(x)) => Ok(*x),
        _ => Err(wrong_family(method, name, "Integer", value)),
    }
}

/// The timestamp of six integer arguments.
pub open spec fn components_of(args: Seq<Value>, offset: int) -> Option<int> {
    match (
        integer_of(args[0]),
        integer_of(args[1]),
        integer_of(args[2]),
        integer_of(args[3]),
        integer_of(args[4]),
        integer_of(args[5]),
    ) {
        (Some(y), Some(m), Some(d), Some(h), Some(n), Some(s)) => timestamp_of(
            y,
            m,
            d,
            h,
            n,
            s,
            offset,
        ),
        _ => None,
    }
}

/// What is wrong with six arguments that have no timestamp: the first that is no
/// integer, or else the date.
pub open spec fn components_fault(args: Seq<Value>, offset: int) -> Seq<char> {
    match (
        integer_of(args[0]),
        integer_of(args[1]),
        integer_of(args[2]),
        integer_of(args[3]),
        integer_of(args[4]),
        integer_of(args[5]),
    ) {
        (None, _, _, _, _, _) => family_fault("year"@, "Integer"@, args[0]),
        (_, None, _, _, _, _) => family_fault("month"@, "Integer"@, args[1]),
        (_, _, None, _, _, _) => family_fault("day"@, "Integer"@, args[2]),
        (_, _, _, None, _, _) => family_fault("hour"@, "Integer"@, args[3]),
        (_, _, _, _, None, _) => family_fault("minute"@, "Integer"@, args[4]),
        (_, _, _, _, _, None) => family_fault("second"@, "Integer"@, args[5]),
        (Some(y), Some(m), Some(d), Some(h), Some(n), Some(s)) => date_fault(
            y,
            m,
            d,
            h,
            n,
            s,
            offset,
        ),
    }
}

fn from_components(args: &[Value], offset_seconds: i32, method: &str) -> (r: Result<
    Value,
    EvalError,
>)
    requires
        args.len() >= 6,
    ensures
        stamps(
            r,
            method@,
            components_of(args@, offset_seconds as int),
            components_fault(args@, offset_seconds as int),
        ),
{
    let year: i32 = integer_arg(method, "year", &args[0])?;
    let month: i32 = integer_arg(method, "month", &args[1])?;
    let day: i32 = integer_arg(method, "day", &args[2])?;
    let hour: i32 = integer_arg(method, "hour", &args[3])?;
    let minute: i32 = integer_arg(method, "minute", &args[4])?;
    let second: i32 = integer_arg(method, "second", &args[5])?;
    construct_timestamp(method, year, month, day, hour, minute, second, offset_seconds)
}

/// The full year of two digits: 1970 to 1999 and 2000 to 2038.
pub open spec fn full_year(short: int) -> Option<int> {
    if 70 <= short <= 99 {
        Some(1900 + short)
    } else if 0 <= short <= 38 {
        Some(2000 + short)
    } else {
        None
    }
}

/// The timestamp of a `DDMMYY` date and a number of seconds since midnight UTC.
pub open spec fn gps_of(args: Seq<Value>) -> Option<int> {
    match (args[0], args[1]) {
        (
            Value::M1(M1Scalar::UnsignedInteger(date)),
            Value::M1(M1Scalar::FloatingPoint(seconds)),
        ) => {
            let w = seconds.whole_part() as int;
            match full_year((date % 100) as int) {
                Some(year) if date <= 999_999 && (F32 { bits: 0 }).at_most(seconds)
                    && seconds.less(F32 { bits: 0x47a8_c000 }) => timestamp_of(
                    year,
                    (date / 100) % 100 - 1,
                    (date / 10_000) as int,
                    w / 3_600,
                    (w / 60) % 60,
                    w % 60,
                    0,
                ),
                _ => None,
            }
        },
        _ => None,
    }
}

/// What is wrong with a date and a time that have no timestamp, in the order in which
/// they are looked at.
pub open spec fn gps_fault(args: Seq<Value>) -> Seq<char> {
    match args[0] {
        Value::M1(M1Scalar::UnsignedInteger(date)) => match full_year((date % 100) as int) {
            _ if date > 999_999 => "date "@ + decimal(date as nat) + " is not a DDMMYY value"@,
            None => "two-digit year "@ + decimal((date % 100) as nat) + " is outside 1970-2038"@,
            Some(year) => match args[1] {
                Value::M1(M1Scalar::FloatingPoint(seconds)) => if (F32 { bits: 0 }).at_most(seconds)
                    && seconds.less(F32 { bits: 0x47a8_c000 }) {
                    let w = seconds.whole_part() as int;
                    date_fault(
                        year,
                        (date / 100) % 100 - 1,
                        (date / 10_000) as int,
                        w / 3_600,
                        (w / 60) % 60,
                        w % 60,
                        0,
                    )
                } else {
                    "UTC seconds since midnight must be finite and in [0, 86400), got "@
                        + seconds.full_text()
                },
                v => family_fault("time"@, "FloatingPoint"@, v),
            },
        },
        v => family_fault("date"@, "UnsignedInteger"@, v),
    }
}

fn from_gps(args: &[Value]) -> (r: Result<Value, EvalError>)
    requires
        args.len() >= 2,
    ensures
        stamps(r, "FromGPS"@, gps_of(args@), gps_fault(args@)),
{
    let date: u32 = match &args[0] {
        Value::M1(M1Scalar::UnsignedInteger(v)) => *v,
        _ => return Err(wrong_family("FromGPS", "date", "UnsignedInteger", &args[0])),
    };
    if date > 999_999 {
        let detail: String = enclosed(
            "date ",
            decimal_text(date as u64).as_str(),
            " is not a DDMMYY value",
        );
        return Err(refused("FromGPS", detail.as_str()));
    }
    let short: u32 = date % 100;
    let year: i32 = if 70 <= short {
        1900 + short as i32
    } else if short <= 38 {
        2000 + short as i32
    } else {
        let detail: String = enclosed(
            "two-digit year ",
            decimal_text(short as u64).as_str(),
            " is outside 1970-2038",
        );
        return Err(refused("FromGPS", detail.as_str()));
    };
    let seconds: F32 = match &args[1] {
        Value::M1(M1Scalar::FloatingPoint(v)) => *v,
        _ => return Err(wrong_family("FromGPS", "time", "FloatingPoint", &args[1])),
    };
    if !(F32::from_bits(0).at_most(seconds) && seconds.less(F32::from_bits(0x47a8_c000))) {
        let detail: String = joined(
            "UTC seconds since midnight must be finite and in [0, 86400), got ",
            seconds.to_full_text().as_str(),
        );
        return Err(refused("FromGPS", detail.as_str()));
    }
    let w: u128 = seconds.whole_part_capped();
    proof {
        lemma_day_seconds(seconds);
    }
    construct_timestamp(
        "FromGPS",
        year,
        ((date / 100) % 100) as i32 - 1,
        (date / 10_000) as i32,
        (w / 3_600) as i32,
        ((w / 60) % 60) as i32,
        (w % 60) as i32,
        0,
    )
}

/// A number below 86400 has a whole part below it.
proof fn lemma_day_seconds(seconds: F32)
    requires
        (F32 { bits: 0 }).at_most(seconds),
        seconds.less(F32 { bits: 0x47a8_c000 }),
    ensures
        seconds.whole_part() < 86_400,
{
    crate::float::num::lemma_whole_below(seconds.num().mag as nat);
}

/// The offset in seconds of an encoded time zone: whole hours from -12 to 14, or
/// signed `HHMM` from -1245 to 1445.
pub open spec fn timezone_of(encoded: int) -> Option<int> {
    let m = if encoded < 0 {
        -encoded
    } else {
        encoded
    };
    let s = (m / 100) * 3_600 + (m % 100) * 60;
    if -12 <= encoded <= 14 {
        Some(encoded * 3_600)
    } else if -1245 <= encoded <= 1445 && m % 100 < 60 {
        Some(
            if encoded < 0 {
                -s
            } else {
                s
            },
        )
    } else {
        None
    }
}

/// What is wrong with a number that encodes no time zone.
pub open spec fn timezone_fault(encoded: int) -> Seq<char> {
    if -1245 <= encoded <= 1445 {
        "HHMM minute field must be in 00..=59, got "@ + signed_decimal(encoded)
    } else {
        "offset must be an hour in -12..=14 or HHMM in -1245..=1445, got "@ + signed_decimal(
            encoded,
        )
    }
}

fn timezone_seconds(encoded: i32) -> (r: Result<i32, EvalError>)
    ensures
        match timezone_of(encoded as int) {
            Some(s) => r matches Ok(t) && t == s,
            None => r matches Err(e) && is_bad_call(
                e,
                refusal("Timezone"@, timezone_fault(encoded as int)),
            ),
        },
{
    if -12 <= encoded && encoded <= 14 {
        return Ok(encoded * 3_600);
    }
    if encoded < -1245 || encoded > 1445 {
        return Err(
            refused_number(
                "Timezone",
                "offset must be an hour in -12..=14 or HHMM in -1245..=1445, got ",
                encoded,
            ),
        );
    }
    let magnitude: i32 = if encoded < 0 {
        -encoded
    } else {
        encoded
    };
    if magnitude % 100 >= 60 {
        return Err(
            refused_number("Timezone", "HHMM minute field must be in 00..=59, got ", encoded),
        );
    }
    let seconds: i32 = (magnitude / 100) * 3_600 + (magnitude % 100) * 60;
    Ok(
        if encoded < 0 {
            -seconds
        } else {
            seconds
        },
    )
}

/// A part of a decomposed timestamp.
#[derive(Clone, Copy, PartialEq, Eq, Structural, Debug)]
pub enum Part {
    /// The day from one.
    Day,
    /// The hour.
    Hour,
    /// The minute.
    Minute,
    /// The month from zero.
    Month,
    /// The second.
    Second,
    /// The day of the week.
    WeekDay,
    /// The year.
    Year,
    /// The day of the year from zero.
    YearDay,
}

/// The value of a part.
pub open spec fn part_of(c: Civil, part: Part) -> i32 {
    match part {
        Part::Day => c.day,
        Part::Hour => c.hour,
        Part::Minute => c.minute,
        Part::Month => c.month,
        Part::Second => c.second,
        Part::WeekDay => c.weekday,
        Part::Year => c.year,
        Part::YearDay => c.year_day,
    }
}

fn select(c: Civil, part: Part) -> (r: i32)
    ensures
        r == part_of(c, part),
{
    match part {
        Part::Day => c.day,
        Part::Hour => c.hour,
        Part::Minute => c.minute,
        Part::Month => c.month,
        Part::Second => c.second,
        Part::WeekDay => c.weekday,
        Part::Year => c.year,
        Part::YearDay => c.year_day,
    }
}

/// The part that a method reads, and whether it reads local time.
pub open spec fn reader(method: Seq<char>) -> Option<(Part, bool)> {
    if method == "ToLocalDay"@ {
        Some((Part::Day, true))
    } else if method == "ToLocalHour"@ {
        Some((Part::Hour, true))
    } else if method == "ToLocalMinute"@ {
        Some((Part::Minute, true))
    } else if method == "ToLocalMonth"@ {
        Some((Part::Month, true))
    } else if method == "ToLocalSecond"@ {
        Some((Part::Second, true))
    } else if method == "ToLocalWeekDay"@ {
        Some((Part::WeekDay, true))
    } else if method == "ToLocalYear"@ {
        Some((Part::Year, true))
    } else if method == "ToLocalYearDay"@ {
        Some((Part::YearDay, true))
    } else if method == "ToUtcDay"@ {
        Some((Part::Day, false))
    } else if method == "ToUtcHour"@ {
        Some((Part::Hour, false))
    } else if method == "ToUtcMinute"@ {
        Some((Part::Minute, false))
    } else if method == "ToUtcMonth"@ {
        Some((Part::Month, false))
    } else if method == "ToUtcSecond"@ {
        Some((Part::Second, false))
    } else if method == "ToUtcWeekDay"@ {
        Some((Part::WeekDay, false))
    } else if method == "ToUtcYear"@ {
        Some((Part::Year, false))
    } else if method == "ToUtcYearDay"@ {
        Some((Part::YearDay, false))
    } else {
        None
    }
}

fn reader_of(method: &str) -> (r: Option<(Part, bool)>)
    ensures
        r == reader(method@),
{
    if same(method, "ToLocalDay") {
        Some((Part::Day, true))
    } else if same(method, "ToLocalHour") {
        Some((Part::Hour, true))
    } else if same(method, "ToLocalMinute") {
        Some((Part::Minute, true))
    } else if same(method, "ToLocalMonth") {
        Some((Part::Month, true))
    } else if same(method, "ToLocalSecond") {
        Some((Part::Second, true))
    } else if same(method, "ToLocalWeekDay") {
        Some((Part::WeekDay, true))
    } else if same(method, "ToLocalYear") {
        Some((Part::Year, true))
    } else if same(method, "ToLocalYearDay") {
        Some((Part::YearDay, true))
    } else if same(method, "ToUtcDay") {
        Some((Part::Day, false))
    } else if same(method, "ToUtcHour") {
        Some((Part::Hour, false))
    } else if same(method, "ToUtcMinute") {
        Some((Part::Minute, false))
    } else if same(method, "ToUtcMonth") {
        Some((Part::Month, false))
    } else if same(method, "ToUtcSecond") {
        Some((Part::Second, false))
    } else if same(method, "ToUtcWeekDay") {
        Some((Part::WeekDay, false))
    } else if same(method, "ToUtcYear") {
        Some((Part::Year, false))
    } else if same(method, "ToUtcYearDay") {
        Some((Part::YearDay, false))
    } else {
        None
    }
}

/// The least number of arguments of a method.
pub open spec fn arity(method: Seq<char>) -> nat {
    if method == "FromLocal"@ || method == "FromUtc"@ {
        6
    } else if method == "FromGPS"@ {
        2
    } else if method == "Timezone"@ || reader(method) is Some {
        1
    } else {
        0
    }
}

/// The least number of arguments of a method.
pub fn arity_of(method: &str) -> (r: usize)
    ensures
        r == arity(method@),
{
    if same(method, "FromLocal") || same(method, "FromUtc") {
        6
    } else if same(method, "FromGPS") {
        2
    } else if same(method, "Timezone") || reader_of(method).is_some() {
        1
    } else {
        0
    }
}

/// Whether a method is one of this module.
pub open spec fn is_method(method: Seq<char>) -> bool {
    method == "FromGPS"@ || method == "FromLocal"@ || method == "FromUtc"@ || method
        == "Timezone"@ || reader(method) is Some
}

/// Whether a method is one of this module.
pub fn implements(method: &str) -> (r: bool)
    ensures
        r == is_method(method@),
{
    same(method, "FromGPS") || same(method, "FromLocal") || same(method, "FromUtc") || same(
        method,
        "Timezone",
    ) || reader_of(method).is_some()
}

/// Whether a result and an environment are those of a call.
pub open spec fn calls(
    before: Env,
    after: Env,
    method: Seq<char>,
    args: Seq<Value>,
    r: Result<Value, EvalError>,
) -> bool {
    &&& after == (Env {
            unix_timezone_offset_seconds: after.unix_timezone_offset_seconds,
            ..before
        })
    &&& {
            let offset = before.unix_timezone_offset_seconds as int;
            let kept = after.unix_timezone_offset_seconds == offset;
            if method == "FromGPS"@ {
                kept && stamps(r, method, gps_of(args), gps_fault(args))
            } else if method == "FromLocal"@ {
                kept && stamps(
                    r,
                    method,
                    components_of(args, offset),
                    components_fault(args, offset),
                )
            } else if method == "FromUtc"@ {
                kept && stamps(r, method, components_of(args, 0), components_fault(args, 0))
            } else if method == "Timezone"@ {
                match integer_of(args[0]) {
                    Some(encoded) => match timezone_of(encoded) {
                        Some(s) => r == Ok::<Value, EvalError>(Value::Bool(true))
                            && after.unix_timezone_offset_seconds == s,
                        None => kept && (r matches Err(e) && is_bad_call(
                            e,
                            refusal(method, timezone_fault(encoded)),
                        )),
                    },
                    None => kept && (r matches Err(e) && is_bad_call(
                        e,
                        refusal(method, family_fault("hour"@, "Integer"@, args[0])),
                    )),
                }
            } else {
                match reader(method) {
                    Some((part, local)) => kept && match integer_of(args[0]) {
                        Some(unix) => r == Ok::<Value, EvalError>(
                            Value::M1(
                                M1Scalar::Integer(
                                    part_of(
                                        civil_of(
                                            unix,
                                            if local {
                                                offset
                                            } else {
                                                0
                                            },
                                        ),
                                        part,
                                    ),
                                ),
                            ),
                        ),
                        None => r matches Err(e) && is_bad_call(
                            e,
                            refusal(method, family_fault("unix"@, "Integer"@, args[0])),
                        ),
                    },
                    None => kept && (r matches Err(e) && is_unsupported(e, "UnixTime"@, method)),
                }
            }
    }
}

/// Evaluates one `UnixTime.<method>` call.
pub fn call(method: &str, args: &[Value], env: &mut Env) -> (r: Result<Value, EvalError>)
    requires
        args.len() >= arity(method@),
    ensures
        calls(*old(env), *final(env), method@, args@, r),
{
    if same(method, "FromGPS") {
        from_gps(args)
    } else if same(method, "FromLocal") {
        from_components(args, env.unix_timezone_offset_seconds, method)
    } else if same(method, "FromUtc") {
        from_components(args, 0, method)
    } else if same(method, "Timezone") {
        let encoded: i32 = integer_arg("Timezone", "hour", &args[0])?;
        let seconds: i32 = timezone_seconds(encoded)?;
        env.unix_timezone_offset_seconds = seconds;
        Ok(Value::Bool(true))
    } else {
        match reader_of(method) {
            Some((part, local)) => {
                let unix: i32 = integer_arg(method, "unix", &args[0])?;
                let offset: i32 = if local {
                    env.unix_timezone_offset_seconds
                } else {
                    0
                };
                Ok(Value::m1_integer(select(decompose(unix, offset), part)))
            },
            None => Err(unsupported("UnixTime", method)),
        }
    }
}

} // verus!
