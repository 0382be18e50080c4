//! What the timestamps hold to.

use crate::builtins::unix_time::{
    day_number, describes, full_year, gps_of, is_date, month_length, month_start, timestamp_of,
    timezone_of, year_length, year_start, Civil,
};
use crate::float::binary32::F32;
use crate::float::exact::{law_single_order, law_whole_part, lemma_constants, lemma_day_constant};
use crate::value::{M1Scalar, Value};
use vstd::arithmetic::div_mod::*;
use vstd::prelude::*;

verus! {

/// The leap days before a year since the start of the count: every fourth year has one, but of
/// the years of a full century only every fourth.
pub open spec fn leap_days_before(year: int) -> int {
    (year - 1) / 4 - (year - 1) / 100 + (year - 1) / 400
}

/// A year starts as many days after the start of 1970 as there are years of 365 days and leap days
/// between them.
pub proof fn law_years(year: int)
    ensures
        year_start(year) == 365 * (year - 1970) + leap_days_before(year) - leap_days_before(1970),
        year_start(year + 1) == year_start(year) + year_length(year),
    decreases
            if year < 1970 {
                1970 - year
            } else {
                year - 1970
            },
{
    if year > 1970 {
        law_years(year - 1);
        lemma_leap_step(year - 1);
    } else if year < 1970 {
        law_years(year + 1);
        lemma_leap_step(year);
    }
    if year < 1970 {
        assert(year_start(year) == year_start(year + 1) - year_length(year));
    } else {
        assert(year_start(year + 1) == year_start(year) + year_length(year));
    }
}

/// A number of whole periods grows by one just at the multiples of the period.
proof fn lemma_period(year: int, d: int)
    requires
        d > 0,
    ensures
        year / d - (year - 1) / d == if year % d == 0 {
            1int
        } else {
            0
        },
{
    let (q, r) = ((year - 1) / d, (year - 1) % d);
    lemma_fundamental_div_mod(year - 1, d);
    lemma_mod_bound(year - 1, d);
    assert(d * q == q * d && (q + 1) * d == q * d + d) by (nonlinear_arith);
    if r == d - 1 {
        lemma_fundamental_div_mod_converse(year, d, q + 1, 0);
    } else {
        lemma_fundamental_div_mod_converse(year, d, q, r + 1);
    }
}

proof fn lemma_leap_step(year: int)
    ensures
        leap_days_before(year + 1) == leap_days_before(year) + year_length(year) - 365,
{
    lemma_period(year, 4);
    lemma_period(year, 100);
    lemma_period(year, 400);
    if year % 100 == 0 {
        let k = year / 100;
        lemma_fundamental_div_mod(year, 100);
        lemma_mod_multiples_basic(25 * k, 4);
        assert(25 * k * 4 == year);
    }
    if year % 400 == 0 {
        let k = year / 400;
        lemma_fundamental_div_mod(year, 400);
        lemma_mod_multiples_basic(4 * k, 100);
        assert(4 * k * 100 == year);
    }
}

/// A month of a year starts as many days after its first as the months before have. From March
/// on the months repeat lengths of 31, 30, 31, 30 and 31 days.
#[verifier::rlimit(50)]
pub proof fn law_months(year: int, month: int)
    requires
        0 <= month <= 11,
    ensures
        month_start(year, month) == if month <= 1 {
            31 * month
        } else {
            (153 * (month - 2) + 2) / 5 + 59 + leap_days_before(year + 1) - leap_days_before(year)
        },
        month < 11 ==> month_start(year, month + 1) == month_start(year, month) + month_length(
            year,
            month,
        ),
        month == 11 ==> month_start(year, month) + month_length(year, month) == year_start(year + 1)
            - year_start(year),
{
    lemma_leap_step(year);
    law_years(year);
    reveal_with_fuel(month_start, 13);
}

/// The day after a date is the next day of its month, or the first of the next month, or of the
/// next year.
pub proof fn law_days_follow_each_other(year: int, month: int, day: int)
    requires
        is_date(year, month, day),
    ensures
        ({
            let next = day_number(year, month, day) + 1;
            if day < month_length(year, month) {
                next == day_number(year, month, day + 1)
            } else if month < 11 {
                next == day_number(year, month + 1, 1)
            } else {
                next == day_number(year + 1, 0, 1)
            }
        }),
        day_number(1970, 0, 1) == 0,
{
    law_months(year, month);
    law_years(year);
    law_months(year + 1, 0);
    law_months(1970, 0);
}

/// The parts of a timestamp are in their ranges and make up the timestamp.
#[verifier::rlimit(50)]
pub proof fn law_parts_make_up_the_time(c: Civil, unix: int, offset: int)
    requires
        describes(c, unix, offset),
    ensures
        0 <= c.hour < 24 && 0 <= c.minute < 60 && 0 <= c.second < 60,
        day_number(c.year as int, c.month as int, c.day as int) * 86_400 + c.hour * 3_600 + c.minute * 60
            + c.second == unix + offset,
        0 <= c.month <= 11,
        1 <= c.day <= 31,
        c.year_day == day_number(c.year as int, c.month as int, c.day as int) - day_number(
            c.year as int,
            0,
            1,
        ),
{
    law_months(c.year as int, 0);
    let t = unix + offset;
    let w = t % 86_400;
    assert(w == (w / 3_600) * 3_600 + ((w / 60) % 60) * 60 + w % 60);
}

/// The days of the week follow each other, and the day of the timestamp zero is a Thursday, the
/// fourth after Sunday.
#[verifier::rlimit(50)]
pub proof fn law_week_days(c: Civil, next: Civil, unix: int, offset: int)
    requires
        describes(c, unix, offset),
        describes(next, unix + 86_400, offset),
    ensures
        0 <= c.weekday < 7,
        c.weekday < 6 ==> next.weekday == c.weekday + 1,
        c.weekday == 6 ==> next.weekday == 0,
        0 <= unix + offset < 86_400 ==> c.weekday == 4,
{
}

/// Local time at an offset is what UTC reads that much later.
pub proof fn law_local_time_is_shifted(c: Civil, unix: int, offset: int)
    ensures
        describes(c, unix, offset) == describes(c, unix + offset, 0),
{
}

/// An encoded offset is whole hours, or hours and minutes in one decimal; a negative one is the
/// opposite of the positive.
#[verifier::rlimit(50)]
pub proof fn law_time_zones(hours: int, minutes: int)
    ensures
        -12 <= hours <= 14 ==> timezone_of(hours) == Some(hours * 3_600),
        0 <= hours <= 14 && 0 <= minutes < 60 && 100 * hours + minutes > 14 && 100 * hours + minutes
            <= 1445 ==> timezone_of(100 * hours + minutes) == Some(hours * 3_600 + minutes * 60),
        0 <= hours <= 12 && 0 <= minutes < 60 && 100 * hours + minutes > 12 && 100 * hours + minutes
            <= 1245 ==> timezone_of(-(100 * hours + minutes)) == Some(
            -(hours * 3_600 + minutes * 60),
        ),
        0 <= hours && 60 <= minutes < 100 ==> timezone_of(100 * hours + minutes) is None
            && timezone_of(-(100 * hours + minutes)) is None,
        hours < -1245 || hours > 1445 ==> timezone_of(hours) is None,
{
}

/// A year of two digits is the one from 1970 to 2038 that ends in them.
pub proof fn law_short_years(short: int)
    requires
        0 <= short <= 99,
    ensures
        match full_year(short) {
            Some(year) => 1970 <= year <= 2038 && year % 100 == short,
            None => forall|year: int| 1970 <= year <= 2038 ==> #[trigger] (year % 100) != short,
        },
{
}

/// A satellite date and time of the day have the timestamp of that date, and of the whole seconds
/// since its midnight.
pub proof fn law_satellite_time(day: int, month: int, year: int, date: u32, seconds: F32)
    requires
        is_date(year, month - 1, day),
        1970 <= year <= 2037,
        date == day * 10_000 + month * 100 + year % 100,
        seconds.is_finite(),
        0real <= seconds.exact() < 86400real,
    ensures
        gps_of(
            seq![Value::M1(M1Scalar::UnsignedInteger(date)), Value::M1(M1Scalar::FloatingPoint(seconds))],
        ) matches Some(t) && ({
            let within = t - day_number(year, month - 1, day) * 86_400;
            within as real <= seconds.exact() < within as real + 1real
        }),
{
    lemma_constants();
    lemma_day_constant();
    law_single_order(F32 { bits: 0 }, seconds);
    law_single_order(seconds, F32 { bits: 0x47a8_c000 });
    law_whole_part(seconds);
    let w = seconds.whole_part() as int;
    assert(0 <= w < 86_400);
    lemma_clock_parts(w);
    lemma_date_digits(day, month, year, date as int);
    lemma_day_range(year, month - 1, day);
    law_timestamps(year, month - 1, day, w / 3_600, (w / 60) % 60, w % 60, 0);
}

/// The hours, minutes and seconds of a time of the day.
#[verifier::rlimit(50)]
proof fn lemma_clock_parts(w: int)
    requires
        0 <= w < 86_400,
    ensures
        (w / 3_600) * 3_600 + ((w / 60) % 60) * 60 + w % 60 == w,
        0 <= w / 3_600 <= 23,
        0 <= (w / 60) % 60 <= 59,
        0 <= w % 60 <= 59,
{
}

/// The parts of a date of six digits.
#[verifier::rlimit(50)]
proof fn lemma_date_digits(day: int, month: int, year: int, date: int)
    requires
        is_date(year, month - 1, day),
        1970 <= year <= 2037,
        date == day * 10_000 + month * 100 + year % 100,
    ensures
        1 <= day <= 31,
        1 <= month <= 12,
        date <= 999_999,
        date % 100 == year % 100,
        (date / 100) % 100 == month,
        date / 10_000 == day,
        full_year(year % 100) == Some(year),
{
}

/// The days of the years that a timestamp holds.
proof fn lemma_day_range(year: int, month: int, day: int)
    requires
        is_date(year, month, day),
        1970 <= year <= 2037,
    ensures
        0 <= day_number(year, month, day) <= 24_836,
{
    law_years(year);
    law_months(year, month);
}

/// A timestamp of parts counts the days of their date and the time since its midnight, less the
/// offset; leap seconds run on into the next minute.
pub proof fn law_timestamps(
    year: int,
    month: int,
    day: int,
    hour: int,
    minute: int,
    second: int,
    offset: int,
)
    requires
        is_date(year, month, day),
        1970 <= year <= 2037,
        0 <= hour <= 23,
        0 <= minute <= 59,
        0 <= second <= 61,
        -86_400 < offset < 86_400,
    ensures
        timestamp_of(year, month, day, hour, minute, second, offset) == Some(
            day_number(year, month, day) * 86_400 + hour * 3_600 + minute * 60 + second - offset,
        ),
{
    lemma_day_range(year, month, day);
}

} // verus!
