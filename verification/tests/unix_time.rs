//! The `UnixTime` methods.

use m1_eval::builtins::unix_time::{call, decompose, implements, Civil};
use m1_eval::env::Env;
use m1_eval::error::EvalError;
use m1_eval::float::binary32::F32;
use m1_eval::value::{M1Scalar, Value};
use time::{Date, Month, PrimitiveDateTime, Time};

/// The binary32 number that the host writes as given.
fn single(x: f32) -> F32 {
    F32::from_bits(x.to_bits())
}

/// A script number.
fn mf(x: f32) -> Value {
    Value::m1_float(single(x))
}


fn integer(value: Value) -> i32 {
    match value {
        Value::M1(M1Scalar::Integer(value)) => value,
        other => panic!("expected Integer, got {other:?}"),
    }
}

fn invoke(method: &str, args: &[Value], env: &mut Env) -> Result<Value, EvalError> {
    call(method, args, env)
}

fn from_utc(parts: [i32; 6]) -> Result<i32, EvalError> {
    let mut env = Env::new();
    let args = parts.map(Value::m1_integer);
    invoke("FromUtc", &args, &mut env).map(integer)
}

#[test]
fn implementation_table_matches_the_catalogue_exactly() {
    let catalogued = [
        "FromGPS", "FromLocal", "FromUtc", "Timezone", "ToLocalDay", "ToLocalHour",
        "ToLocalMinute", "ToLocalMonth", "ToLocalSecond", "ToLocalWeekDay", "ToLocalYear",
        "ToLocalYearDay", "ToUtcDay", "ToUtcHour", "ToUtcMinute", "ToUtcMonth", "ToUtcSecond",
        "ToUtcWeekDay", "ToUtcYear", "ToUtcYearDay",
    ];
    assert_eq!(catalogued.len(), 20, "duplicate implementation entries");
    for method in catalogued {
        assert!(implements(method), "{method}");
    }
    for method in ["FromUTC", "ToUtc", "Now", ""] {
        assert!(!implements(method), "{method}");
    }
}

#[test]
fn independent_epoch_leap_and_signed_maximum_vectors() {
    for (parts, expected) in [
        ([1970, 0, 1, 0, 0, 0], 0),
        ([1970, 0, 2, 0, 0, 0], 86_400),
        ([2000, 1, 29, 12, 34, 56], 951_827_696),
        ([2038, 0, 19, 3, 14, 7], i32::MAX),
    ] {
        assert_eq!(from_utc(parts).unwrap(), expected, "parts={parts:?}");
    }
}

#[test]
fn utc_decomposition_covers_every_catalogued_component() {
    let mut env = Env::new();
    let unix = Value::m1_integer(from_utc([2004, 1, 29, 12, 34, 56]).unwrap());
    for (method, expected) in [
        ("ToUtcYear", 2004),
        ("ToUtcMonth", 1),
        ("ToUtcDay", 29),
        ("ToUtcHour", 12),
        ("ToUtcMinute", 34),
        ("ToUtcSecond", 56),
        ("ToUtcWeekDay", 0),
        ("ToUtcYearDay", 59),
    ] {
        assert_eq!(
            integer(invoke(method, std::slice::from_ref(&unix), &mut env).unwrap()),
            expected
        );
    }
}

#[test]
fn local_decomposition_uses_fixed_offset_across_day_and_year_boundaries() {
    let mut env = Env::new();
    assert_eq!(
        invoke("Timezone", &[Value::m1_integer(530)], &mut env).unwrap(),
        Value::Bool(true)
    );
    let unix = Value::m1_integer(from_utc([1999, 11, 31, 20, 0, 1]).unwrap());
    for (method, expected) in [
        ("ToLocalYear", 2000),
        ("ToLocalMonth", 0),
        ("ToLocalDay", 1),
        ("ToLocalHour", 1),
        ("ToLocalMinute", 30),
        ("ToLocalSecond", 1),
        ("ToLocalWeekDay", 6),
        ("ToLocalYearDay", 0),
    ] {
        assert_eq!(
            integer(invoke(method, std::slice::from_ref(&unix), &mut env).unwrap()),
            expected
        );
    }
    let local_args = [2000, 0, 1, 1, 30, 1].map(Value::m1_integer);
    assert_eq!(
        integer(invoke("FromLocal", &local_args, &mut env).unwrap()),
        integer(unix)
    );
}

#[test]
fn timezone_encodings_persist_and_fresh_env_resets_to_utc() {
    for (encoded, seconds) in [
        (0, 0),
        (10, 36_000),
        (-5, -18_000),
        (530, 19_800),
        (-930, -34_200),
        (1245, 45_900),
        (1445, 53_100),
    ] {
        let mut env = Env::new();
        invoke("Timezone", &[Value::m1_integer(encoded)], &mut env).unwrap();
        assert_eq!(env.unix_timezone_offset_seconds, seconds);
    }
    assert_eq!(Env::new().unix_timezone_offset_seconds, 0);
}

#[test]
fn invalid_timezone_does_not_replace_previous_state() {
    let mut env = Env::new();
    invoke("Timezone", &[Value::m1_integer(10)], &mut env).unwrap();
    for invalid in [1260, -1260, 1446, -1246, i32::MIN, i32::MAX] {
        assert!(invoke("Timezone", &[Value::m1_integer(invalid)], &mut env).is_err());
        assert_eq!(env.unix_timezone_offset_seconds, 36_000);
    }
}

#[test]
fn gps_date_pivot_and_fractional_seconds_are_explicit() {
    let mut env = Env::new();
    for (date, seconds, expected) in [
        (1_0170, 0.0, 0),
        (29_0204, 45_296.75, 1_078_058_096),
        (19_0138, 11_647.99, i32::MAX),
    ] {
        let actual = invoke(
            "FromGPS",
            &[Value::m1_unsigned(date), mf(seconds)],
            &mut env,
        )
        .unwrap();
        assert_eq!(integer(actual), expected, "date={date:06}, seconds={seconds}");
    }
    for date in [1_0139, 31_1269] {
        assert!(
            invoke(
                "FromGPS",
                &[Value::m1_unsigned(date), mf(0.0)],
                &mut env,
            )
            .is_err()
        );
    }
}

#[test]
fn leap_seconds_normalize_and_invalid_components_fail_loud() {
    assert_eq!(
        from_utc([1998, 11, 31, 23, 59, 60]).unwrap(),
        from_utc([1999, 0, 1, 0, 0, 0]).unwrap()
    );
    assert_eq!(
        from_utc([1998, 11, 31, 23, 59, 61]).unwrap(),
        from_utc([1999, 0, 1, 0, 0, 1]).unwrap()
    );
    for parts in [
        [1969, 0, 1, 0, 0, 0],
        [2039, 0, 1, 0, 0, 0],
        [2001, 1, 29, 0, 0, 0],
        [2000, 12, 1, 0, 0, 0],
        [2000, 0, 1, 24, 0, 0],
        [2000, 0, 1, 0, 60, 0],
        [2000, 0, 1, 0, 0, 62],
    ] {
        assert!(from_utc(parts).is_err(), "parts={parts:?}");
    }
    assert!(from_utc([2038, 0, 19, 3, 14, 8]).is_err());
}

#[test]
fn argument_families_are_strict() {
    let mut env = Env::new();
    assert!(matches!(
        invoke("ToUtcYear", &[Value::m1_unsigned(0)], &mut env),
        Err(EvalError::BadCall { .. })
    ));
    assert!(matches!(
        invoke(
            "FromGPS",
            &[Value::m1_integer(1_0170), mf(0.0)],
            &mut env,
        ),
        Err(EvalError::BadCall { .. })
    ));
    assert!(matches!(
        invoke(
            "FromGPS",
            &[Value::m1_unsigned(1_0170), mf(f32::NAN)],
            &mut env,
        ),
        Err(EvalError::BadCall { .. })
    ));
}

#[test]
fn every_supported_day_round_trips_and_matches_independent_time_crate() {
    let mut days = 0_i32;
    while i64::from(days) * 86_400 <= i64::from(i32::MAX) {
        let ours = days * 86_400;
        let civil = decompose(ours, 0);
        let (year, month, day) = (civil.year, civil.month, civil.day);
        let new_year = from_utc([year, 0, 1, 0, 0, 0]).unwrap() / 86_400;
        assert_eq!(from_utc([year, month, day, 0, 0, 0]).unwrap(), ours);
        assert_eq!(
            civil,
            Civil {
                year,
                month,
                day,
                hour: 0,
                minute: 0,
                second: 0,
                weekday: (days + 4).rem_euclid(7),
                year_day: days - new_year,
            }
        );
        let month_ref = Month::try_from(u8::try_from(month + 1).unwrap()).unwrap();
        let date_ref =
            Date::from_calendar_date(year, month_ref, u8::try_from(day).unwrap()).unwrap();
        let expected = PrimitiveDateTime::new(date_ref, Time::MIDNIGHT)
            .assume_utc()
            .unix_timestamp();
        assert_eq!(i64::from(ours), expected);
        days += 1;
    }
}

#[test]
fn signed_timestamp_extrema_decompose_without_host_clock_or_overflow() {
    assert_eq!(
        decompose(i32::MIN, 0),
        Civil {
            year: 1901,
            month: 11,
            day: 13,
            hour: 20,
            minute: 45,
            second: 52,
            weekday: 5,
            year_day: 346,
        }
    );
    assert_eq!(
        decompose(i32::MAX, 0),
        Civil {
            year: 2038,
            month: 0,
            day: 19,
            hour: 3,
            minute: 14,
            second: 7,
            weekday: 2,
            year_day: 18,
        }
    );
}
