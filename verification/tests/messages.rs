//! What the messages of errors say.

use m1_eval::builtins::object::ObjectRules;
use m1_eval::builtins::{calculate, convert, limit, unix_time};
use m1_eval::calib::Calibration;
use m1_eval::decimal::parse_single;
use m1_eval::coerce::{coerce_for_declared_type, coerce_for_scalar_kind};
use m1_eval::env::Env;
use m1_eval::error::EvalError;
use m1_eval::float::binary32::F32;
use m1_eval::float::binary64::F64;
use m1_eval::value::{
    show_value, FixedPoint7dps, M1Scalar, M1ScalarKind, Value, ValueType,
};

/// A script number.
fn mf(x: f32) -> Value {
    Value::m1_float(F32::from_bits(x.to_bits()))
}

fn fixed(raw: i32) -> Value {
    Value::M1(M1Scalar::FixedPoint7dps(FixedPoint7dps::from_raw(raw)))
}

fn detail<T: std::fmt::Debug>(result: Result<T, EvalError>) -> String {
    match result {
        Err(EvalError::BadCall { detail } | EvalError::TypeError { detail }) => detail,
        Err(EvalError::MissingCalibration { path }) => path,
        Err(EvalError::UnsupportedConstruct { kind, at: 0 }) => kind,
        other => panic!("expected an error with a message, got {other:?}"),
    }
}

#[test]
fn values_are_shown_as_their_debug_form() {
    for value in [
        Value::Bool(true),
        Value::Bool(false),
        Value::Int(i64::MIN),
        Value::Uint(u64::MAX),
        Value::Enum {
            id: 12,
            member: "a \"b\"\n".to_string(),
        },
        Value::Str("\u{1f}é".to_string()),
        Value::m1_integer(-7),
        Value::m1_unsigned(7),
        fixed(-15),
    ] {
        assert_eq!(show_value(&value), format!("{value:?}"));
    }
    for x in [-2.5_f32, 1.0, 1e20, 1e-7, f32::NAN, -f32::INFINITY] {
        assert_eq!(show_value(&mf(x)), format!("M1(FloatingPoint({x:?}))"));
        let wide = f64::from(x);
        let value = Value::Float(F64::from_bits(wide.to_bits()));
        assert_eq!(show_value(&value), format!("Float({wide:?})"));
    }
}

#[test]
fn unix_time_messages_name_the_method_and_the_value() {
    let mut env = Env::new();
    let mut from = |method: &str, args: &[Value]| detail(unix_time::call(method, args, &mut env));
    let utc = |parts: [i32; 6]| parts.map(Value::m1_integer);
    for (parts, message) in [
        ([1969, 0, 1, 0, 0, 0], "year must be in 1970..=2038, got 1969"),
        ([2000, 12, 1, 0, 0, 0], "month must be in 0..=11, got 12"),
        ([2001, 1, 29, 0, 0, 0], "day 29 is invalid for year 2001, month 1"),
        ([2000, 0, 1, -1, 0, 0], "hour must be in 0..=23, got -1"),
        ([2000, 0, 1, 0, 60, 0], "minute must be in 0..=59, got 60"),
        ([2000, 0, 1, 0, 0, 62], "second must be in 0..=61, got 62"),
        (
            [2038, 0, 19, 3, 14, 8],
            "date/time resolves to Unix timestamp 2147483648, outside the M1 Integer range",
        ),
    ] {
        assert_eq!(from("FromUtc", &utc(parts)), format!("UnixTime.FromUtc: {message}"));
        assert_eq!(from("FromLocal", &utc(parts)), format!("UnixTime.FromLocal: {message}"));
    }
    let mut mixed = utc([2000, 0, 1, 0, 0, 0]);
    mixed[4] = Value::Bool(true);
    assert_eq!(
        from("FromUtc", &mixed),
        "UnixTime.FromUtc: minute expects M1 Integer, got Bool(true)"
    );
    assert_eq!(
        from("FromGPS", &[Value::m1_integer(10170), mf(0.0)]),
        "UnixTime.FromGPS: date expects M1 UnsignedInteger, got M1(Integer(10170))"
    );
    assert_eq!(
        from("FromGPS", &[Value::m1_unsigned(1_000_000), mf(0.0)]),
        "UnixTime.FromGPS: date 1000000 is not a DDMMYY value"
    );
    // The date is looked at before the time.
    assert_eq!(
        from("FromGPS", &[Value::m1_unsigned(10_139), Value::Bool(true)]),
        "UnixTime.FromGPS: two-digit year 39 is outside 1970-2038"
    );
    assert_eq!(
        from("FromGPS", &[Value::m1_unsigned(10_170), Value::m1_integer(0)]),
        "UnixTime.FromGPS: time expects M1 FloatingPoint, got M1(Integer(0))"
    );
    assert_eq!(
        from("FromGPS", &[Value::m1_unsigned(10_170), mf(86_400.0)]),
        "UnixTime.FromGPS: UTC seconds since midnight must be finite and in [0, 86400), \
         got 86400.0"
    );
    assert_eq!(
        from("Timezone", &[Value::m1_integer(1500)]),
        "UnixTime.Timezone: offset must be an hour in -12..=14 or HHMM in -1245..=1445, got 1500"
    );
    assert_eq!(
        from("Timezone", &[Value::m1_integer(-160)]),
        "UnixTime.Timezone: HHMM minute field must be in 00..=59, got -160"
    );
    assert_eq!(
        from("Timezone", &[Value::m1_unsigned(1)]),
        "UnixTime.Timezone: hour expects M1 Integer, got M1(UnsignedInteger(1))"
    );
    assert_eq!(
        from("ToUtcYear", &[Value::m1_unsigned(0)]),
        "UnixTime.ToUtcYear: unix expects M1 Integer, got M1(UnsignedInteger(0))"
    );
}

#[test]
fn calculate_messages_name_the_operation_and_the_operands() {
    let calculate = |method: &str, args: &[Value]| detail(calculate::call(method, args));
    let pair = [Value::Bool(true), Value::m1_integer(2)];
    assert_eq!(
        calculate("Max", &pair),
        "Calculate.min/max requires numeric operands, got Bool(true), M1(Integer(2))"
    );
    assert_eq!(
        calculate("Average", &pair),
        "Calculate.Average requires numeric operands, got Bool(true), M1(Integer(2))"
    );
    assert_eq!(
        calculate("Modulo", &pair),
        "Calculate.Modulo requires numeric operands, got Bool(true), M1(Integer(2))"
    );
    let zero = [Value::m1_integer(1), Value::m1_integer(0)];
    assert_eq!(calculate("Modulo", &zero), "Calculate.Modulo by zero");
    assert_eq!(
        calculate("Absolute", &[Value::m1_integer(i32::MIN)]),
        "Calculate.Absolute(-2147483648) is outside the M1 Integer range"
    );
    assert_eq!(detail(limit::call("Max", &pair)), "Limit on non-numeric operands");
    assert_eq!(
        detail(limit::call("Range", &[mf(1.0), mf(2.0), Value::Bool(false)])),
        "Limit on non-numeric operands"
    );
}

#[test]
fn convert_messages_name_the_target_and_the_value() {
    let convert = |method: &str, value: Value| detail(convert::call(method, &[value]));
    assert_eq!(
        convert("ToInteger", mf(f32::NAN)),
        "NaN has no nearest M1 Integer value"
    );
    assert_eq!(
        convert("ToUnsignedInteger", mf(f32::NAN)),
        "NaN has no nearest M1 UnsignedInteger value"
    );
    assert_eq!(
        convert("ToFixed7DP", Value::m1_integer(-215)),
        "Convert.ToFixed7DP input -215 is outside the Fixed Point 7dps range; \
         integral inputs must be between -214 and 214"
    );
    assert_eq!(
        convert("ToFixed7DP", fixed(3)),
        "Convert.ToFixed7DP expects an M1 Integer or UnsignedInteger, \
         got FixedPoint7dps(FixedPoint7dps { raw: 3 })"
    );
}

#[test]
fn conversions_name_their_target() {
    assert_eq!(
        detail(coerce_for_scalar_kind("System.Ticks", mf(1.0), M1ScalarKind::Integer)),
        "System.Ticks expects M1 Integer, got M1(FloatingPoint(1.0))"
    );
    assert_eq!(
        detail(coerce_for_declared_type("Root.A", Value::m1_integer(1), ValueType::Boolean)),
        "Root.A expects a Boolean, got M1(Integer(1))"
    );
}

#[test]
fn calibration_messages_say_where_the_cell_stands() {
    let parameter = |cell: &str| {
        let xml = format!("<C><Parameter Name=\"Root.A.Gain\">{cell}</Parameter></C>");
        detail(Calibration::from_m1cfg_str(&xml))
    };
    assert_eq!(
        parameter("<Cell Type=\"u8\"> -1 </Cell>"),
        "calibration cell in Root.A.Gain does not fit M1 type u8: \"-1\""
    );
    assert_eq!(
        parameter("<Cell>one</Cell>"),
        "calibration cell in Root.A.Gain does not fit M1 type untyped-f32: \"one\""
    );
    assert_eq!(
        parameter("<Cell Type=\"c64\">1</Cell>"),
        "unsupported calibration cell type \"c64\" in Root.A.Gain"
    );
    let table = |part: &str, cell: &str| {
        let xml = format!(
            "<C><Table Name=\"Root.Map\"><{part}><Cells>{cell}</Cells></{part}></Table></C>"
        );
        detail(Calibration::from_m1cfg_str(&xml))
    };
    assert_eq!(
        table("Y", "<Cell>1</Cell><Cell Type=\"enum\">On</Cell>"),
        "non-numeric table cell in table Root.Map axis Y"
    );
    assert_eq!(
        table("Body", "<Cell Type=\"s8\">x</Cell>"),
        "calibration cell in table Root.Map body does not fit M1 type s8: \"x\""
    );
}

#[test]
fn rule_messages_tell_a_missing_bound_from_a_malformed_one() {
    let rule = |bounds: &str| {
        let xml = format!(
            "<P><Component Name=\"Root.A\"><Props Validation=\"MinMax\" {bounds}/></Component></P>"
        );
        detail(ObjectRules::from_project_xml(&xml))
    };
    for (bounds, message) in [
        ("ValMax=\"1\"", "MinMax is missing ValMin"),
        ("ValMin=\"0\"", "MinMax is missing ValMax"),
        ("ValMin=\"low\" ValMax=\"1\"", "ValMin is not a number"),
        ("ValMin=\"0\" ValMax=\"inf\"", "ValMax must be finite"),
        ("ValMin=\"2.0\" ValMax=\"1.50\"", "ValMin 2 exceeds ValMax 1.5"),
    ] {
        assert_eq!(rule(bounds), format!("invalid validation rule on \"Root.A\": {message}"));
    }
}

/// Numbers of all sizes, and those whose neighbors or ties are hard to write.
fn hard_singles() -> Vec<f32> {
    let mut all = vec![
        0.0, -0.0, 1.0, -1.0, 0.1, 0.3, 1.5, 16_384.062_5, 16_384.187_5, 33_554_432.0, 9_999_999.0,
        1e-4, 9.999_999e-5, 1e16, 9.999_999e15, 1e10, 8.589_973e9, f32::MIN_POSITIVE, f32::MAX,
        f32::INFINITY, f32::NEG_INFINITY, f32::NAN, 1e-45, 3.4e-45, 1.175_494_2e-38,
    ];
    let mut seed: u32 = 0x1234_5678;
    for _ in 0..400 {
        seed ^= seed << 13;
        seed ^= seed >> 17;
        seed ^= seed << 5;
        all.push(f32::from_bits(seed));
    }
    for power in -126..128 {
        all.push(2_f32.powi(power));
    }
    for odd in 0..64 {
        all.push(16_384.0 + (2 * odd + 1) as f32 / 16.0);
    }
    all
}

#[test]
fn singles_are_written_as_the_host_writes_them() {
    for x in hard_singles() {
        let number = F32::from_bits(x.to_bits());
        assert_eq!(number.to_text(), format!("{x}"), "{:#x}", x.to_bits());
        assert_eq!(number.to_full_text(), format!("{x:?}"), "{:#x}", x.to_bits());
    }
}

#[test]
fn doubles_are_written_as_the_host_writes_them() {
    let mut all = vec![
        0.0, -0.0, 0.1, 0.3, 2.0 / 3.0, 1e21, 1e22, 1e23, 9e15, 1e16, 1e-4, 9.999e-5, 5e-324,
        f64::MIN_POSITIVE, f64::MAX, f64::EPSILON, f64::INFINITY, f64::NAN, 123_456.789,
        9_007_199_254_740_993.0, 2.5, 0.000_5, 1.000_5, 0.002_5, 2_147_483_647.999_5,
    ];
    let mut seed: u64 = 0x1234_5678_9abc_def1;
    for _ in 0..60 {
        seed ^= seed << 13;
        seed ^= seed >> 7;
        seed ^= seed << 17;
        all.push(f64::from_bits(seed));
        all.push((seed % 1_000_000_007) as f64 / 4096.0);
    }
    for power in [-1022, -1000, -100, -31, -1, 0, 1, 52, 53, 54, 100, 500, 1023] {
        all.push(2_f64.powi(power));
    }
    for x in all {
        let number = F64::from_bits(x.to_bits());
        assert_eq!(number.to_text(), format!("{x}"), "{:#x}", x.to_bits());
        assert_eq!(number.to_full_text(), format!("{x:?}"), "{:#x}", x.to_bits());
        assert_eq!(number.to_thousandths_text(), format!("{x:.3}"), "{:#x}", x.to_bits());
    }
}

#[test]
fn written_numbers_read_back() {
    for x in hard_singles() {
        let number = F32::from_bits(x.to_bits());
        if number.is_finite() {
            assert_eq!(parse_single(&number.to_text()), Some(number));
        }
    }
}
