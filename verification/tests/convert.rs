//! The `Convert` methods.

use m1_eval::builtins::convert::call;
use m1_eval::error::EvalError;
use m1_eval::float::binary32::F32;
use m1_eval::value::{FixedPoint7dps, M1Scalar, Value};

/// The binary32 number that the host writes as given.
fn single(x: f32) -> F32 {
    F32::from_bits(x.to_bits())
}

/// A script number.
fn mf(x: f32) -> Value {
    Value::m1_float(single(x))
}


fn fixed(raw: i32) -> Value {
    Value::M1(M1Scalar::FixedPoint7dps(FixedPoint7dps::from_raw(raw)))
}

fn ok(method: &str, args: &[Value]) -> Value {
    call(method, args).unwrap().unwrap()
}

#[test]
fn to_integer_rounds_to_nearest_with_ties_away_from_zero() {
    for (source, expected) in [
        (2.4, 2),
        (2.6, 3),
        (-2.4, -2),
        (-2.6, -3),
        (2.5, 3),
        (-2.5, -3),
        (0.0, 0),
    ] {
        assert_eq!(
            ok("ToInteger", &[mf(source)]),
            Value::m1_integer(expected),
            "failed to round {source}"
        );
    }
}

#[test]
fn to_integer_clamps_to_the_signed_range() {
    assert_eq!(
        ok("ToInteger", &[Value::m1_unsigned(u32::MAX)]),
        Value::m1_integer(i32::MAX)
    );
    assert_eq!(
        ok("ToInteger", &[mf(f32::MAX)]),
        Value::m1_integer(i32::MAX)
    );
    assert_eq!(
        ok("ToInteger", &[mf(-f32::MAX)]),
        Value::m1_integer(i32::MIN)
    );
    assert_eq!(
        ok("ToInteger", &[Value::m1_integer(i32::MIN)]),
        Value::m1_integer(i32::MIN)
    );
}

#[test]
fn to_unsigned_rounds_then_clamps_negative_values_to_zero() {
    assert_eq!(
        ok("ToUnsignedInteger", &[mf(3.6)]),
        Value::m1_unsigned(4)
    );
    assert_eq!(
        ok("ToUnsignedInteger", &[mf(3.5)]),
        Value::m1_unsigned(4)
    );
    for source in [-0.4, -0.5, -2.4, -2.5, -2.6] {
        assert_eq!(
            ok("ToUnsignedInteger", &[mf(source)]),
            Value::m1_unsigned(0),
            "negative source {source} must not become its magnitude"
        );
    }
    assert_eq!(
        ok("ToUnsignedInteger", &[Value::m1_integer(i32::MIN)]),
        Value::m1_unsigned(0)
    );
    assert_eq!(
        ok("ToUnsignedInteger", &[mf(f32::MAX)]),
        Value::m1_unsigned(u32::MAX)
    );
}

#[test]
fn fixed_point_arguments_round_exactly_without_binary_float() {
    for (raw, expected) in [
        (14_999_999, 1),
        (15_000_000, 2),
        (-14_999_999, -1),
        (-15_000_000, -2),
    ] {
        assert_eq!(ok("ToInteger", &[fixed(raw)]), Value::m1_integer(expected));
    }
    assert_eq!(
        ok("ToUnsignedInteger", &[fixed(-15_000_000)]),
        Value::m1_unsigned(0)
    );
}

#[test]
fn to_fixed_7dps_is_numeric_and_covers_its_integral_domain() {
    for (source, raw) in [
        (-214, -2_140_000_000),
        (-1, -10_000_000),
        (0, 0),
        (1, 10_000_000),
        (214, 2_140_000_000),
    ] {
        assert_eq!(ok("ToFixed7DP", &[Value::m1_integer(source)]), fixed(raw));
    }
    assert_eq!(
        ok("ToFixed7DP", &[Value::m1_unsigned(214)]),
        fixed(2_140_000_000)
    );
}

#[test]
fn to_fixed_7dps_rejects_one_beyond_each_integral_boundary() {
    for argument in [Value::m1_integer(-215), Value::m1_integer(215)] {
        match call("ToFixed7DP", &[argument]) {
            Err(EvalError::TypeError { detail }) => {
                assert!(detail.contains("between -214 and 214"), "{detail}");
            }
            other => panic!("expected fixed-point range error, got {other:?}"),
        }
    }
    assert!(matches!(
        call("ToFixed7DP", &[Value::m1_unsigned(215)]),
        Err(EvalError::TypeError { .. })
    ));
}

#[test]
fn invalid_conversion_inputs_fail_loud() {
    assert!(matches!(
        call("ToInteger", &[mf(f32::NAN)]),
        Err(EvalError::TypeError { .. })
    ));
    assert!(matches!(
        call("ToFixed7DP", &[mf(1.0)]),
        Err(EvalError::TypeError { .. })
    ));
    assert!(matches!(
        call("ToInteger", &[Value::Str("x".into())]),
        Err(EvalError::TypeError { .. })
    ));
}

#[test]
fn convert_unimplemented_method_returns_none() {
    assert!(call("NotAMethod", &[]).unwrap().is_none());
}

#[test]
fn whole_numbers_come_back_from_fixed_point() {
    for n in -214..=214 {
        let stored = ok("ToFixed7DP", &[Value::m1_integer(n)]);
        assert_eq!(ok("ToInteger", &[stored]), Value::m1_integer(n));
    }
}
