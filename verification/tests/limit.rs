//! The `Limit` methods.

use m1_eval::builtins::limit::call;
use m1_eval::float::binary32::F32;
use m1_eval::value::Value;

/// The binary32 number that the host writes as given.
fn single(x: f32) -> F32 {
    F32::from_bits(x.to_bits())
}

/// A script number.
fn mf(x: f32) -> Value {
    Value::m1_float(single(x))
}


fn ok(method: &str, args: &[Value]) -> Value {
    call(method, args).unwrap().unwrap()
}

#[test]
fn limit_max_caps_above() {
    assert_eq!(
        ok("Max", &[Value::m1_integer(8), Value::m1_integer(5)]),
        Value::m1_integer(5)
    );
    assert_eq!(
        ok("Max", &[Value::m1_integer(3), Value::m1_integer(5)]),
        Value::m1_integer(3)
    );
}

#[test]
fn limit_min_floors_below() {
    assert_eq!(
        ok("Min", &[Value::m1_integer(2), Value::m1_integer(5)]),
        Value::m1_integer(5)
    );
    assert_eq!(
        ok("Min", &[Value::m1_integer(8), Value::m1_integer(5)]),
        Value::m1_integer(8)
    );
}

#[test]
fn limit_range_clamps_both_ends() {
    assert_eq!(
        ok(
            "Range",
            &[
                mf(7.0),
                mf(0.0),
                mf(5.0)
            ]
        ),
        mf(5.0)
    );
    assert_eq!(
        ok(
            "Range",
            &[
                mf(-1.0),
                mf(0.0),
                mf(5.0)
            ]
        ),
        mf(0.0)
    );
    assert_eq!(
        ok(
            "Range",
            &[
                mf(3.0),
                mf(0.0),
                mf(5.0)
            ]
        ),
        mf(3.0)
    );
    // All-integer range stays integral.
    assert_eq!(
        ok(
            "Range",
            &[
                Value::m1_integer(9),
                Value::m1_integer(0),
                Value::m1_integer(5)
            ]
        ),
        Value::m1_integer(5)
    );
}

#[test]
fn float_operand_promotes() {
    assert_eq!(
        ok("Max", &[Value::m1_integer(8), mf(5.0)]),
        mf(5.0)
    );
}

#[test]
fn limit_unimplemented_method_returns_none() {
    assert!(call("Nope", &[]).unwrap().is_none());
}
