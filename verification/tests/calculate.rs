//! The `Calculate` methods.

use m1_eval::builtins::calculate::{call, HostMath, Outcome};
use m1_eval::error::EvalError;
use m1_eval::float::binary32::F32;
use m1_eval::value::{FixedPoint7dps, M1Scalar, Value};

/// The binary32 number that the host writes as given.
fn single(x: f32) -> F32 {
    F32::from_bits(x.to_bits())
}

/// A script number.
fn mf(x: f32) -> Value {
    Value::m1_float(single(x))
}


/// The answer of the host's mathematical library.
fn host(question: HostMath) -> F32 {
    let f = |x: F32| f32::from_bits(x.to_bits());
    single(match question {
        HostMath::Power(x, y) => f(x).powf(f(y)),
        HostMath::Sin(x) => f(x).sin(),
        HostMath::Cos(x) => f(x).cos(),
        HostMath::Tan(x) => f(x).tan(),
        HostMath::InverseSin(x) => f(x).asin(),
        HostMath::InverseCos(x) => f(x).acos(),
        HostMath::InverseTan(x) => f(x).atan(),
        HostMath::InverseTan2(y, x) => f(y).atan2(f(x)),
    })
}

fn ok(method: &str, args: &[Value]) -> Value {
    match call(method, args).unwrap().unwrap() {
        Outcome::Known(value) => value,
        Outcome::Host(question) => question.finish(host(question)),
    }
}

#[test]
fn max_and_min_preserve_m1_numeric_families() {
    assert_eq!(
        ok("Max", &[Value::m1_integer(2), Value::m1_integer(3)]),
        Value::m1_integer(3)
    );
    assert_eq!(
        ok("Min", &[Value::m1_integer(2), Value::m1_integer(3)]),
        Value::m1_integer(2)
    );
    assert_eq!(
        ok("Max", &[Value::m1_integer(2), mf(3.5)]),
        mf(3.5)
    );
    assert_eq!(
        ok("Min", &[Value::m1_integer(2), mf(3.5)]),
        mf(2.0)
    );
    assert_eq!(
        ok("Max", &[Value::m1_unsigned(2), Value::m1_unsigned(9)]),
        Value::m1_unsigned(9)
    );
}

#[test]
fn modulo_uses_m1_width_and_fails_on_zero() {
    assert_eq!(
        ok("Modulo", &[Value::m1_integer(7), Value::m1_integer(3)]),
        Value::m1_integer(1)
    );
    assert_eq!(
        ok("Modulo", &[mf(7.5), mf(2.0)]),
        mf(1.5)
    );
    assert!(matches!(
        call("Modulo", &[Value::m1_integer(1), Value::m1_integer(0)]),
        Err(EvalError::TypeError { .. })
    ));
}

#[test]
fn bias_matches_minimum_average_and_maximum_across_signs() {
    for (left, right) in [
        (10.0_f32, 20.0_f32),
        (-20.0_f32, -10.0_f32),
        (-10.0_f32, 20.0_f32),
    ] {
        let low = left.min(right);
        let high = left.max(right);
        assert_eq!(
            ok(
                "Bias",
                &[
                    mf(left),
                    mf(right),
                    mf(-1.0),
                ],
            ),
            mf(low)
        );
        assert_eq!(
            ok(
                "Bias",
                &[
                    mf(left),
                    mf(right),
                    mf(0.0),
                ],
            ),
            mf(left * 0.5 + right * 0.5)
        );
        assert_eq!(
            ok(
                "Bias",
                &[
                    mf(left),
                    mf(right),
                    mf(1.0),
                ],
            ),
            mf(high)
        );
    }

    assert_eq!(
        ok(
            "Bias",
            &[
                Value::m1_integer(0),
                Value::m1_integer(0),
                mf(0.75),
            ],
        ),
        mf(0.0)
    );
    // Reversing the arguments must not reverse the meaning of the bias.
    assert_eq!(
        ok(
            "Bias",
            &[
                mf(20.0),
                mf(10.0),
                mf(-0.5),
            ],
        ),
        mf(12.5)
    );

    for (left, right) in [(f32::MAX, -f32::MAX), (-f32::MAX, f32::MAX)] {
        for (bias, expected) in [(-1.0, -f32::MAX), (0.0, 0.0), (1.0, f32::MAX)] {
            assert_eq!(
                ok(
                    "Bias",
                    &[
                        mf(left),
                        mf(right),
                        mf(bias),
                    ],
                ),
                mf(expected),
                "failed finite Bias anchor {bias} for {left}, {right}",
            );
        }
    }
}

#[test]
fn average_returns_the_selected_overload_type() {
    assert_eq!(
        ok("Average", &[Value::m1_integer(2), Value::m1_integer(4)]),
        Value::m1_integer(3)
    );
    assert_eq!(
        ok("Average", &[Value::m1_integer(1), Value::m1_integer(2)]),
        Value::m1_integer(1)
    );
    assert_eq!(
        ok("Average", &[Value::m1_integer(-1), Value::m1_integer(-2)]),
        Value::m1_integer(-1)
    );
    assert_eq!(
        ok("Average", &[Value::m1_unsigned(1), Value::m1_unsigned(2)]),
        Value::m1_unsigned(1)
    );
    assert_eq!(
        ok("Average", &[mf(10.0), mf(20.0)]),
        mf(15.0)
    );
    assert_eq!(
        ok("Average", &[mf(1.0), mf(2.0)]),
        mf(1.5)
    );
    assert_eq!(
        ok(
            "Average",
            &[Value::m1_integer(i32::MAX), Value::m1_integer(i32::MAX)]
        ),
        Value::m1_integer(i32::MAX)
    );
    assert_eq!(
        ok(
            "Average",
            &[Value::m1_unsigned(u32::MAX), Value::m1_unsigned(u32::MAX),]
        ),
        Value::m1_unsigned(u32::MAX)
    );

    for value in [f32::from_bits(1), -f32::from_bits(1)] {
        assert_eq!(
            ok("Average", &[mf(value), mf(value)]),
            mf(value),
            "the average of two identical subnormals must preserve the input",
        );
        assert_eq!(
            ok(
                "Bias",
                &[
                    mf(value),
                    mf(value),
                    mf(0.0),
                ],
            ),
            mf(value),
            "zero Bias of identical subnormals must preserve their average",
        );
    }
}

#[test]
fn constants_use_binary32() {
    assert_eq!(ok("PI", &[]), mf(std::f32::consts::PI));
    assert_eq!(ok("Infinity", &[]), mf(f32::INFINITY));
    assert_eq!(ok("MaximumFloat", &[]), mf(f32::MAX));
    assert!(matches!(
        ok("NAN", &[]),
        Value::M1(M1Scalar::FloatingPoint(value)) if value.is_nan()
    ));
}

#[test]
fn unary_and_power_functions_return_binary32() {
    assert_eq!(ok("Floor", &[mf(2.7)]), mf(2.0));
    assert_eq!(ok("Ceiling", &[mf(2.1)]), mf(3.0));
    assert_eq!(
        ok("Power", &[mf(2.0), mf(10.0)]),
        mf(1024.0)
    );
    assert_eq!(
        ok("FastSquareRoot", &[mf(16.0)]),
        mf(4.0)
    );
    assert_eq!(ok("Floor", &[Value::m1_integer(5)]), mf(5.0));
}

#[test]
fn predicates_classify_binary32_values() {
    assert_eq!(ok("IsNAN", &[mf(f32::NAN)]), Value::Bool(true));
    assert_eq!(ok("IsFinite", &[mf(1.0)]), Value::Bool(true));
    assert_eq!(
        ok("IsFinite", &[mf(f32::INFINITY)]),
        Value::Bool(false)
    );
}

#[test]
fn trig_functions_use_binary32_results() {
    assert_eq!(
        ok("FastSin", &[mf(0.0)]),
        mf(0.0_f32.sin())
    );
    assert_eq!(
        ok("FastCos", &[mf(0.0)]),
        mf(0.0_f32.cos())
    );
    assert_eq!(
        ok("InverseTan2", &[mf(1.0), mf(1.0)]),
        mf(std::f32::consts::FRAC_PI_4)
    );
    assert_eq!(
        ok("InverseSin", &[mf(1.0)]),
        mf(std::f32::consts::FRAC_PI_2)
    );
}

#[test]
fn absolute_preserves_integral_or_float_overload() {
    assert_eq!(
        ok("Absolute", &[Value::m1_integer(-3)]),
        Value::m1_integer(3)
    );
    assert_eq!(
        ok("Absolute", &[Value::m1_unsigned(7)]),
        Value::m1_unsigned(7)
    );
    assert_eq!(
        ok("Absolute", &[mf(-2.5)]),
        mf(2.5)
    );
    assert_eq!(
        ok(
            "Absolute",
            &[Value::M1(M1Scalar::FixedPoint7dps(
                FixedPoint7dps::from_raw(-12_500_000),
            ))],
        ),
        mf(1.25)
    );
    match call("Absolute", &[Value::m1_integer(i32::MIN)]) {
        Err(EvalError::TypeError { detail }) => {
            assert!(detail.contains("outside the M1 Integer range"), "{detail}");
        }
        other => panic!("minimum M1 Integer magnitude must fail loud, got {other:?}"),
    }
}

#[test]
fn rejects_legacy_numeric_arguments() {
    assert!(matches!(
        call("Average", &[Value::Int(1), Value::Int(2)]),
        Err(EvalError::TypeError { .. })
    ));
}

#[test]
fn calculate_unimplemented_method_returns_none() {
    assert!(
        call("Stable", &[mf(1.0), mf(0.1)])
            .unwrap()
            .is_none()
    );
    assert!(call("NotAMethod", &[]).unwrap().is_none());
}

#[test]
fn remainders_have_the_sign_of_the_dividend() {
    for (a, b, r) in [(7, -3, 1), (-7, 3, -1), (-7, -3, -1), (i32::MIN, -1, 0), (6, 3, 0)] {
        assert_eq!(
            ok("Modulo", &[Value::m1_integer(a), Value::m1_integer(b)]),
            Value::m1_integer(r),
            "{a} % {b}"
        );
    }
}
