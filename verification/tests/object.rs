//! Validation rules.

use m1_eval::builtins::object::{constrain_value, ObjectRules, ValidationRule};
use m1_eval::float::binary32::F32;
use m1_eval::float::binary64::F64;
use m1_eval::value::{FixedPoint7dps, M1Scalar, Value};

/// The binary32 number that the host writes as given.
fn single(x: f32) -> F32 {
    F32::from_bits(x.to_bits())
}

/// A script number.
fn mf(x: f32) -> Value {
    Value::m1_float(single(x))
}

/// The binary64 number that the host writes as given.
fn double(x: f64) -> F64 {
    F64::from_bits(x.to_bits())
}

/// One range.
fn rules(name: &str, min: f64, max: f64) -> ObjectRules {
    let mut rules = ObjectRules::empty();
    rules.validation.insert(
        name.to_string(),
        ValidationRule::MinMax {
            min: double(min),
            max: double(max),
        },
    );
    rules
}


#[test]
fn parses_min_max_positive_and_unknown_rules() {
    let rules = ObjectRules::from_project_xml(
        r#"<Project><Component Name="Root.Min"><Props Validation="MinMax" ValMin="-2" ValMax="3"/></Component><Component Name="Root.Positive"><Props Validation="Positive"/></Component><Component Name="Root.Future"><Props Validation="FutureRule"/></Component></Project>"#,
    )
    .unwrap();
    assert_eq!(
        rules.validation.get("Root.Min"),
        Some(&ValidationRule::MinMax {
            min: double(-2.0),
            max: double(3.0)
        })
    );
    assert_eq!(
        rules.validation.get("Root.Positive"),
        Some(&ValidationRule::NonNegative)
    );
    assert_eq!(
        rules.validation.get("Root.Future"),
        Some(&ValidationRule::Unsupported("FutureRule".to_string()))
    );
}

#[test]
fn malformed_min_max_rule_fails_with_the_object_path() {
    let error = ObjectRules::from_project_xml(
        r#"<Project><Component Name="Root.Bad"><Props Validation="MinMax" ValMin="4" ValMax="3"/></Component></Project>"#,
    )
    .unwrap_err();
    assert!(error.to_text().contains("Root.Bad"), "{error:?}");
    assert!(error.to_text().contains("exceeds"), "{error:?}");
}

#[test]
fn constrain_rejects_ranges_with_no_value_in_the_argument_family() {
    let cases = [
        (
            "signed",
            0.2,
            0.8,
            Value::m1_integer(-1),
            Value::m1_integer(2),
        ),
        (
            "unsigned",
            0.2,
            0.8,
            Value::m1_unsigned(0),
            Value::m1_unsigned(1),
        ),
        (
            "float",
            1.000_000_01,
            1.000_000_02,
            mf(1.0),
            mf(f32::from_bits(1.0f32.to_bits() + 1)),
        ),
        (
            "fixed",
            0.000_000_01,
            0.000_000_02,
            Value::M1(M1Scalar::FixedPoint7dps(FixedPoint7dps::from_raw(0))),
            Value::M1(M1Scalar::FixedPoint7dps(FixedPoint7dps::from_raw(1))),
        ),
    ];

    for (name, min, max, below, above) in cases {
        let rules = rules(name, min, max);
        for input in [below, above] {
            let error = constrain_value(name, name, input, &rules).unwrap_err();
            assert!(
                error.to_text().contains("has no value in M1"),
                "{name}: {error:?}"
            );
        }
    }
}

#[test]
fn fixed_bounds_preserve_exact_seven_decimal_places() {
    let lower_rules = rules("lower", 79.020_497_0,
                100.0);
    assert_eq!(
        constrain_value(
            "lower",
            "lower",
            Value::M1(M1Scalar::FixedPoint7dps(FixedPoint7dps::from_raw(0))),
            &lower_rules,
        )
        .unwrap(),
        Value::M1(M1Scalar::FixedPoint7dps(FixedPoint7dps::from_raw(
            790_204_970,
        )))
    );

    let upper_rules = rules("upper", 0.0,
                88.717_452_5);
    assert_eq!(
        constrain_value(
            "upper",
            "upper",
            Value::M1(M1Scalar::FixedPoint7dps(FixedPoint7dps::from_raw(
                1_000_000_000,
            ))),
            &upper_rules,
        )
        .unwrap(),
        Value::M1(M1Scalar::FixedPoint7dps(FixedPoint7dps::from_raw(
            887_174_525,
        )))
    );
}
