//! Overrides.

use m1_eval::counterfactual::Override;
use m1_eval::error::EvalError;
use m1_eval::float::binary64::F64;
use m1_eval::value::Value;

/// The binary64 number that the host writes as given.
fn double(x: f64) -> F64 {
    F64::from_bits(x.to_bits())
}


#[test]
fn const_integer_rhs_is_int_const() {
    // A bare integer literal -> Const(Value::Int), channel verbatim.
    let ov = Override::parse("Root.CF.Sensor=5").expect("parses");
    assert_eq!(
        ov,
        Override::Const {
            channel: "Root.CF.Sensor".to_string(),
            value: Value::Int(5),
        }
    );
    assert_eq!(ov.channel(), "Root.CF.Sensor");
}

#[test]
fn const_float_rhs_is_float_const() {
    // A literal with a decimal point -> Const(Value::Float).
    let ov = Override::parse("Root.CF.Sensor=5.0").expect("parses");
    assert_eq!(
        ov,
        Override::Const {
            channel: "Root.CF.Sensor".to_string(),
            value: Value::Float(double(5.0)),
        }
    );
}

#[test]
fn negative_and_scientific_numbers_are_const() {
    assert_eq!(
        Override::parse("X=-3").unwrap(),
        Override::Const {
            channel: "X".to_string(),
            value: Value::Int(-3),
        }
    );
    assert_eq!(
        Override::parse("X=1.5e3").unwrap(),
        Override::Const {
            channel: "X".to_string(),
            value: Value::Float(double(1500.0)),
        }
    );
}

#[test]
fn bool_rhs_is_bool_const() {
    assert_eq!(
        Override::parse("Enabled=true").unwrap(),
        Override::Const {
            channel: "Enabled".to_string(),
            value: Value::Bool(true),
        }
    );
    assert_eq!(
        Override::parse("Enabled=false").unwrap(),
        Override::Const {
            channel: "Enabled".to_string(),
            value: Value::Bool(false),
        }
    );
}

#[test]
fn channel_name_with_space_split_on_first_eq() {
    // The channel keeps its space; the split is on the first `=` only.
    let ov = Override::parse("Engine Speed=1000").expect("parses");
    assert_eq!(ov.channel(), "Engine Speed");
    assert_eq!(
        ov,
        Override::Const {
            channel: "Engine Speed".to_string(),
            value: Value::Int(1000),
        }
    );
}

#[test]
fn expr_rhs_is_verbatim_source() {
    // A non-literal RHS -> Expr, source stored verbatim (trimmed).
    let ov = Override::parse("Root.CF.Sensor=Logged * 1.05").expect("parses");
    assert_eq!(
        ov,
        Override::Expr {
            channel: "Root.CF.Sensor".to_string(),
            source: "Logged * 1.05".to_string(),
        }
    );
    assert_eq!(ov.channel(), "Root.CF.Sensor");
}

#[test]
fn expr_split_on_first_eq_only() {
    // Only the FIRST `=` splits: `Out` is the channel, `A = B` the source.
    let ov = Override::parse("Out=A = B").expect("parses");
    assert_eq!(
        ov,
        Override::Expr {
            channel: "Out".to_string(),
            source: "A = B".to_string(),
        }
    );
}

#[test]
fn whitespace_around_channel_and_rhs_is_trimmed() {
    let ov = Override::parse("  Engine Speed  =  Logged + 10  ").expect("parses");
    assert_eq!(
        ov,
        Override::Expr {
            channel: "Engine Speed".to_string(),
            source: "Logged + 10".to_string(),
        }
    );
}

#[test]
fn no_equals_fails_loud() {
    match Override::parse("nope") {
        Err(EvalError::UnsupportedConstruct { .. }) => {}
        other => panic!("expected UnsupportedConstruct for missing `=`, got {other:?}"),
    }
}

#[test]
fn empty_channel_fails_loud() {
    match Override::parse("=5") {
        Err(EvalError::UnsupportedConstruct { .. }) => {}
        other => panic!("expected UnsupportedConstruct for empty channel, got {other:?}"),
    }
}

#[test]
fn empty_rhs_fails_loud() {
    match Override::parse("Channel=") {
        Err(EvalError::UnsupportedConstruct { .. }) => {}
        other => panic!("expected UnsupportedConstruct for empty RHS, got {other:?}"),
    }
}

#[test]
fn non_finite_literal_words_fall_through_to_expr() {
    // `inf`/`nan` are not valid constant channel values; they are held as
    // expression source (and would fail loud at eval time), never a Const.
    let ov = Override::parse("X=inf").expect("parses");
    assert!(matches!(ov, Override::Expr { .. }));
    let ov = Override::parse("X=NaN").expect("parses");
    assert!(matches!(ov, Override::Expr { .. }));
}
