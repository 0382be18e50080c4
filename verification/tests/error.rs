//! The errors.

use m1_eval::error::EvalError;
use m1_eval::float::binary64::F64;

/// The binary64 number that the host writes as given.
fn double(x: f64) -> F64 {
    F64::from_bits(x.to_bits())
}


#[test]
fn in_script_displays_tick_time_and_inner_error() {
    let err = EvalError::TypeError {
        detail: "division or modulo by zero".to_string(),
    }
    .in_script("ECU.Update.m1scr", Some(double(0.125)));
    assert_eq!(
        err.to_text(),
        "in ECU.Update.m1scr at t = 0.125 s: type error: division or modulo by zero"
    );
}

#[test]
fn root_cause_looks_through_the_context_layer() {
    let inner = EvalError::MissingInput {
        channel: "Root.Demo.Speed".to_string(),
    };
    let wrapped = inner.duplicate().in_script("Demo.Update.m1scr", Some(double(0.0)));
    assert_eq!(wrapped.root_cause(), &inner);
    // An unwrapped error is its own root cause.
    assert_eq!(inner.root_cause(), &inner);
}

#[test]
fn outer_boundary_preserves_deeper_script_context() {
    let inner = EvalError::TypeError {
        detail: "bad operand".to_string(),
    }
    .in_script("Helper.Compute.m1scr", Some(double(0.25)));
    let outer = inner.duplicate().in_script("Caller.Update.m1scr", Some(double(0.25)));
    assert_eq!(
        outer, inner,
        "the deepest failing script remains authoritative"
    );
}

#[test]
fn in_script_displays_startup_phase_when_no_tick_is_open() {
    let err = EvalError::MissingInput {
        channel: "Root.Demo.Speed".to_string(),
    }
    .in_script("MR.Init.m1scr", None);
    assert_eq!(
        err.to_text(),
        "in MR.Init.m1scr at startup: missing scenario input: Root.Demo.Speed"
    );
}

#[test]
fn known_missing_builtin_behavior_names_the_evidence_gap() {
    let err = EvalError::UnsupportedBuiltinBehavior {
        object: "MPSE".to_string(),
        method: "Solve".to_string(),
        reason: "the captured integration equation is unavailable".to_string(),
    };
    assert_eq!(
        err.to_text(),
        "unsupported builtin behavior: MPSE.Solve: the captured integration equation is unavailable"
    );
}
