//! Differences between a log and a run.

use m1_eval::diff::Diff;
use m1_eval::float::binary64::F64;
use m1_eval::log::{InputKind, InputSeries, Log, LogMeta};
use m1_eval::map::TextMap;
use m1_eval::trace::Trace;
use m1_eval::value::Value;

/// The binary64 number that the host writes as given.
fn double(x: f64) -> F64 {
    F64::from_bits(x.to_bits())
}


/// A log with two constant channels (Sensor=10, Mid=25) over [0, 1] s.
fn two_channel_log() -> Log {
    Log {
        channels: vec![
            InputSeries {
                channel: "Root.CF.Sensor".to_string(),
                kind: InputKind::Series(vec![
                    (double(0.0), Value::Float(double(10.0))),
                    (double(1.0), Value::Float(double(10.0))),
                ]),
            },
            InputSeries {
                channel: "Root.CF.Mid".to_string(),
                kind: InputKind::Series(vec![
                    (double(0.0), Value::Float(double(25.0))),
                    (double(1.0), Value::Float(double(25.0))),
                ]),
            },
        ],
        meta: no_meta(),
    }
}

fn no_meta() -> LogMeta {
    LogMeta {
        source: String::new(),
        units: TextMap::new(),
    }
}

fn trace_with(cols: &[(&str, &[f64])], time: &[f64]) -> Trace {
    let mut t = Trace::new();
    for &ti in time {
        t.push_tick(double(ti));
    }
    for (path, vals) in cols {
        for v in *vals {
            t.record_channel(path, Value::Float(double(*v)));
        }
    }
    t
}

fn doubles(values: &[f64]) -> Vec<F64> {
    values.iter().map(|&x| double(x)).collect()
}

#[test]
fn identity_trace_has_no_changed_channels() {
    // The no-op invariant at the unit level: a counterfactual trace equal to the
    // logged values produces an empty change set.
    let log = two_channel_log();
    let trace = trace_with(
        &[
            ("Root.CF.Sensor", &[10.0, 10.0]),
            ("Root.CF.Mid", &[25.0, 25.0]),
        ],
        &[0.0, 1.0],
    );
    let diff = Diff::between(&log, &trace);
    assert!(
        diff.changed_channels().is_empty(),
        "no-op must not flag changes"
    );
    assert_eq!(diff.channels.get("Root.CF.Mid").unwrap().max_abs_delta, double(0.0));
    assert_eq!(diff.channels.get("Root.CF.Mid").unwrap().delta, doubles(&[0.0, 0.0]));
}

#[test]
fn divergent_channel_is_flagged_changed() {
    // Mid moved by +5 under the override; Sensor stayed at its logged value.
    let log = two_channel_log();
    let trace = trace_with(
        &[
            ("Root.CF.Sensor", &[10.0, 10.0]),
            ("Root.CF.Mid", &[30.0, 30.0]),
        ],
        &[0.0, 1.0],
    );
    let diff = Diff::between(&log, &trace);
    assert_eq!(diff.changed_channels(), vec!["Root.CF.Mid"]);
    let mid = diff.channels.get("Root.CF.Mid").unwrap();
    assert!(mid.changed);
    assert_eq!(mid.delta, doubles(&[5.0, 5.0]));
    assert_eq!(mid.max_abs_delta, double(5.0));
    // Sensor is unchanged.
    assert!(!diff.channels.get("Root.CF.Sensor").unwrap().changed);
}

#[test]
fn matches_log_by_root_stripped_and_leaf_name() {
    // The log wrote the bare leaf `Sensor`; the trace key is the canonical path.
    let log = Log {
        channels: vec![InputSeries {
            channel: "Sensor".to_string(),
            kind: InputKind::Series(vec![(double(0.0), Value::Float(double(1.0)))]),
        }],
        meta: no_meta(),
    };
    let trace = trace_with(&[("Root.CF.Sensor", &[3.0])], &[0.0]);
    let diff = Diff::between(&log, &trace);
    assert_eq!(diff.channels.get("Root.CF.Sensor").unwrap().delta, doubles(&[2.0]));
}

#[test]
fn finite_to_non_finite_divergence_is_changed() {
    // The counterfactual turned a finite logged value into NaN/Infinity. The
    // old max_abs_delta filtered non-finite deltas before folding, so the
    // channel reported UNCHANGED — the most alarming divergence read as "no
    // difference". A finite↔non-finite mismatch is a change, and the count
    // of such ticks is reported.
    let log = two_channel_log();
    let trace = trace_with(
        &[
            ("Root.CF.Sensor", &[10.0, f64::NAN]),
            ("Root.CF.Mid", &[25.0, f64::INFINITY]),
        ],
        &[0.0, 1.0],
    );
    let diff = Diff::between(&log, &trace);
    let sensor = diff.channels.get("Root.CF.Sensor").unwrap();
    assert!(sensor.changed, "finite→NaN must flag changed");
    assert_eq!(sensor.non_finite_mismatches, 1);
    let mid = diff.channels.get("Root.CF.Mid").unwrap();
    assert!(mid.changed, "finite→Inf must flag changed");
    assert_eq!(mid.non_finite_mismatches, 1);
    assert_eq!(
        diff.changed_channels(),
        vec!["Root.CF.Mid", "Root.CF.Sensor"]
    );
}

#[test]
fn ambiguous_leaf_fallback_is_rejected_and_reported() {
    // Two distinct trace channels (Root.A.Value, Root.B.Value) both
    // leaf-fall-back to the single logged series `Value`. Binding either one
    // silently would diff at least one of them against the wrong ground
    // truth: both are excluded from the numeric diff and reported as
    // ambiguous instead.
    let log = Log {
        channels: vec![InputSeries {
            channel: "Value".to_string(),
            kind: InputKind::Series(vec![(double(0.0), Value::Float(double(1.0)))]),
        }],
        meta: no_meta(),
    };
    let trace = trace_with(
        &[("Root.A.Value", &[3.0]), ("Root.B.Value", &[4.0])],
        &[0.0],
    );
    let diff = Diff::between(&log, &trace);
    assert!(
        !diff.channels.contains("Root.A.Value")
            && !diff.channels.contains("Root.B.Value"),
        "ambiguously-matched channels must not be silently diffed"
    );
    assert_eq!(
        diff.ambiguous,
        vec!["Root.A.Value".to_string(), "Root.B.Value".to_string()],
        "the ambiguity is reported, not swallowed"
    );
}

#[test]
fn exact_match_wins_over_a_conflicting_fallback() {
    // The log carries `Value` exactly; the trace has BOTH a channel exactly
    // named `Value` and another whose leaf falls back to it. The exact match
    // keeps its binding; only the fallback claimant is ambiguous-excluded.
    let log = Log {
        channels: vec![InputSeries {
            channel: "Value".to_string(),
            kind: InputKind::Series(vec![(double(0.0), Value::Float(double(1.0)))]),
        }],
        meta: no_meta(),
    };
    let trace = trace_with(&[("Value", &[3.0]), ("Root.B.Value", &[4.0])], &[0.0]);
    let diff = Diff::between(&log, &trace);
    assert!(
        diff.channels.contains("Value"),
        "the exact match keeps its binding"
    );
    assert_eq!(diff.ambiguous, vec!["Root.B.Value".to_string()]);
}

#[test]
fn mapping_table_is_reported() {
    // Every bound trace-channel → log-channel pair is visible in the diff
    // metadata, so a reader can see exactly which series was compared.
    let log = Log {
        channels: vec![InputSeries {
            channel: "Sensor".to_string(),
            kind: InputKind::Series(vec![(double(0.0), Value::Float(double(1.0)))]),
        }],
        meta: no_meta(),
    };
    let trace = trace_with(&[("Root.CF.Sensor", &[3.0])], &[0.0]);
    let diff = Diff::between(&log, &trace);
    assert_eq!(
        diff.mapping.get("Root.CF.Sensor").map(String::as_str),
        Some("Sensor")
    );
}

#[test]
fn channel_absent_from_log_is_skipped() {
    // A purely-computed channel with no logged baseline is not in the diff.
    let log = two_channel_log();
    let trace = trace_with(&[("Root.CF.Computed", &[1.0, 2.0])], &[0.0, 1.0]);
    let diff = Diff::between(&log, &trace);
    assert!(!diff.channels.contains("Root.CF.Computed"));
}

#[test]
fn non_numeric_column_is_skipped() {
    // A boolean column has no numeric diff; it is skipped, not an error.
    let log = two_channel_log();
    let mut trace = Trace::new();
    trace.push_tick(double(0.0));
    trace.record_channel("Root.CF.Sensor", Value::Bool(true));
    let diff = Diff::between(&log, &trace);
    assert!(!diff.channels.contains("Root.CF.Sensor"));
}

#[test]
fn eps_threshold_controls_changed_flag() {
    // A tiny delta below eps is not "changed".
    let log = two_channel_log();
    let trace = trace_with(&[("Root.CF.Mid", &[25.0 + 1e-12, 25.0])], &[0.0, 1.0]);
    let diff = Diff::between(&log, &trace);
    assert!(!diff.channels.get("Root.CF.Mid").unwrap().changed, "1e-12 < DEFAULT_EPS");
}

#[test]
fn json_and_csv_render_deterministically() {
    let log = two_channel_log();
    let trace = trace_with(
        &[("Root.CF.Sensor", &[10.0]), ("Root.CF.Mid", &[30.0])],
        &[0.0],
    );
    let diff = Diff::between(&log, &trace);
    // JSON is stable and mentions both channels (sorted: Mid before Sensor).
    let json = diff.to_json();
    assert_eq!(json, diff.to_json());
    let mid = json.find("Root.CF.Mid").unwrap();
    let sensor = json.find("Root.CF.Sensor").unwrap();
    assert!(mid < sensor, "channels are sorted in the JSON");
    // CSV has a header row plus one data row.
    let csv = diff.to_csv();
    assert_eq!(csv.lines().count(), 2);
    assert!(csv.starts_with("time,"));
}

#[test]
fn a_delta_too_great_for_a_number_is_a_change() {
    let log = Log {
        channels: vec![InputSeries {
            channel: "Root.A".to_string(),
            kind: InputKind::Series(vec![(double(0.0), Value::Float(double(-f64::MAX)))]),
        }],
        meta: no_meta(),
    };
    let trace = trace_with(&[("Root.A", &[f64::MAX])], &[0.0]);
    let diff = Diff::between(&log, &trace);
    assert_eq!(diff.changed_channels(), vec!["Root.A"]);
    let channel = diff.channels.get("Root.A").expect("compared");
    assert_eq!(channel.max_abs_delta, double(f64::INFINITY));
    assert_eq!(channel.non_finite_mismatches, 0);
}

#[test]
fn a_run_that_repeats_the_log_changes_nothing_at_any_threshold() {
    let log = two_channel_log();
    let trace = trace_with(
        &[("Root.CF.Sensor", &[10.0, 10.0]), ("Root.CF.Mid", &[25.0, 25.0])],
        &[0.0, 0.5],
    );
    for eps in [0.0, 1e-300, 1.0] {
        let diff = Diff::between_eps(&log, &trace, double(eps));
        assert_eq!(diff.channels.len(), 2);
        assert!(diff.changed_channels().is_empty(), "{eps}");
    }
}
