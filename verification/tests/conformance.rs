//! Golden-vector fixtures.

use m1_eval::conformance::bundle::{
    check_digest, resolve_bundle_part, script_entry, FileKind, ScriptEntry,
};
use m1_eval::conformance::replay::{
    compare_trace, plan_fixture, project_runtime_family, run_conformance_fixture, runtime_family,
    validate_project_bindings, RuntimeFamily,
};
use m1_eval::conformance::{
    compare_value, parse_tolerance, parse_wire_float, run_conformance_suite, ConformanceError,
    ConformanceFixture, ConformanceOptions, ConformanceReport, DefectKind, ExpectedChannelValue,
    FixtureChannelValue, FixtureProvenance, FixtureRun, FixtureRunMode, FixtureStep,
    ProjectBundle, ProjectFileHash, PathLabel, ProvenanceKind, Role, ValueTolerance,
    WireValue,
};
use m1_eval::error::EvalError;
use m1_eval::float::binary32::F32;
use m1_eval::float::binary64::F64;
use m1_eval::log::InputKind;
use m1_eval::map::TextMap;
use m1_eval::project::{EnumType, Project, Symbol, SymbolKind};
use m1_eval::scenario::RunMode;
use m1_eval::trace::Trace;
use m1_eval::value::{FixedPoint7dps, M1Scalar, Value, ValueType};

/// The binary64 number that the host writes as given.
fn double(x: f64) -> F64 {
    F64::from_bits(x.to_bits())
}

/// A script number.
fn mf(x: f32) -> Value {
    Value::m1_float(F32::from_bits(x.to_bits()))
}

fn float_tolerance(absolute: Option<&str>, relative: Option<&str>) -> Option<ValueTolerance> {
    Some(ValueTolerance::FloatingPoint {
        absolute: absolute.map(str::to_string),
        relative: relative.map(str::to_string),
    })
}

fn wire_float(text: &str) -> WireValue {
    WireValue::FloatingPoint {
        value: text.to_string(),
    }
}

fn value(channel: &str, value: WireValue) -> FixtureChannelValue {
    FixtureChannelValue {
        channel: channel.to_string(),
        value,
    }
}

fn expected(channel: &str, text: &str) -> ExpectedChannelValue {
    ExpectedChannelValue {
        channel: channel.to_string(),
        value: wire_float(text),
        tolerance: float_tolerance(Some("0.001"), None),
    }
}

/// A fixture of three ticks at a hundred ticks in a second.
fn fixture() -> ConformanceFixture {
    let step = |time_s: f64, inputs: Vec<FixtureChannelValue>| FixtureStep {
        time_s: double(time_s),
        inputs,
        expected: vec![expected("Root.Demo.Output", "50")],
    };
    ConformanceFixture {
        schema_version: 1,
        name: "mini".to_string(),
        project: ProjectBundle {
            root: ".".to_string(),
            project: "mini/Project.m1prj".to_string(),
            config: Some("mini/parameters.m1cfg".to_string()),
            files: Vec::new(),
        },
        provenance: FixtureProvenance {
            kind: ProvenanceKind::Synthetic,
            source: "derived by hand".to_string(),
            procedure: "multiplied out".to_string(),
            tool_version: None,
            captured_at_utc: None,
            notes: None,
        },
        run: FixtureRun {
            mode: FixtureRunMode::Function,
            target: Some("Demo.Update".to_string()),
        },
        calculation_rate_hz: double(100.0),
        initial_state: vec![value("Root.Demo.Gain", wire_float("2.5"))],
        steps: vec![
            step(0.0, vec![value("Root.Demo.Speed", wire_float("20"))]),
            step(0.01, vec![]),
            step(0.02, vec![value("Root.Demo.Gain", wire_float("3"))]),
        ],
        source_path: "/fixtures/mini.toml".to_string(),
    }
}

fn symbol(kind: SymbolKind, value_type: ValueType) -> Symbol {
    Symbol {
        kind,
        value_type,
        declared_type: None,
        classname: None,
        default_value: None,
        in_params: None,
        call_rate_hz: None,
        startup: None,
    }
}

fn project() -> Project {
    let mut symbols = TextMap::new();
    for name in ["Speed", "Gain", "Output"] {
        symbols.insert(
            format!("Root.Demo.{name}"),
            symbol(SymbolKind::Channel, ValueType::Float),
        );
    }
    symbols.insert(
        "Root.Demo.Mode".to_string(),
        symbol(SymbolKind::Channel, ValueType::Enum(0)),
    );
    symbols.insert(
        "Root.Demo.Limit".to_string(),
        symbol(SymbolKind::Parameter, ValueType::Float),
    );
    Project {
        symbols,
        enums: vec![EnumType {
            name: "Drive State".to_string(),
            members: vec![("Idle".to_string(), 0)],
        }],
        scripts: Vec::new(),
        names: Vec::new(),
    }
}

/// A run whose output is the given value on each tick.
fn run_of(outputs: &[f32]) -> Trace {
    let mut trace = Trace::new();
    for (tick, &output) in outputs.iter().enumerate() {
        trace.push_tick(double(tick as f64 / 100.0));
        trace.record_channel("Root.Demo.Output", mf(output));
    }
    trace
}

/// What a fixture is refused for.
fn refusal(fixture: &ConformanceFixture) -> (DefectKind, Option<usize>, String) {
    match fixture.validate_document() {
        Err(ConformanceError::InvalidFixture { defect, .. }) => {
            (defect.kind, defect.step, defect.name)
        }
        other => panic!("expected an invalid fixture, got {other:?}"),
    }
}

#[test]
fn comparison_rules_are_family_specific() {
    let absolute = float_tolerance(Some("0.01"), None);
    assert!(compare_value(&mf(1.0), &mf(1.005), &absolute).is_ok());
    assert!(compare_value(&mf(1.0), &mf(1.02), &absolute).is_err());
    assert!(compare_value(&Value::Bool(true), &Value::Bool(false), &None).is_err());
    assert!(compare_value(&Value::m1_integer(1), &Value::m1_integer(2), &None).is_err());
    assert!(compare_value(&Value::m1_unsigned(1), &Value::m1_integer(1), &None).is_err());

    let tolerance = Some(ValueTolerance::FixedPoint7dps { raw: 2 });
    let fixed = |raw| Value::M1(M1Scalar::FixedPoint7dps(FixedPoint7dps::from_raw(raw)));
    assert!(compare_value(&fixed(100), &fixed(102), &tolerance).is_ok());
    assert!(compare_value(&fixed(100), &fixed(103), &tolerance).is_err());
    assert_eq!(
        compare_value(&fixed(i32::MIN), &fixed(i32::MAX), &tolerance),
        Err("raw delta 4294967295 exceeds tolerance 2".to_string())
    );

    let relative = float_tolerance(None, Some("0.01"));
    assert!(compare_value(&mf(100.0), &mf(101.0), &relative).is_ok());
    assert!(compare_value(&mf(100.0), &mf(102.0), &relative).is_err());
}

#[test]
fn non_finite_floats_follow_explicit_rules() {
    let tolerance = float_tolerance(Some("1000"), Some("1000"));
    assert!(compare_value(&mf(f32::NAN), &mf(f32::NAN), &tolerance).is_ok());
    assert_eq!(
        compare_value(&mf(f32::INFINITY), &mf(f32::NEG_INFINITY), &tolerance),
        Err("expected Infinity, got -Infinity".to_string())
    );
    assert_eq!(
        compare_value(&mf(1.0), &mf(f32::NAN), &tolerance),
        Err("expected a finite value, got NaN".to_string())
    );
    assert_eq!(
        compare_value(&mf(f32::NAN), &mf(1.0), &tolerance),
        Err("expected NaN, but the actual value is not NaN".to_string())
    );
}

#[test]
fn finite_overflow_is_not_an_infinity_spelling() {
    assert!(parse_wire_float("Infinity").unwrap().is_infinite());
    assert_eq!(parse_wire_float("1e9999"), Err(DefectKind::DecimalRange));
    assert_eq!(
        parse_wire_float("-0").unwrap().to_bits(),
        (-0.0_f32).to_bits()
    );
    assert_eq!(parse_wire_float("one"), Err(DefectKind::NotDecimal));
    assert!(parse_wire_float(" -NaN ").unwrap().is_nan());
}

#[test]
fn m1_sim_provenance_spelling_is_stable() {
    let document: toml::Table = r#"
kind = "m1-sim"
source = "capture session"
procedure = "documented procedure"
tool_version = "1.2.3"
captured_at_utc = "2026-08-30T12:00:00Z"
"#
    .parse()
    .expect("m1-sim provenance parses");
    let kind = document["kind"].as_str().expect("a text");
    assert_eq!(ProvenanceKind::from_text(kind), Some(ProvenanceKind::M1Sim));
    assert_eq!(ProvenanceKind::M1Sim.to_text(), "m1-sim");
    assert_eq!(ProvenanceKind::Synthetic.to_text(), "synthetic");
    assert_eq!(ProvenanceKind::Independent.to_text(), "independent");
    for kind in ["synthetic", "independent", "m1-sim"] {
        assert_eq!(ProvenanceKind::from_text(kind).expect("a kind").to_text(), kind);
    }
    for other in ["M1Sim", "m1sim", "m1_sim", "Synthetic", ""] {
        assert_eq!(ProvenanceKind::from_text(other), None, "{other}");
    }
}

#[test]
fn sparse_trace_column_is_not_shifted_onto_the_first_tick() {
    let fixture = fixture();
    let mut trace = Trace::new();
    trace.push_tick(fixture.steps[0].time_s);
    trace.push_tick(fixture.steps[1].time_s);
    trace.record_channel("Root.Demo.Output", mf(50.0));
    trace.record_channel("Root.Demo.Output", mf(50.0));
    trace.push_tick(fixture.steps[2].time_s);
    trace.record_channel("Root.Demo.Output", mf(50.0));

    let error = compare_trace(&fixture, &project(), &trace)
        .expect_err("same-tick writes must not fill an earlier sparse tick");
    let ConformanceError::Mismatch(mismatch) = error else {
        panic!("expected mismatch, got {error:?}");
    };
    assert_eq!(mismatch.step, 0);
    assert_eq!(mismatch.actual, None);
    assert_eq!(mismatch.detail, "trace channel has no value aligned to this tick");
    assert_eq!(
        mismatch.expected,
        "floating-point(50) with absolute=0.001 relative=unset"
    );
}

#[test]
fn comparison_uses_the_final_channel_assignment_on_each_tick() {
    let fixture = fixture();
    let mut trace = Trace::new();
    for step in &fixture.steps {
        trace.push_tick(step.time_s);
        trace.record_channel("Root.Demo.Output", mf(-1.0));
        trace.record_channel("Root.Demo.Output", mf(50.0));
    }
    compare_trace(&fixture, &project(), &trace)
        .expect("the final assignment on every tick matches");
}

#[test]
fn values_without_their_tolerance_do_not_match() {
    assert_eq!(
        compare_value(&mf(1.0), &mf(1.0), &None),
        Err("missing floating-point tolerance".to_string())
    );
    assert_eq!(
        compare_value(&mf(1.0), &mf(1.0), &float_tolerance(Some("-1"), None)),
        Err(
            "invalid absolute tolerance: \"-1\" must be finite and non-negative".to_string()
        )
    );
    assert_eq!(
        compare_value(&mf(1.0), &mf(1.0), &float_tolerance(None, Some("wide"))),
        Err("invalid relative tolerance: \"wide\" is not a decimal number".to_string())
    );
    let zero = Value::M1(M1Scalar::FixedPoint7dps(FixedPoint7dps::from_raw(0)));
    assert_eq!(
        compare_value(&zero, &zero, &None),
        Err("missing fixed-point tolerance".to_string())
    );
    assert_eq!(
        compare_value(&mf(1.0), &mf(1.5), &float_tolerance(Some("0.25"), None)),
        Err("absolute delta 0.5 exceeds allowed error 0.25".to_string())
    );
    assert_eq!(
        compare_value(&Value::m1_unsigned(1), &mf(0.1), &None),
        Err(
            "runtime type differs, expected unsigned-integer(1), got floating-point(0.1)"
                .to_string()
        )
    );
    assert_eq!(parse_tolerance(" 0.25 "), Some(double(0.25)));
    assert_eq!(parse_tolerance("inf"), None);
}

#[test]
fn a_sound_document_is_accepted() {
    assert!(fixture().validate_document().is_ok());
}

#[test]
fn each_rule_of_the_document_is_enforced() {
    let broken = |change: &dyn Fn(&mut ConformanceFixture)| {
        let mut f = fixture();
        change(&mut f);
        refusal(&f)
    };
    let plain = |kind: DefectKind| (kind, None, String::new());
    assert_eq!(broken(&|f| f.schema_version = 2), plain(DefectKind::SchemaVersion(2)));
    assert_eq!(broken(&|f| f.name = " ".to_string()), plain(DefectKind::EmptyName));
    for rate in [0.0, -1.0, f64::NAN, f64::INFINITY] {
        assert_eq!(
            broken(&|f| f.calculation_rate_hz = double(rate)),
            plain(DefectKind::BadRate(double(rate)))
        );
    }
    assert_eq!(broken(&|f| f.run.target = None), plain(DefectKind::MissingTarget));
    assert_eq!(
        broken(&|f| f.run.mode = FixtureRunMode::WholeProject),
        plain(DefectKind::UnexpectedTarget)
    );
    assert_eq!(
        broken(&|f| f.provenance.procedure = String::new()),
        plain(DefectKind::EmptyProvenance)
    );
    assert_eq!(
        broken(&|f| f.provenance.kind = ProvenanceKind::M1Sim),
        (DefectKind::IncompleteCapture, None, "tool_version".to_string())
    );
    assert_eq!(broken(&|f| f.steps.clear()), plain(DefectKind::NoSteps));
    assert_eq!(
        broken(&|f| f.initial_state[0].channel = " ".to_string()).0,
        DefectKind::EmptyChannel(Role::Initial)
    );
    assert_eq!(
        broken(&|f| f.initial_state.push(value("Root.Demo.Gain", wire_float("1")))),
        (DefectKind::DuplicateInitial, None, "Root.Demo.Gain".to_string())
    );
    assert_eq!(
        broken(&|f| f.initial_state[0].value = wire_float("x")),
        (DefectKind::NotDecimal, None, "x".to_string())
    );
    assert_eq!(
        broken(&|f| f.initial_state[0].value = WireValue::Enum {
            enum_type: "Drive State".to_string(),
            member: "".to_string()
        })
        .0,
        DefectKind::EmptyEnum
    );
    assert_eq!(
        broken(&|f| f.steps[1].time_s = double(0.011)),
        (
            DefectKind::OffGrid {
                time_s: double(0.011),
                rate_hz: double(100.0),
                expected: double(0.01),
            },
            Some(1),
            String::new()
        )
    );
    assert_eq!(
        broken(&|f| f.steps[2].expected.clear()),
        (DefectKind::NothingExpected, Some(2), String::new())
    );
    assert_eq!(
        broken(&|f| f.steps[0].inputs.push(value("Root.Demo.Speed", wire_float("1")))),
        (DefectKind::DuplicateInput, Some(0), "Root.Demo.Speed".to_string())
    );
    assert_eq!(
        broken(&|f| f.steps[0].expected.push(expected("Root.Demo.Output", "1"))),
        (DefectKind::DuplicateExpected, Some(0), "Root.Demo.Output".to_string())
    );
    let output = "Root.Demo.Output".to_string();
    for (tolerance, kind) in [
        (float_tolerance(None, None), DefectKind::NoFloatBound),
        (None, DefectKind::NoFloatTolerance),
    ] {
        let mut f = fixture();
        f.steps[1].expected[0].tolerance = tolerance;
        assert_eq!(refusal(&f), (kind, Some(1), output.clone()));
    }
    for (tolerance, message) in [
        (
            float_tolerance(None, Some("much")),
            "has invalid relative tolerance: \"much\" is not a decimal number",
        ),
        (
            float_tolerance(Some("-1"), Some("much")),
            "has invalid absolute tolerance: \"-1\" must be finite and non-negative",
        ),
    ] {
        let mut f = fixture();
        f.steps[1].expected[0].tolerance = tolerance;
        let name = format!("\"Root.Demo.Output\" {message}");
        assert_eq!(refusal(&f), (DefectKind::BadBound, Some(1), name));
    }
    assert_eq!(
        broken(&|f| f.steps[0].expected[0].value = WireValue::FixedPoint7dps { raw: 1 }),
        (DefectKind::NoFixedTolerance, Some(0), output.clone())
    );
    assert_eq!(
        broken(&|f| f.steps[0].expected[0].value = WireValue::Boolean { value: true }),
        (DefectKind::NeedlessTolerance, Some(0), output.clone())
    );
    assert_eq!(
        broken(&|f| f.steps[1].expected[0].channel = "Root.Demo.Other".to_string()),
        (DefectKind::OutputsDiffer, Some(1), String::new())
    );
    // Of two late inputs the first by name is reported.
    assert_eq!(
        broken(&|f| {
            f.steps[1].inputs.push(value("Root.Z", wire_float("1")));
            f.steps[2].inputs.push(value("Root.A", wire_float("1")));
        }),
        (DefectKind::LateInput, Some(2), "Root.A".to_string())
    );
    assert_eq!(
        broken(&|f| f.steps[0].inputs.push(value("Root.Demo.Output", wire_float("1")))),
        (DefectKind::DrivenOutput, None, output)
    );
}

#[test]
fn a_nameless_fixture_is_known_by_its_file() {
    let mut f = fixture();
    f.name = String::new();
    match f.validate_document() {
        Err(ConformanceError::InvalidFixture { fixture, .. }) => {
            assert_eq!(fixture, "/fixtures/mini.toml")
        }
        other => panic!("expected an invalid fixture, got {other:?}"),
    }
}

#[test]
fn values_are_held_to_the_project() {
    let bound = |channel: &str, wire: WireValue| {
        let mut f = fixture();
        f.steps[0].inputs = vec![value(channel, wire)];
        match validate_project_bindings(&f, &project()) {
            Err(ConformanceError::InvalidFixture { defect, .. }) => Some(defect.kind),
            Ok(()) => None,
            other => panic!("expected an invalid fixture, got {other:?}"),
        }
    };
    let member = |enum_type: &str, member: &str| WireValue::Enum {
        enum_type: enum_type.to_string(),
        member: member.to_string(),
    };
    assert_eq!(bound("Root.Demo.Speed", wire_float("1")), None);
    assert_eq!(bound("Root.Demo.Mode", member("Drive State", "Idle")), None);
    assert_eq!(bound("Speed", wire_float("1")), Some(DefectKind::NoSymbol(Role::Input)));
    assert_eq!(
        bound("Root.Demo.Limit", wire_float("1")),
        Some(DefectKind::NotChannel(Role::Input, SymbolKind::Parameter))
    );
    assert_eq!(bound("Root.Demo.Mode", member("Other", "Idle")), Some(DefectKind::NoEnum));
    assert_eq!(bound("Root.Demo.Mode", member("Drive State", "Off")), Some(DefectKind::NoMember));
    assert_eq!(
        bound("Root.Demo.Speed", WireValue::Integer { value: 1 }),
        Some(DefectKind::WrongFamily {
            role: Role::Input,
            declared: RuntimeFamily::Integer,
            stored: RuntimeFamily::FloatingPoint,
        })
    );
}

#[test]
fn declared_types_name_their_family_in_any_spelling() {
    let family = |declared: &str| {
        project_runtime_family(ValueType::Unknown, &Some(declared.to_string()))
    };
    assert_eq!(family("Floating-Point"), Some(RuntimeFamily::FloatingPoint));
    assert_eq!(family("U16"), Some(RuntimeFamily::UnsignedInteger));
    assert_eq!(family("Fixed Point_7dps"), Some(RuntimeFamily::FixedPoint7dps));
    assert_eq!(family("Percent"), None);
    assert_eq!(
        project_runtime_family(ValueType::Integer, &Some("Percent".to_string())),
        Some(RuntimeFamily::Integer)
    );
    assert_eq!(runtime_family(&Value::m1_unsigned(1)), RuntimeFamily::UnsignedInteger);
}

#[test]
fn the_scenario_holds_inputs_between_changes() {
    let scenario = plan_fixture(&fixture(), &project()).expect("fixture fits the project");
    assert_eq!(scenario.mode, RunMode::Function("Demo.Update".to_string()));
    assert_eq!(scenario.base_rate_hz, double(100.0));
    assert_eq!(scenario.duration_s, double(0.03));
    assert_eq!(scenario.initial_state[0].channel, "Root.Demo.Gain");
    let names: Vec<&str> = scenario.inputs.iter().map(|s| s.channel.as_str()).collect();
    assert_eq!(names, vec!["Root.Demo.Gain", "Root.Demo.Speed"]);
    match &scenario.inputs[0].kind {
        // The late change is led by the initial value from the start.
        InputKind::Series(points) => assert_eq!(
            points,
            &vec![(double(0.0), mf(2.5)), (double(0.02), mf(3.0))]
        ),
        other => panic!("expected a series, got {other:?}"),
    }
    assert_eq!(scenario.inputs[0].sample(double(0.015)), Some(&mf(2.5)));
}

#[test]
fn a_conforming_run_is_reported() {
    let report = run_conformance_fixture(&fixture(), &project(), Ok(run_of(&[50.0; 3])))
        .expect("the run conforms");
    assert_eq!(
        report,
        ConformanceReport {
            name: "mini".to_string(),
            path: "/fixtures/mini.toml".to_string(),
            provenance: ProvenanceKind::Synthetic,
            steps_checked: 3,
            assertions_checked: 3,
        }
    );
}

#[test]
fn a_run_that_does_not_conform_is_refused() {
    let fault = |trace: Trace| {
        run_conformance_fixture(&fixture(), &project(), Ok(trace)).expect_err("no conforming run")
    };
    let kind = |error: ConformanceError| match error {
        ConformanceError::InvalidFixture { defect, .. } => defect.kind,
        other => panic!("expected an invalid fixture, got {other:?}"),
    };
    assert_eq!(kind(fault(run_of(&[50.0; 2]))), DefectKind::TickCount { ran: 2, steps: 3 });
    let mut outside = run_of(&[50.0; 3]);
    outside.mark_external("Root.Demo.Unknown");
    assert_eq!(kind(fault(outside)), DefectKind::UndeclaredSource);
    let mut shifted = run_of(&[50.0; 3]);
    shifted.time[2] = double(0.03);
    assert_eq!(
        kind(fault(shifted)),
        DefectKind::TickInstant {
            ran: double(0.03),
            recorded: double(0.02),
        }
    );
    let mut supplied = run_of(&[50.0; 3]);
    supplied.external_ticks.push(("Root.Demo.Output".to_string(), 1));
    assert_eq!(kind(fault(supplied)), DefectKind::SuppliedOutput);
    match fault(run_of(&[50.0, 51.0, 50.0])) {
        ConformanceError::Mismatch(m) => {
            assert_eq!((m.step, m.channel.as_str()), (1, "Root.Demo.Output"));
            assert_eq!(m.actual, Some(mf(51.0)));
            assert_eq!(m.time_s, double(0.01));
        }
        other => panic!("expected a mismatch, got {other:?}"),
    }
    let mut empty = Trace::new();
    for step in &fixture().steps {
        empty.push_tick(step.time_s);
    }
    match fault(empty) {
        ConformanceError::Mismatch(m) => assert_eq!(m.detail, "trace has no channel with this path"),
        other => panic!("expected a mismatch, got {other:?}"),
    }
    let failed = EvalError::MissingInput {
        channel: "Root.Demo.Speed".to_string(),
    };
    match run_conformance_fixture(&fixture(), &project(), Err(failed)) {
        Err(ConformanceError::Evaluation { fixture, source }) => {
            assert_eq!(fixture, "mini");
            assert!(matches!(source, EvalError::MissingInput { .. }));
        }
        other => panic!("expected a failed evaluation, got {other:?}"),
    }
}

fn report(provenance: ProvenanceKind) -> ConformanceReport {
    ConformanceReport {
        name: "x".to_string(),
        path: "x.toml".to_string(),
        provenance,
        steps_checked: 1,
        assertions_checked: 1,
    }
}

#[test]
fn a_suite_stops_at_its_first_failure() {
    let any = ConformanceOptions {
        require_m1_sim_capture: false,
    };
    let strict = ConformanceOptions {
        require_m1_sim_capture: true,
    };
    match run_conformance_suite(vec![], any) {
        Err(ConformanceError::InvalidFixture { fixture, defect }) => {
            assert_eq!(fixture, "suite");
            assert_eq!(defect.kind, DefectKind::NoFixtures);
        }
        other => panic!("expected an empty suite, got {other:?}"),
    }
    let synthetic = || Ok(report(ProvenanceKind::Synthetic));
    assert_eq!(run_conformance_suite(vec![synthetic(), synthetic()], any).unwrap().len(), 2);
    assert!(matches!(
        run_conformance_suite(vec![synthetic()], strict),
        Err(ConformanceError::MissingM1SimCapture)
    ));
    let captured = Ok(report(ProvenanceKind::M1Sim));
    assert_eq!(run_conformance_suite(vec![synthetic(), captured], strict).unwrap().len(), 2);
    let failure = |path: &str| {
        Err(ConformanceError::Io {
            path: path.to_string(),
            detail: String::new(),
        })
    };
    match run_conformance_suite(vec![synthetic(), failure("a"), failure("b")], strict) {
        Err(ConformanceError::Io { path, .. }) => assert_eq!(path, "a"),
        other => panic!("expected the first failure, got {other:?}"),
    }
}

const ABC: &str = "ba7816bf8f01cfea414140de5dae2223b00361a396177a9cb410ff61f20015ad";

fn entry(path: &str) -> ProjectFileHash {
    ProjectFileHash {
        path: path.to_string(),
        sha256: ABC.to_string(),
    }
}

#[test]
fn a_digest_binds_the_bytes_of_a_file() {
    assert!(check_digest(&entry("a"), "/root/a", b"abc").is_ok());
    match check_digest(&entry("a"), "/root/a", b"abd") {
        Err(ConformanceError::HashMismatch {
            path,
            expected,
            actual,
        }) => {
            assert_eq!(path, "/root/a");
            assert_eq!(expected, ABC);
            assert_eq!(
                actual,
                "a52d159f262b2c6ddb724a61840befc36eb30c88877a4030b65cbe86298449c9"
            );
        }
        other => panic!("expected a mismatch, got {other:?}"),
    }
}

#[test]
fn a_manifest_lists_exactly_the_files_of_the_bundle() {
    let scripts = vec!["mini/Scripts/B.m1scr".to_string(), "mini/Scripts/A.m1scr".to_string()];
    let with = |paths: &[&str]| {
        let mut f = fixture();
        f.project.files = paths.iter().map(|p| entry(p)).collect();
        f
    };
    let complete = [
        "mini/Scripts/B.m1scr",
        "mini//Project.m1prj",
        "mini/./parameters.m1cfg",
        "mini/Scripts/A.m1scr",
    ];
    // The entries are read in the order of their paths.
    assert_eq!(with(&complete).check_manifest(&scripts).unwrap(), vec![1, 3, 0, 2]);
    let refusal = |f: &ConformanceFixture, scripts: &Vec<String>| match f.check_manifest(scripts) {
        Err(ConformanceError::InvalidFixture { defect, .. }) => (defect.kind, defect.name),
        other => panic!("expected an invalid fixture, got {other:?}"),
    };
    assert_eq!(
        refusal(&with(&complete[..3]), &scripts),
        (
            DefectKind::ManifestDiffers,
            "missing [mini/Scripts/A.m1scr], extra []".to_string()
        )
    );
    let strangers = ["mini/Z.m1scr", "mini/Project.m1prj", "mini/Y.m1scr"];
    assert_eq!(
        refusal(&with(&strangers), &scripts),
        (
            DefectKind::ManifestDiffers,
            "missing [mini/Scripts/A.m1scr, mini/Scripts/B.m1scr, mini/parameters.m1cfg], \
             extra [mini/Y.m1scr, mini/Z.m1scr]"
                .to_string()
        )
    );
    for bad in ["/mini/x", "../x", "./x", "", "mini/../x"] {
        assert_eq!(refusal(&with(&[bad]), &scripts).0, DefectKind::BadPath(PathLabel::Manifest), "{bad}");
    }
    assert_eq!(
        refusal(&with(&["mini/Project.m1prj", "mini//Project.m1prj"]), &scripts).0,
        DefectKind::DuplicateFile
    );
    let mut shouted = with(&complete);
    shouted.project.files[0].sha256 = ABC.to_uppercase();
    assert_eq!(refusal(&shouted, &scripts).0, DefectKind::BadDigest);
    let twins = vec!["mini/a/X.m1scr".to_string(), "mini/b/X.m1scr".to_string()];
    assert_eq!(
        refusal(&with(&complete), &twins),
        (
            DefectKind::DuplicateScript,
            "\"X.m1scr\": mini/a/X.m1scr and mini/b/X.m1scr".to_string()
        )
    );
}

#[test]
fn bundle_entries_are_followed_by_their_kind() {
    assert_eq!(resolve_bundle_part(FileKind::File, true), None);
    assert_eq!(resolve_bundle_part(FileKind::Directory, false), None);
    assert_eq!(resolve_bundle_part(FileKind::Directory, true), Some(DefectKind::NotFile));
    assert_eq!(resolve_bundle_part(FileKind::Other, false), Some(DefectKind::NotDirectory));
    assert_eq!(resolve_bundle_part(FileKind::Symlink, true), Some(DefectKind::Symlink));
    assert_eq!(script_entry(FileKind::File, "A.m1scr"), ScriptEntry::Take);
    assert_eq!(script_entry(FileKind::File, ".m1scr"), ScriptEntry::Skip);
    assert_eq!(script_entry(FileKind::File, "A.txt"), ScriptEntry::Skip);
    assert_eq!(script_entry(FileKind::Directory, "A.m1scr"), ScriptEntry::Descend);
    assert_eq!(script_entry(FileKind::Symlink, "A.m1scr"), ScriptEntry::Refuse);
}

#[test]
fn values_on_the_wire_are_described() {
    assert_eq!(WireValue::Boolean { value: true }.describe(), "boolean(true)");
    assert_eq!(WireValue::Integer { value: -7 }.describe(), "integer(-7)");
    assert_eq!(WireValue::UnsignedInteger { value: 7 }.describe(), "unsigned-integer(7)");
    assert_eq!(
        WireValue::FixedPoint7dps { raw: -1 }.describe(),
        "fixed-point-7dps(raw=-1)"
    );
    assert_eq!(
        WireValue::String {
            value: "a\"b".to_string()
        }
        .describe(),
        "string(\"a\\\"b\")"
    );
    let e = ExpectedChannelValue {
        channel: "x".to_string(),
        value: WireValue::Enum {
            enum_type: "T".to_string(),
            member: "M".to_string(),
        },
        tolerance: None,
    };
    assert_eq!(e.describe(), "enum(T.M) exactly");
    let f = ExpectedChannelValue {
        channel: "x".to_string(),
        value: WireValue::FixedPoint7dps { raw: 5 },
        tolerance: Some(ValueTolerance::FixedPoint7dps { raw: 2 }),
    };
    assert_eq!(f.describe(), "fixed-point-7dps(raw=5) within 2 raw unit(s)");
}

#[test]
fn values_meet_their_own_expectation() {
    let float = float_tolerance(Some("0"), None);
    for x in [0.0, -1.5, f32::MAX, f32::MIN_POSITIVE, f32::INFINITY, f32::NAN] {
        assert!(compare_value(&mf(x), &mf(x), &float).is_ok(), "{x}");
    }
    for v in [Value::Bool(true), Value::m1_integer(-1), Value::Str("a".to_string())] {
        assert!(compare_value(&v, &v, &None).is_ok(), "{v:?}");
    }
}

#[test]
fn every_file_of_the_manifest_is_held_to_its_digest() {
    let mut f = fixture();
    f.project.files = vec![entry("b"), entry("a")];
    let order = vec![1, 0];
    let good = |name: &str| (name.to_string(), Ok(b"abc".to_vec()));
    assert!(f.check_files(&order, vec![good("a"), good("b")]).is_ok());
    let unread = (
        "b".to_string(),
        Err(ConformanceError::Io {
            path: "b".to_string(),
            detail: "gone".to_string(),
        }),
    );
    assert!(matches!(
        f.check_files(&order, vec![good("a"), unread]),
        Err(ConformanceError::Io { .. })
    ));
    let other = |name: &str| (name.to_string(), Ok(b"abd".to_vec()));
    match f.check_files(&order, vec![other("a"), other("b")]) {
        Err(ConformanceError::HashMismatch { path, .. }) => assert_eq!(path, "a"),
        other => panic!("expected the first file to be reported, got {other:?}"),
    }
}

#[test]
fn failures_are_put_in_words() {
    let invalid = |change: &dyn Fn(&mut ConformanceFixture)| {
        let mut f = fixture();
        change(&mut f);
        f.validate_document().expect_err("an invalid fixture").to_text()
    };
    assert_eq!(
        invalid(&|f| f.calculation_rate_hz = double(-2.5)),
        "fixture \"mini\": calculation_rate_hz must be finite and positive, got -2.5"
    );
    assert_eq!(
        invalid(&|f| f.steps[1].time_s = double(0.011)),
        "fixture \"mini\": step 1 time_s 0.011 is off the 100 Hz grid; expected 0.01"
    );
    assert_eq!(
        invalid(&|f| f.initial_state[0].value = wire_float("x")),
        "fixture \"mini\": floating-point value \"x\" is not a binary32 decimal"
    );
    assert_eq!(
        invalid(&|f| f.steps[2].inputs.push(value("Root.A", wire_float("1")))),
        "fixture \"mini\": input channel \"Root.A\" first changes at step 2; \
         seed it in initial_state or step 0"
    );
    let mut f = fixture();
    f.steps[0].inputs = vec![value("Root.Demo.Limit", wire_float("1"))];
    assert_eq!(
        validate_project_bindings(&f, &project()).unwrap_err().to_text(),
        "fixture \"mini\": step 0 input path \"Root.Demo.Limit\" resolves to Parameter, \
         not a project Channel"
    );
    f.steps[0].inputs = vec![value("Root.Demo.Speed", WireValue::Integer { value: 1 })];
    assert_eq!(
        validate_project_bindings(&f, &project()).unwrap_err().to_text(),
        "fixture \"mini\": step 0 input channel \"Root.Demo.Speed\" declares Integer, \
         but the project stores FloatingPoint"
    );
    let run = |trace: Trace| {
        run_conformance_fixture(&fixture(), &project(), Ok(trace)).unwrap_err().to_text()
    };
    assert_eq!(
        run(run_of(&[50.0; 2])),
        "fixture \"mini\": runner produced 2 ticks for 3 fixture steps"
    );
    let mut shifted = run_of(&[50.0; 3]);
    shifted.time[2] = double(0.03);
    assert_eq!(
        run(shifted),
        "fixture \"mini\": runner tick 2 was at 0.03 s, fixture records 0.02 s"
    );
    let text = run(run_of(&[50.0, 51.5, 50.0]));
    assert!(
        text.starts_with(
            "fixture \"mini\" step 1 at t = 0.01 s, channel \"Root.Demo.Output\": \
             absolute delta 1.5 exceeds allowed error "
        ),
        "{text}"
    );
    assert!(text.ends_with(", got floating-point(51.5)"), "{text}");
    assert_eq!(
        ConformanceError::MissingM1SimCapture.to_text(),
        "conformance suite passed, but no fixture declared `m1-sim` provenance"
    );
    let mismatch = ConformanceError::HashMismatch {
        path: "a".to_string(),
        expected: "b".to_string(),
        actual: "c".to_string(),
    };
    assert_eq!(mismatch.to_text(), "a: SHA-256 mismatch, fixture has b, file has c");
}
