//! Texts, maps, tables, paths, logs, traces and the command line.

use m1_eval::builtins::object::{ObjectRules, ValidationRule};
use m1_eval::calib::{CalTable, Calibration};
use m1_eval::cli::{
    allow_defaults, apply_mode_override, fixture_format, format_for, scenario_format, usage,
    DocumentFormat, OutFormat, Usage,
};
use m1_eval::coerce::coerce_for_declared_type;
use m1_eval::float::binary32::F32;
use m1_eval::float::binary64::F64;
use m1_eval::log::{InputKind, InputSeries, Log};
use m1_eval::map::TextMap;
use m1_eval::path::{extension, validate_relative_path};
use m1_eval::render::{csv_field, json_string, num_csv, num_json};
use m1_eval::scenario::{RunMode, Scenario};
use m1_eval::table::lookup;
use m1_eval::text::{comes_before, decimal_text, lower, signed_text, trim};
use m1_eval::trace::Trace;
use m1_eval::value::{M1Scalar, Value, ValueType};

fn double(x: f64) -> F64 {
    F64::from_bits(x.to_bits())
}

fn scalar(x: f32) -> M1Scalar {
    M1Scalar::FloatingPoint(F32::from_bits(x.to_bits()))
}

fn mf(x: f32) -> Value {
    Value::M1(scalar(x))
}

#[test]
fn texts_are_those_of_the_host() {
    for s in ["", "  a b ", "\t\u{a0}x\u{2003}", "ÄbC", "Z", "a"] {
        assert_eq!(trim(s), s.trim());
        assert_eq!(lower(s), s.to_ascii_lowercase());
        for t in ["", "A", "a", "ab", "Ä", "\u{10000}", "\u{ffff}"] {
            assert_eq!(comes_before(s, t), s < t, "{s:?} {t:?}");
        }
    }
    for n in [0, 9, 10, 12_345, u64::MAX] {
        assert_eq!(decimal_text(n), n.to_string());
    }
    for n in [0, -1, i64::MIN, i64::MAX] {
        assert_eq!(signed_text(n), n.to_string());
    }
}

#[test]
fn maps_keep_their_keys_in_order() {
    let mut map: TextMap<u32> = TextMap::new();
    for (i, key) in ["b", "a", "c", "a b", "a"].iter().enumerate() {
        map.insert(key.to_string(), i as u32);
    }
    let keys: Vec<&str> = (0..map.len()).map(|i| map.at(i).0.as_str()).collect();
    assert_eq!(keys, vec!["a", "a b", "b", "c"]);
    assert_eq!(map.get("a"), Some(&4));
    assert_eq!(map.get("d"), None);
    map.clear();
    assert_eq!(map.len(), 0);
}

#[test]
fn lookups_meet_cells_and_stay_within_the_table() {
    let curve = CalTable {
        axes: vec![vec![scalar(0.0), scalar(10.0), scalar(30.0)]],
        body: vec![scalar(5.0), scalar(15.0), scalar(-5.0)],
    };
    let at = |x: f32| lookup(&curve, &[scalar(x)]).unwrap();
    for (x, y) in [(0.0, 5.0), (10.0, 15.0), (30.0, -5.0)] {
        assert_eq!(at(x), scalar(y), "a breakpoint gives its cell");
    }
    assert_eq!(at(-1.0), scalar(5.0));
    assert_eq!(at(99.0), scalar(-5.0));
    assert_eq!(at(5.0), scalar(10.0));
    assert_eq!(at(20.0), scalar(5.0));
    let cube = CalTable {
        axes: vec![vec![scalar(0.0), scalar(1.0)]; 3],
        body: (0..8).map(|i| scalar(i as f32)).collect(),
    };
    assert_eq!(
        lookup(&cube, &[scalar(0.5), scalar(0.5), scalar(0.5)]).unwrap(),
        scalar(3.5)
    );
    assert_eq!(
        lookup(&cube, &[scalar(1.0), scalar(0.0), scalar(1.0)]).unwrap(),
        scalar(5.0)
    );
    assert!(lookup(&cube, &[scalar(1.0)]).is_err());
    let short = CalTable {
        axes: vec![vec![scalar(0.0)]],
        body: vec![],
    };
    assert!(lookup(&short, &[scalar(0.0)]).is_err());
}

#[test]
fn paths_have_extensions_and_stay_below_their_root() {
    for (path, ext) in [
        ("run.CSV", Some("csv")),
        ("/a.b/run", None),
        (".csv", None),
        ("a/.hidden.json", Some("json")),
        ("a/b.toml/", Some("toml")),
        ("a/..", None),
        ("x.", Some("")),
    ] {
        assert_eq!(extension(path).as_deref(), ext, "{path}");
        let host = std::path::Path::new(path).extension();
        assert_eq!(
            host.map(|e| e.to_str().unwrap().to_ascii_lowercase()).as_deref(),
            ext,
            "{path}"
        );
    }
    for (path, relative) in [("a/b", true), ("a//b/", true), ("a/./b", true), ("..a", true), ("a\0/b", true)] {
        assert_eq!(validate_relative_path(path), relative, "{path}");
    }
    for path in ["", "/a", ".", "./a", "..", "a/../b"] {
        assert!(!validate_relative_path(path), "{path}");
    }
}

#[test]
fn files_are_written_and_read_by_extension() {
    assert_eq!(format_for("out.csv"), OutFormat::Csv);
    assert_eq!(format_for("out.CSV"), OutFormat::Csv);
    assert_eq!(format_for("out.json"), OutFormat::Json);
    assert_eq!(format_for("out"), OutFormat::Json);
    assert_eq!(fixture_format("f.JSON"), DocumentFormat::Json);
    assert_eq!(fixture_format("f.toml"), DocumentFormat::Toml);
    assert_eq!(fixture_format("f.yaml"), DocumentFormat::Unknown);
    assert_eq!(scenario_format("s.json"), DocumentFormat::Json);
    assert_eq!(scenario_format("s.txt"), DocumentFormat::Toml);
    assert_eq!(usage(false, true, true, true), Usage::NoProject);
    assert_eq!(usage(true, false, false, false), Usage::NothingToDo);
    assert_eq!(usage(true, false, true, false), Usage::Ready);
}

#[test]
fn flags_select_the_mode_of_a_scenario() {
    let scenario = || Scenario {
        mode: RunMode::Function("F".to_string()),
        initial_state: Vec::new(),
        inputs: Vec::new(),
        overrides: Vec::new(),
        io: Vec::new(),
        duration_s: double(1.0),
        base_rate_hz: double(100.0),
        allow_default_inputs: false,
    };
    let mut s = scenario();
    apply_mode_override(&mut s, None, None, false);
    assert_eq!(s.mode, RunMode::Function("F".to_string()));
    apply_mode_override(&mut s, None, Some("Root.C".to_string()), false);
    assert_eq!(s.mode, RunMode::Cone("Root.C".to_string()));
    apply_mode_override(&mut s, None, None, true);
    assert_eq!(s.mode, RunMode::WholeProject);
    allow_defaults(&mut s, true);
    allow_defaults(&mut s, false);
    assert!(s.allow_default_inputs);
}

#[test]
fn series_hold_their_values_between_points() {
    let series = InputSeries {
        channel: "x".to_string(),
        kind: InputKind::Series(vec![(double(0.0), mf(1.0)), (double(1.0), mf(2.0))]),
    };
    for (t, v) in [(-1.0, 1.0), (0.0, 1.0), (0.999, 1.0), (1.0, 2.0), (9.0, 2.0)] {
        assert_eq!(series.sample(double(t)), Some(&mf(v)), "{t}");
    }
    let log = Log::from_csv("time , a\r\n\r\n0,1\r\n0.5,2.5\r\n", "x.csv".to_string()).unwrap();
    assert_eq!(log.channel_names(), vec!["a"]);
    assert_eq!(log.meta.units.len(), 0);
    assert_eq!(log.channels[0].sample(double(0.5)), Some(&mf(2.5)));
}

#[test]
fn the_last_assignment_on_a_tick_counts() {
    let mut trace = Trace::new();
    trace.push_tick(double(0.0));
    trace.record_channel("a", mf(1.0));
    trace.record_channel("a", mf(2.0));
    trace.push_tick(double(0.1));
    trace.record_channel("b", mf(3.0));
    assert_eq!(trace.channel_value_at_tick("a", 0), Some(&mf(2.0)));
    assert_eq!(trace.channel_value_at_tick("a", 1), None);
    assert!(trace.contains_channel("b") && !trace.contains_channel("c"));
    assert_eq!(trace.column("a"), vec![mf(1.0), mf(2.0)]);
}

#[test]
fn signed_and_unsigned_share_their_pattern() {
    for n in [0, 1, -1, i32::MIN, i32::MAX] {
        let unsigned = coerce_for_declared_type("x", Value::m1_integer(n), ValueType::Unsigned).unwrap();
        assert_eq!(unsigned, Value::m1_unsigned(n as u32));
        let back = coerce_for_declared_type("x", unsigned, ValueType::Integer).unwrap();
        assert_eq!(back, Value::m1_integer(n));
    }
    assert!(coerce_for_declared_type("x", mf(1.0), ValueType::Integer).is_err());
}

#[test]
fn numbers_and_texts_are_written_for_json_and_csv() {
    assert_eq!(num_json(double(2.0)), "2.0");
    assert_eq!(num_json(double(0.5)), "0.5");
    assert_eq!(num_json(double(f64::NAN)), "null");
    assert_eq!(num_csv(double(0.5)), "0.5");
    assert_eq!(json_string("a\"b\\\n"), "\"a\\\"b\\\\\\n\"");
    assert_eq!(csv_field("plain"), "plain");
    assert_eq!(csv_field("a,\"b\""), "\"a,\"\"b\"\"\"");
}

#[test]
fn documents_are_read_through_their_markup() {
    let calib = Calibration::from_m1cfg_str(
        "<Configuration><Parameter Name=\"A &amp; B\"><Cell Type=\"s8\"> -5 </Cell></Parameter></Configuration>",
    )
    .unwrap();
    assert_eq!(calib.param("A & B"), Some(M1Scalar::Integer(-5)));
    let rules = ObjectRules::from_project_xml(
        "<Project><Component Name=\"Root.X\"><Props Validation=\" MinMax \" ValMin=\"1e1\" ValMax=\"20\"/></Component></Project>",
    )
    .unwrap();
    assert_eq!(
        rules.validation.get("Root.X"),
        Some(&ValidationRule::MinMax {
            min: double(10.0),
            max: double(20.0)
        })
    );
    assert!(ObjectRules::from_project_xml("<Project>").is_err());
}
