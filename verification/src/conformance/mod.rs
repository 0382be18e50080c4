//! Golden-vector fixtures.
//!
//! A fixture binds expected values to an exact project bundle through SHA-256
//! digests. It records a tick grid, channel values before the first tick, inputs
//! that hold until they change, expected outputs with tolerances, and where the
//! expected values come from.

pub mod bundle;
pub mod document;
pub mod message;
pub mod replay;

use crate::decimal::{double_literal, parse_double, parse_single, single_literal};
use crate::error::EvalError;
use crate::float::binary32::F32;
use crate::float::binary64::F64;
use crate::conformance::message::{
    bounds_fault, family_mismatch, float_text, runtime_text, show_bound_fault, show_float,
    show_runtime,
};
use crate::conformance::replay::RuntimeFamily;
use crate::project::{Project, SymbolKind};
use crate::text::{
    decimal, decimal_text, enclosed, joined, lower, lowered, quoted, quoted_text, same,
    signed_decimal, signed_text, trim, trimmed,
};
use crate::value::{FixedPoint7dps, M1Scalar, Value};
use vstd::prelude::*;

verus! {

/// The fixture schema that is understood.
pub const CONFORMANCE_SCHEMA_VERSION: u32 = 1;

/// A fixture.
#[derive(Debug)]
pub struct ConformanceFixture {
    /// The schema version.
    pub schema_version: u32,
    /// The name in reports.
    pub name: String,
    /// The project files.
    pub project: ProjectBundle,
    /// Where the expected values come from.
    pub provenance: FixtureProvenance,
    /// How the capture is replayed.
    pub run: FixtureRun,
    /// The ticks in a second.
    pub calculation_rate_hz: F64,
    /// Channel values before the first tick.
    pub initial_state: Vec<FixtureChannelValue>,
    /// One record for each tick.
    pub steps: Vec<FixtureStep>,
    /// The file that the fixture was read from.
    pub source_path: String,
}

/// The project files of a fixture.
#[derive(Debug)]
pub struct ProjectBundle {
    /// The directory of the bundle.
    pub root: String,
    /// The project file in the bundle.
    pub project: String,
    /// The calibration file in the bundle.
    pub config: Option<String>,
    /// The digests of all files.
    pub files: Vec<ProjectFileHash>,
}

/// The digest of one file.
#[derive(Debug)]
pub struct ProjectFileHash {
    /// The file in the bundle.
    pub path: String,
    /// The SHA-256 digest in lower-case hexadecimal.
    pub sha256: String,
}

/// Where expected values come from.
#[derive(Debug)]
pub struct FixtureProvenance {
    /// The kind of evidence.
    pub kind: ProvenanceKind,
    /// The origin.
    pub source: String,
    /// The capture procedure.
    pub procedure: String,
    /// The version of the capturing tool.
    pub tool_version: Option<String>,
    /// When the capture was made.
    pub captured_at_utc: Option<String>,
    /// Further facts.
    pub notes: Option<String>,
}

/// A kind of evidence.
#[derive(Debug, Clone, Copy, PartialEq, Eq, Structural)]
pub enum ProvenanceKind {
    /// Derived by hand.
    Synthetic,
    /// Checked against an independent implementation or a standard.
    Independent,
    /// Captured from M1 Sim.
    M1Sim,
}

impl ProvenanceKind {
    /// The name of the kind.
    pub open spec fn name(self) -> Seq<char> {
        match self {
            ProvenanceKind::Synthetic => "synthetic"@,
            ProvenanceKind::Independent => "independent"@,
            ProvenanceKind::M1Sim => "m1-sim"@,
        }
    }

    /// The name of the kind.
    pub fn to_text(self) -> (r: String)
        ensures
            r@ == self.name(),
    {
        match self {
            ProvenanceKind::Synthetic => "synthetic".to_owned(),
            ProvenanceKind::Independent => "independent".to_owned(),
            ProvenanceKind::M1Sim => "m1-sim".to_owned(),
        }
    }

    /// The kind with a name, where there is one.
    pub fn from_text(text: &str) -> (r: Option<ProvenanceKind>)
        ensures
            match r {
                Some(kind) => kind.name() == text@,
                None => forall|kind: ProvenanceKind| #[trigger] kind.name() != text@,
            },
    {
        if same(text, "synthetic") {
            Some(ProvenanceKind::Synthetic)
        } else if same(text, "independent") {
            Some(ProvenanceKind::Independent)
        } else if same(text, "m1-sim") {
            Some(ProvenanceKind::M1Sim)
        } else {
            None
        }
    }
}

/// A kind of evidence is read back from its name.
pub proof fn law_kinds_have_names_of_their_own(a: ProvenanceKind, b: ProvenanceKind)
    requires
        a.name() == b.name(),
    ensures
        a == b,
{
    reveal_strlit("synthetic");
    reveal_strlit("independent");
    reveal_strlit("m1-sim");
    assert("synthetic"@.len() == 9 && "independent"@.len() == 11 && "m1-sim"@.len() == 6);
}

/// How a fixture is replayed.
#[derive(Debug)]
pub struct FixtureRun {
    /// The mode.
    pub mode: FixtureRunMode,
    /// The function or the channel.
    pub target: Option<String>,
}

/// A mode of replay.
#[derive(Debug, Clone, Copy, PartialEq, Eq, Structural)]
pub enum FixtureRunMode {
    /// One function on every tick.
    Function,
    /// What one channel depends on.
    Cone,
    /// Every periodic function when it is due.
    WholeProject,
}

/// The value of a channel.
#[derive(Debug)]
pub struct FixtureChannelValue {
    /// The channel.
    pub channel: String,
    /// The value.
    pub value: WireValue,
}

/// One tick of a capture.
#[derive(Debug)]
pub struct FixtureStep {
    /// The instant.
    pub time_s: F64,
    /// The inputs that change.
    pub inputs: Vec<FixtureChannelValue>,
    /// The expected outputs.
    pub expected: Vec<ExpectedChannelValue>,
}

/// An expected output.
#[derive(Debug)]
pub struct ExpectedChannelValue {
    /// The channel.
    pub channel: String,
    /// The value.
    pub value: WireValue,
    /// The tolerance.
    pub tolerance: Option<ValueTolerance>,
}

/// A value with its family. Floating-point values are decimal texts.
#[derive(Debug)]
pub enum WireValue {
    /// A Boolean.
    Boolean {
        /// The value.
        value: bool,
    },
    /// A binary32 number.
    FloatingPoint {
        /// The decimal text.
        value: String,
    },
    /// A signed integer.
    Integer {
        /// The value.
        value: i32,
    },
    /// An unsigned integer.
    UnsignedInteger {
        /// The value.
        value: u32,
    },
    /// A fixed-point value.
    FixedPoint7dps {
        /// The stored count.
        raw: i32,
    },
    /// A member of an enumeration.
    Enum {
        /// The enumeration.
        enum_type: String,
        /// The member.
        member: String,
    },
    /// A text.
    String {
        /// The value.
        value: String,
    },
}

/// A tolerance.
#[derive(Debug)]
pub enum ValueTolerance {
    /// Of binary32 numbers.
    FloatingPoint {
        /// An absolute bound, as a decimal text.
        absolute: Option<String>,
        /// A relative bound, as a decimal text.
        relative: Option<String>,
    },
    /// Of fixed-point values.
    FixedPoint7dps {
        /// The greatest difference of stored counts.
        raw: u32,
    },
}

/// What a passing fixture reports.
#[derive(Debug, PartialEq, Eq)]
pub struct ConformanceReport {
    /// The fixture.
    pub name: String,
    /// Its file.
    pub path: String,
    /// The kind of evidence.
    pub provenance: ProvenanceKind,
    /// The ticks checked.
    pub steps_checked: usize,
    /// The values checked.
    pub assertions_checked: usize,
}

/// The options of a suite.
#[derive(Debug, Clone, Copy, PartialEq, Eq, Structural)]
pub struct ConformanceOptions {
    /// Whether a suite needs a passing capture from M1 Sim.
    pub require_m1_sim_capture: bool,
}

/// The first output that fails its expectation.
#[derive(Debug)]
pub struct ConformanceMismatch {
    /// The fixture.
    pub fixture: String,
    /// The index of the tick.
    pub step: usize,
    /// The instant.
    pub time_s: F64,
    /// The channel.
    pub channel: String,
    /// The expectation in words.
    pub expected: String,
    /// The value of the run.
    pub actual: Option<Value>,
    /// How it fails.
    pub detail: String,
}

/// What a value of a fixture is for.
#[derive(Debug, Clone, Copy, PartialEq, Eq, Structural)]
pub enum Role {
    /// It is part of the initial state.
    Initial,
    /// It is an input of a step.
    Input,
    /// It is expected of a step.
    Expected,
}

/// What a path of a fixture is for.
#[derive(Debug, Clone, Copy, PartialEq, Eq, Structural)]
pub enum PathLabel {
    /// The project file.
    Project,
    /// The calibration file.
    Config,
    /// An entry of the manifest.
    Manifest,
}

/// What is wrong with a fixture.
#[derive(Debug, Clone, Copy, PartialEq, Eq, Structural)]
pub enum DefectKind {
    /// The schema version, which is given, is not known.
    SchemaVersion(u32),
    /// The name is empty.
    EmptyName,
    /// The rate, which is given, is not finite and positive.
    BadRate(F64),
    /// The mode needs a target.
    MissingTarget,
    /// The mode takes no target.
    UnexpectedTarget,
    /// The provenance source or procedure is empty.
    EmptyProvenance,
    /// A capture lacks a fact about itself.
    IncompleteCapture,
    /// There are no steps.
    NoSteps,
    /// A channel name is empty.
    EmptyChannel(Role),
    /// The initial state has a channel twice.
    DuplicateInitial,
    /// A floating-point text is no binary32 decimal.
    NotDecimal,
    /// A finite decimal is outside the binary32 range.
    DecimalRange,
    /// An enumeration or member name is empty.
    EmptyEnum,
    /// A step is off the grid.
    OffGrid {
        /// The recorded instant.
        time_s: F64,
        /// The rate of the grid.
        rate_hz: F64,
        /// The instant on the grid.
        expected: F64,
    },
    /// A step expects nothing.
    NothingExpected,
    /// A step has an input twice.
    DuplicateInput,
    /// A step has an expectation twice.
    DuplicateExpected,
    /// A floating-point expectation has no bound.
    NoFloatBound,
    /// A bound is no finite non-negative number.
    BadBound,
    /// A floating-point expectation has no such tolerance.
    NoFloatTolerance,
    /// A fixed-point expectation has no such tolerance.
    NoFixedTolerance,
    /// An expectation that compares exactly has a tolerance.
    NeedlessTolerance,
    /// A step expects other channels than the first.
    OutputsDiffer,
    /// An input has no value before its first change.
    LateInput,
    /// An expected channel is an input.
    DrivenOutput,
    /// The enumeration does not exist.
    NoEnum,
    /// The enumeration has no such member.
    NoMember,
    /// The channel is no symbol of the project.
    NoSymbol(Role),
    /// The symbol is no channel, but of the given kind.
    NotChannel(Role, SymbolKind),
    /// The channel stores another family.
    WrongFamily {
        /// What the value is.
        role: Role,
        /// The family of the value.
        declared: RuntimeFamily,
        /// The family that the project stores.
        stored: RuntimeFamily,
    },
    /// The value does not convert to what the channel stores.
    Incompatible(Role),
    /// The grid has no valid duration.
    BadDuration,
    /// The run has another number of ticks.
    TickCount {
        /// The ticks of the run.
        ran: usize,
        /// The steps of the fixture.
        steps: usize,
    },
    /// The run used a source that the fixture does not declare.
    UndeclaredSource,
    /// A tick of the run is at another instant.
    TickInstant {
        /// The instant of the run.
        ran: F64,
        /// The instant of the fixture.
        recorded: F64,
    },
    /// An expected channel was supplied from outside.
    SuppliedOutput,
    /// A path is not normalized and relative.
    BadPath(PathLabel),
    /// Two scripts have one file name.
    DuplicateScript,
    /// A digest is not 64 lower-case hexadecimal digits.
    BadDigest,
    /// The manifest has a file twice.
    DuplicateFile,
    /// The manifest and the bundle do not have the same files.
    ManifestDiffers,
    /// A path of the bundle goes through a symbolic link.
    Symlink,
    /// The scripts of the bundle hold a symbolic link.
    ScriptSymlink,
    /// A regular file was expected.
    NotFile,
    /// A directory was expected.
    NotDirectory,
    /// The root of the bundle is no directory.
    NoRoot,
    /// The place of the scripts is no directory.
    NoScriptRoot,
    /// A suite has no fixtures.
    NoFixtures,
}

/// What is wrong with a fixture, where, and about which name.
#[derive(Debug, PartialEq)]
pub struct Defect {
    /// What is wrong.
    pub kind: DefectKind,
    /// The index of the step.
    pub step: Option<usize>,
    /// The name it is about, or what is wrong in words where the kind alone does not tell.
    pub name: String,
}

/// The content of a [`Defect`].
pub type DefectView = (DefectKind, Option<usize>, Seq<char>);

impl View for Defect {
    type V = DefectView;

    open spec fn view(&self) -> DefectView {
        (self.kind, self.step, self.name@)
    }
}

/// A defect.
pub fn defect(kind: DefectKind, step: Option<usize>, name: &str) -> (r: Defect)
    ensures
        r@ == (kind, step, name@),
{
    Defect { kind, step, name: name.to_owned() }
}

/// Why a fixture or a suite fails.
#[derive(Debug)]
pub enum ConformanceError {
    /// A file could not be read.
    Io {
        /// The file.
        path: String,
        /// The system's words.
        detail: String,
    },
    /// A document does not match the schema.
    Parse {
        /// The file.
        path: String,
        /// The parser's words.
        detail: String,
    },
    /// A fixture breaks a rule.
    InvalidFixture {
        /// The fixture.
        fixture: String,
        /// The broken rule.
        defect: Defect,
    },
    /// A file does not have its digest.
    HashMismatch {
        /// The file.
        path: String,
        /// The digest of the fixture.
        expected: String,
        /// The digest of the file.
        actual: String,
    },
    /// Evaluation failed.
    Evaluation {
        /// The fixture.
        fixture: String,
        /// The error.
        source: EvalError,
    },
    /// An output fails its expectation.
    Mismatch(Box<ConformanceMismatch>),
    /// A suite has no passing capture from M1 Sim.
    MissingM1SimCapture,
}

impl ConformanceFixture {
    /// The name of the fixture in messages: its file where it has none.
    pub open spec fn label(self) -> Seq<char> {
        if trimmed(self.name@).len() == 0 {
            self.source_path@
        } else {
            self.name@
        }
    }

    /// The error about a defect.
    pub fn invalid(&self, defect: Defect) -> (r: ConformanceError)
        ensures
            is_invalid(r, *self, defect@),
    {
        let t = trim(self.name.as_str());
        let fixture: String = if t.as_str().is_empty() {
            self.source_path.clone()
        } else {
            self.name.clone()
        };
        ConformanceError::InvalidFixture { fixture, defect }
    }
}

/// Whether an error reports a defect of a fixture.
pub open spec fn is_invalid(e: ConformanceError, f: ConformanceFixture, d: DefectView) -> bool {
    e matches ConformanceError::InvalidFixture { fixture, defect } && fixture@ == f.label()
        && defect@ == d
}

/// A floating-point text: a number, or what is wrong with it.
pub open spec fn wire_float(text: Seq<char>) -> Result<F32, DefectKind> {
    let t = trimmed(text);
    let l = lowered(t);
    if l == "nan"@ || l == "+nan"@ || l == "-nan"@ {
        Ok(F32 { bits: 0x7fc0_0000 })
    } else if l == "inf"@ || l == "+inf"@ || l == "infinity"@ || l == "+infinity"@ {
        Ok(F32 { bits: 0x7f80_0000 })
    } else if l == "-inf"@ || l == "-infinity"@ {
        Ok(F32 { bits: 0xff80_0000 })
    } else {
        match single_literal(t) {
            None => Err(DefectKind::NotDecimal),
            Some(v) => if v.is_infinite() {
                Err(DefectKind::DecimalRange)
            } else {
                Ok(v)
            },
        }
    }
}

/// Reads a floating-point text. A finite decimal beyond the range is no spelling of an infinity.
pub fn parse_wire_float(text: &str) -> (r: Result<F32, DefectKind>)
    ensures
        r == wire_float(text@),
{
    let t = trim(text);
    let l = lower(t.as_str());
    let w: &str = l.as_str();
    if same(w, "nan") || same(w, "+nan") || same(w, "-nan") {
        return Ok(F32::from_bits(0x7fc0_0000));
    }
    if same(w, "inf") || same(w, "+inf") || same(w, "infinity") || same(w, "+infinity") {
        return Ok(F32::from_bits(0x7f80_0000));
    }
    if same(w, "-inf") || same(w, "-infinity") {
        return Ok(F32::from_bits(0xff80_0000));
    }
    match parse_single(t.as_str()) {
        None => Err(DefectKind::NotDecimal),
        Some(v) => {
            if v.is_infinite() {
                Err(DefectKind::DecimalRange)
            } else {
                Ok(v)
            }
        },
    }
}

/// A bound: a finite number that is not negative.
pub open spec fn bound_of(text: Seq<char>) -> Option<F64> {
    match double_literal(trimmed(text)) {
        Some(v) if v.is_finite() && !v.less(F64 { bits: 0 }) => Some(v),
        _ => None,
    }
}

/// Reads a bound.
pub fn parse_tolerance(text: &str) -> (r: Option<F64>)
    ensures
        r == bound_of(text@),
{
    let t = trim(text);
    match parse_double(t.as_str()) {
        Some(v) => {
            if v.is_finite() && !v.less(F64::from_bits(0)) {
                Some(v)
            } else {
                None
            }
        },
        None => None,
    }
}

/// A bound that may be left out, which is zero.
pub open spec fn optional_bound(text: Option<String>) -> Option<F64> {
    match text {
        Some(t) => bound_of(t@),
        None => Some(F64 { bits: 0 }),
    }
}

fn optional_tolerance(text: &Option<String>) -> (r: Option<F64>)
    ensures
        r == optional_bound(*text),
{
    match text {
        Some(t) => parse_tolerance(t.as_str()),
        None => Some(F64::from_bits(0)),
    }
}

/// Whether a comparison came to what is specified: a match, or what is wrong in words.
pub open spec fn says(r: Result<(), String>, s: Result<(), Seq<char>>) -> bool {
    match s {
        Ok(_) => r is Ok,
        Err(text) => r matches Err(t) && t@ == text,
    }
}

/// What an exact comparison comes to.
pub open spec fn exactly(matches: bool) -> Result<(), Seq<char>> {
    if matches {
        Ok(())
    } else {
        Err("values differ under exact comparison"@)
    }
}

/// How two numbers fail: a NaN matches NaNs, an infinity itself, and a finite number
/// what is within the absolute bound or within the relative bound of the greater.
pub open spec fn float_mismatch(
    expected: F32,
    actual: F32,
    tolerance: Option<ValueTolerance>,
) -> Result<(), Seq<char>> {
    if expected.is_nan() {
        if actual.is_nan() {
            Ok(())
        } else {
            Err("expected NaN, but the actual value is not NaN"@)
        }
    } else if expected.is_infinite() {
        if actual.equals(expected) {
            Ok(())
        } else {
            Err("expected "@ + float_text(expected) + ", got "@ + float_text(actual))
        }
    } else if !actual.is_finite() {
        Err("expected a finite value, got "@ + float_text(actual))
    } else {
        match tolerance {
            Some(ValueTolerance::FloatingPoint { absolute, relative }) => match (
                optional_bound(absolute),
                optional_bound(relative),
            ) {
                (Some(a), Some(r)) => {
                    let (e, x) = (expected.widen(), actual.widen());
                    let delta = x.minus(e).abs();
                    let allowed = a.max(r.times(e.abs().max(x.abs())));
                    if delta.at_most(allowed) {
                        Ok(())
                    } else {
                        Err(
                            "absolute delta "@ + delta.text() + " exceeds allowed error "@
                                + allowed.text(),
                        )
                    }
                },
                _ => Err(bounds_fault(absolute, relative)),
            },
            _ => Err("missing floating-point tolerance"@),
        }
    }
}

/// What is wrong with two bounds, one of which is none.
fn show_bounds_fault(absolute: &Option<String>, relative: &Option<String>) -> (r: String)
    requires
        optional_bound(*absolute) is None || optional_bound(*relative) is None,
    ensures
        r@ == bounds_fault(*absolute, *relative),
{
    match absolute {
        Some(t) => {
            if parse_tolerance(t.as_str()).is_none() {
                return joined("invalid absolute tolerance: ", show_bound_fault(t.as_str()).as_str());
            }
        },
        None => {},
    }
    match relative {
        Some(t) => joined("invalid relative tolerance: ", show_bound_fault(t.as_str()).as_str()),
        None => String::new(),
    }
}

fn compare_float(expected: F32, actual: F32, tolerance: &Option<ValueTolerance>) -> (r: Result<
    (),
    String,
>)
    ensures
        says(r, float_mismatch(expected, actual, *tolerance)),
{
    if expected.is_nan() {
        return if actual.is_nan() {
            Ok(())
        } else {
            Err("expected NaN, but the actual value is not NaN".to_owned())
        };
    }
    if expected.is_infinite() {
        return if actual.equals(expected) {
            Ok(())
        } else {
            Err(
                enclosed("expected ", show_float(expected).as_str(), ", got ").concat(
                    show_float(actual).as_str(),
                ),
            )
        };
    }
    if !actual.is_finite() {
        return Err(joined("expected a finite value, got ", show_float(actual).as_str()));
    }
    match tolerance {
        Some(ValueTolerance::FloatingPoint { absolute, relative }) => {
            match (optional_tolerance(absolute), optional_tolerance(relative)) {
                (Some(a), Some(r)) => {
                    let e = expected.widen();
                    let x = actual.widen();
                    let delta = x.minus(e).abs();
                    let allowed = a.max(r.times(e.abs().max(x.abs())));
                    if delta.at_most(allowed) {
                        Ok(())
                    } else {
                        Err(
                            enclosed(
                                "absolute delta ",
                                delta.to_text().as_str(),
                                " exceeds allowed error ",
                            ).concat(allowed.to_text().as_str()),
                        )
                    }
                },
                _ => Err(show_bounds_fault(absolute, relative)),
            }
        },
        _ => Err("missing floating-point tolerance".to_owned()),
    }
}

/// The distance of two stored counts.
pub open spec fn raw_distance(a: i32, b: i32) -> u64 {
    (if a < b {
        b - a
    } else {
        a - b
    }) as u64
}

/// How a value fails an expectation. Fixed point compares stored counts within the
/// tolerance, floating point numbers within theirs, and every other family exactly.
/// Values of different families never match.
pub open spec fn value_mismatch(
    expected: Value,
    actual: Value,
    tolerance: Option<ValueTolerance>,
) -> Result<(), Seq<char>> {
    match (expected, actual) {
        (Value::Bool(e), Value::Bool(a)) => exactly(e == a),
        (Value::M1(M1Scalar::Integer(e)), Value::M1(M1Scalar::Integer(a))) => exactly(e == a),
        (
            Value::M1(M1Scalar::UnsignedInteger(e)),
            Value::M1(M1Scalar::UnsignedInteger(a)),
        ) => exactly(e == a),
        (
            Value::M1(M1Scalar::FixedPoint7dps(e)),
            Value::M1(M1Scalar::FixedPoint7dps(a)),
        ) => match tolerance {
            Some(ValueTolerance::FixedPoint7dps { raw }) => if raw_distance(e.raw, a.raw) <= raw {
                Ok(())
            } else {
                Err(
                    "raw delta "@ + decimal(raw_distance(e.raw, a.raw) as nat)
                        + " exceeds tolerance "@ + decimal(raw as nat),
                )
            },
            _ => Err("missing fixed-point tolerance"@),
        },
        (
            Value::M1(M1Scalar::FloatingPoint(e)),
            Value::M1(M1Scalar::FloatingPoint(a)),
        ) => float_mismatch(e, a, tolerance),
        (Value::Enum { id: ei, member: em }, Value::Enum { id: ai, member: am }) => exactly(
            ei == ai && em@ == am@,
        ),
        (Value::Str(e), Value::Str(a)) => exactly(e@ == a@),
        _ => Err(family_mismatch(runtime_text(expected), runtime_text(actual))),
    }
}

fn exact(matches: bool) -> (r: Result<(), String>)
    ensures
        says(r, exactly(matches)),
{
    if matches {
        Ok(())
    } else {
        Err("values differ under exact comparison".to_owned())
    }
}

/// Compares a value with an expectation.
pub fn compare_value(
    expected: &Value,
    actual: &Value,
    tolerance: &Option<ValueTolerance>,
) -> (r: Result<(), String>)
    ensures
        says(r, value_mismatch(*expected, *actual, *tolerance)),
{
    match (expected, actual) {
        (Value::Bool(e), Value::Bool(a)) => exact(*e == *a),
        (Value::M1(M1Scalar::Integer(e)), Value::M1(M1Scalar::Integer(a))) => exact(*e == *a),
        (Value::M1(M1Scalar::UnsignedInteger(e)), Value::M1(M1Scalar::UnsignedInteger(a))) => {
            exact(*e == *a)
        },
        (Value::M1(M1Scalar::FixedPoint7dps(e)), Value::M1(M1Scalar::FixedPoint7dps(a))) => {
            match tolerance {
                Some(ValueTolerance::FixedPoint7dps { raw }) => {
                    let x: i64 = e.raw as i64;
                    let y: i64 = a.raw as i64;
                    let delta: u64 = if x < y {
                        (y - x) as u64
                    } else {
                        (x - y) as u64
                    };
                    if delta <= *raw as u64 {
                        Ok(())
                    } else {
                        Err(
                            enclosed(
                                "raw delta ",
                                decimal_text(delta).as_str(),
                                " exceeds tolerance ",
                            ).concat(decimal_text(*raw as u64).as_str()),
                        )
                    }
                },
                _ => Err("missing fixed-point tolerance".to_owned()),
            }
        },
        (Value::M1(M1Scalar::FloatingPoint(e)), Value::M1(M1Scalar::FloatingPoint(a))) => {
            compare_float(*e, *a, tolerance)
        },
        (Value::Enum { id: ei, member: em }, Value::Enum { id: ai, member: am }) => {
            exact(*ei == *ai && same(em.as_str(), am.as_str()))
        },
        (Value::Str(e), Value::Str(a)) => exact(same(e.as_str(), a.as_str())),
        _ => Err(
            enclosed(
                "runtime type differs, expected ",
                show_runtime(expected).as_str(),
                ", got ",
            ).concat(show_runtime(actual).as_str()),
        ),
    }
}

/// A value on the wire as a runtime value: a value, or what is wrong with it.
pub enum WireResult {
    /// A value without text.
    Plain(Value),
    /// A member of an enumeration.
    Member(usize, Seq<char>),
    /// A text.
    Text(Seq<char>),
    /// A defect and the name it is about.
    Bad(DefectKind, Seq<char>),
}

/// A value on the wire as a runtime value.
pub open spec fn wire_value(wire: WireValue, project: Project) -> WireResult {
    match wire {
        WireValue::Boolean { value } => WireResult::Plain(Value::Bool(value)),
        WireValue::FloatingPoint { value } => match wire_float(value@) {
            Ok(v) => WireResult::Plain(Value::M1(M1Scalar::FloatingPoint(v))),
            Err(kind) => WireResult::Bad(kind, value@),
        },
        WireValue::Integer { value } => WireResult::Plain(Value::M1(M1Scalar::Integer(value))),
        WireValue::UnsignedInteger { value } => WireResult::Plain(
            Value::M1(M1Scalar::UnsignedInteger(value)),
        ),
        WireValue::FixedPoint7dps { raw } => WireResult::Plain(
            Value::M1(M1Scalar::FixedPoint7dps(FixedPoint7dps { raw })),
        ),
        WireValue::Enum { enum_type, member } => match project.enum_named(enum_type@) {
            None => WireResult::Bad(DefectKind::NoEnum, enum_type@),
            Some(id) => if project.enum_value(id, member@) is Some {
                WireResult::Member(id, member@)
            } else {
                WireResult::Bad(DefectKind::NoMember, stranger(enum_type@, member@))
            },
        },
        WireValue::String { value } => WireResult::Text(value@),
    }
}

/// What is wrong with a member that an enumeration does not have.
pub open spec fn stranger(enum_type: Seq<char>, member: Seq<char>) -> Seq<char> {
    quoted_text(enum_type) + " has no member "@ + quoted_text(member)
}

/// Whether a runtime value is the one on the wire.
pub open spec fn is_wire_value(v: Value, w: WireResult) -> bool {
    match w {
        WireResult::Plain(x) => v == x,
        WireResult::Member(i, m) => v matches Value::Enum { id, member } && id == i && member@ == m,
        WireResult::Text(t) => v matches Value::Str(s) && s@ == t,
        WireResult::Bad(..) => false,
    }
}

impl WireValue {
    /// The runtime value, or what is wrong with it.
    pub fn to_value(&self, project: &Project) -> (r: Result<Value, Defect>)
        ensures
            match wire_value(*self, *project) {
                WireResult::Bad(kind, name) => r matches Err(d) && d@ == (kind, None::<usize>, name),
                w => r matches Ok(v) && is_wire_value(v, w),
            },
    {
        match self {
            WireValue::Boolean { value } => Ok(Value::Bool(*value)),
            WireValue::FloatingPoint { value } => match parse_wire_float(value.as_str()) {
                Ok(v) => Ok(Value::m1_float(v)),
                Err(kind) => Err(defect(kind, None, value.as_str())),
            },
            WireValue::Integer { value } => Ok(Value::m1_integer(*value)),
            WireValue::UnsignedInteger { value } => Ok(Value::m1_unsigned(*value)),
            WireValue::FixedPoint7dps { raw } => {
                Ok(Value::M1(M1Scalar::FixedPoint7dps(FixedPoint7dps::from_raw(*raw))))
            },
            WireValue::Enum { enum_type, member } => {
                match project.enum_by_name(enum_type.as_str()) {
                    None => Err(defect(DefectKind::NoEnum, None, enum_type.as_str())),
                    Some(id) => {
                        if project.enum_has_member(id, member.as_str()) {
                            Ok(Value::Enum { id, member: member.clone() })
                        } else {
                            let name: String = enclosed(
                                quoted(enum_type.as_str()).as_str(),
                                " has no member ",
                                quoted(member.as_str()).as_str(),
                            );
                            Err(defect(DefectKind::NoMember, None, name.as_str()))
                        }
                    },
                }
            },
            WireValue::String { value } => Ok(Value::Str(value.clone())),
        }
    }
}

/// A bool in words.
pub open spec fn bool_text(v: bool) -> Seq<char> {
    if v {
        "true"@
    } else {
        "false"@
    }
}

/// A value on the wire in words.
pub open spec fn wire_text(wire: WireValue) -> Seq<char> {
    match wire {
        WireValue::Boolean { value } => "boolean("@ + bool_text(value) + ")"@,
        WireValue::FloatingPoint { value } => "floating-point("@ + value@ + ")"@,
        WireValue::Integer { value } => "integer("@ + signed_decimal(value as int) + ")"@,
        WireValue::UnsignedInteger { value } => "unsigned-integer("@ + decimal(value as nat) + ")"@,
        WireValue::FixedPoint7dps { raw } => "fixed-point-7dps(raw="@ + signed_decimal(raw as int)
            + ")"@,
        WireValue::Enum { enum_type, member } => "enum("@ + (enum_type@ + "."@ + member@) + ")"@,
        WireValue::String { value } => "string("@ + quoted_text(value@) + ")"@,
    }
}

/// An optional bound in words.
pub open spec fn bound_text(bound: Option<String>) -> Seq<char> {
    match bound {
        Some(b) => b@,
        None => "unset"@,
    }
}

/// An expectation in words.
pub open spec fn expectation_text(e: ExpectedChannelValue) -> Seq<char> {
    wire_text(e.value) + match e.tolerance {
        None => " exactly"@,
        Some(ValueTolerance::FixedPoint7dps { raw }) => " within "@ + decimal(raw as nat)
            + " raw unit(s)"@,
        Some(ValueTolerance::FloatingPoint { absolute, relative }) => " with absolute="@
            + bound_text(absolute) + " relative="@ + bound_text(relative),
    }
}

/// Three texts in a row.
fn three(a: &str, b: &str, c: &str) -> (r: String)
    ensures
        r@ == a@ + b@ + c@,
{
    let ab = joined(a, b);
    joined(ab.as_str(), c)
}

impl WireValue {
    /// The value in words.
    pub fn describe(&self) -> (r: String)
        ensures
            r@ == wire_text(*self),
    {
        match self {
            WireValue::Boolean { value } => {
                three("boolean(", if *value { "true" } else { "false" }, ")")
            },
            WireValue::FloatingPoint { value } => three("floating-point(", value.as_str(), ")"),
            WireValue::Integer { value } => {
                let d = signed_text(*value as i64);
                three("integer(", d.as_str(), ")")
            },
            WireValue::UnsignedInteger { value } => {
                let d = decimal_text(*value as u64);
                three("unsigned-integer(", d.as_str(), ")")
            },
            WireValue::FixedPoint7dps { raw } => {
                let d = signed_text(*raw as i64);
                three("fixed-point-7dps(raw=", d.as_str(), ")")
            },
            WireValue::Enum { enum_type, member } => {
                let d = three(enum_type.as_str(), ".", member.as_str());
                three("enum(", d.as_str(), ")")
            },
            WireValue::String { value } => {
                let d = quoted(value.as_str());
                three("string(", d.as_str(), ")")
            },
        }
    }
}

fn bound_or_unset(bound: &Option<String>) -> (r: &str)
    ensures
        r@ == bound_text(*bound),
{
    match bound {
        Some(b) => b.as_str(),
        None => "unset",
    }
}

impl ExpectedChannelValue {
    /// The expectation in words.
    pub fn describe(&self) -> (r: String)
        ensures
            r@ == expectation_text(*self),
    {
        let value = self.value.describe();
        match &self.tolerance {
            None => joined(value.as_str(), " exactly"),
            Some(ValueTolerance::FixedPoint7dps { raw }) => {
                let d = decimal_text(*raw as u64);
                let t = three(" within ", d.as_str(), " raw unit(s)");
                joined(value.as_str(), t.as_str())
            },
            Some(ValueTolerance::FloatingPoint { absolute, relative }) => {
                let t = three(" with absolute=", bound_or_unset(absolute), " relative=");
                let u = joined(t.as_str(), bound_or_unset(relative));
                joined(value.as_str(), u.as_str())
            },
        }
    }
}

/// Whether some report is of a capture from M1 Sim.
pub open spec fn has_capture(reports: Seq<ConformanceReport>) -> bool {
    exists|i: int| 0 <= i < reports.len() && (#[trigger] reports[i]).provenance is M1Sim
}

/// The reports before the first failure.
pub open spec fn passing(outcomes: Seq<Result<ConformanceReport, ConformanceError>>, n: nat) -> bool {
    forall|i: int| 0 <= i < n ==> (#[trigger] outcomes[i]) is Ok
}

/// Judges a suite by what its fixtures came to, in order: the first failure fails it,
/// and so does a missing capture where one is required. An empty suite is invalid.
pub fn run_conformance_suite(
    outcomes: Vec<Result<ConformanceReport, ConformanceError>>,
    options: ConformanceOptions,
) -> (r: Result<Vec<ConformanceReport>, ConformanceError>)
    ensures
        ({
            let s = outcomes@;
            if s.len() == 0 {
                r matches Err(ConformanceError::InvalidFixture { fixture, defect }) && fixture@
                    == "suite"@ && defect.kind == DefectKind::NoFixtures
            } else if passing(s, s.len()) {
                let reports = Seq::new(s.len(), |i: int| s[i]->Ok_0);
                if options.require_m1_sim_capture && !has_capture(reports) {
                    r matches Err(ConformanceError::MissingM1SimCapture)
                } else {
                    r matches Ok(v) && v@ == reports
                }
            } else {
                exists|i: int|
                    0 <= i < s.len() && passing(s, i as nat) && (#[trigger] s[i]) is Err && r
                        == Err::<Vec<ConformanceReport>, ConformanceError>(s[i]->Err_0)
            }
        }),
{
    if outcomes.len() == 0 {
        return Err(
            ConformanceError::InvalidFixture {
                fixture: "suite".to_owned(),
                defect: defect(DefectKind::NoFixtures, None, "suite"),
            },
        );
    }
    let ghost s = outcomes@;
    let total: usize = outcomes.len();
    let mut rest = outcomes;
    let mut reports: Vec<ConformanceReport> = Vec::new();
    let mut captured = false;
    let mut i: usize = 0;
    while i < total
        invariant
            i <= total == s.len(),
            s == outcomes@,
            rest@ == s.skip(i as int),
            passing(s, i as nat),
            reports@.len() == i,
            forall|j: int| 0 <= j < i ==> #[trigger] reports@[j] == s[j]->Ok_0,
            captured == has_capture(reports@),
        decreases total - i,
    {
        assert(rest@[0] == s[i as int]);
        let first = rest.remove(0);
        assert(rest@ =~= s.skip(i + 1));
        match first {
            Ok(report) => {
                let ghost before = reports@;
                let is_capture = match report.provenance {
                    ProvenanceKind::M1Sim => true,
                    _ => false,
                };
                reports.push(report);
                proof {
                    if is_capture {
                        assert(reports@[i as int].provenance is M1Sim);
                    }
                    if has_capture(before) {
                        let j = choose|j: int|
                            0 <= j < before.len() && (#[trigger] before[j]).provenance is M1Sim;
                        assert(reports@[j].provenance is M1Sim);
                    }
                    if has_capture(reports@) && !is_capture {
                        let j = choose|j: int|
                            0 <= j < reports@.len() && (#[trigger] reports@[j]).provenance is M1Sim;
                        assert(before[j].provenance is M1Sim);
                    }
                }
                if is_capture {
                    captured = true;
                }
            },
            Err(e) => {
                assert(s[i as int] is Err);
                return Err(e);
            },
        }
        i = i + 1;
    }
    assert(reports@ =~= Seq::new(s.len(), |i: int| s[i]->Ok_0));
    if options.require_m1_sim_capture && !captured {
        return Err(ConformanceError::MissingM1SimCapture);
    }
    Ok(reports)
}

} // verus!
