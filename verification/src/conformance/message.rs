//! What the failures of fixtures say.

use crate::conformance::{
    bound_of, ConformanceError, ConformanceMismatch, Defect, DefectKind, DefectView, PathLabel,
    Role, WireResult,
};
use crate::decimal::{double_literal, parse_double};
use crate::float::binary32::F32;
use crate::project::SymbolKind;
use crate::text::{
    decimal, decimal_text, enclosed, joined, quoted, quoted_text, signed_decimal, signed_text, trim,
    trimmed,
};
use crate::value::{M1Scalar, Value};
use vstd::prelude::*;
use vstd::string::*;

verus! {

/// A number of a run in words.
pub open spec fn float_text(x: F32) -> Seq<char> {
    if x.is_nan() {
        "NaN"@
    } else if x == (F32 { bits: 0x7f80_0000 }) {
        "Infinity"@
    } else if x == (F32 { bits: 0xff80_0000 }) {
        "-Infinity"@
    } else {
        x.text()
    }
}

/// A number of a run in words.
pub fn show_float(x: F32) -> (r: String)
    ensures
        r@ == float_text(x),
{
    if x.is_nan() {
        "NaN".to_owned()
    } else if x.bits == 0x7f80_0000 {
        "Infinity".to_owned()
    } else if x.bits == 0xff80_0000 {
        "-Infinity".to_owned()
    } else {
        x.to_text()
    }
}

/// A member of an enumeration in words.
pub open spec fn member_text(id: usize, member: Seq<char>) -> Seq<char> {
    "enum(id="@ + decimal(id as nat) + ", member="@ + quoted_text(member) + ")"@
}

/// A value of a run in words.
pub open spec fn runtime_text(v: Value) -> Seq<char> {
    match v {
        Value::Bool(true) => "boolean(true)"@,
        Value::Bool(false) => "boolean(false)"@,
        Value::M1(M1Scalar::FloatingPoint(x)) => "floating-point("@ + float_text(x) + ")"@,
        Value::M1(M1Scalar::Integer(x)) => "integer("@ + signed_decimal(x as int) + ")"@,
        Value::M1(M1Scalar::UnsignedInteger(x)) => "unsigned-integer("@ + decimal(x as nat) + ")"@,
        Value::M1(M1Scalar::FixedPoint7dps(x)) => "fixed-point-7dps(raw="@ + signed_decimal(
            x.raw as int,
        ) + ")"@,
        Value::Enum { id, member } => member_text(id, member@),
        Value::Str(s) => "string("@ + quoted_text(s@) + ")"@,
        Value::Float(x) => "floating-point("@ + x.text() + ")"@,
        Value::Int(x) => "integer("@ + signed_decimal(x as int) + ")"@,
        Value::Uint(x) => "unsigned-integer("@ + decimal(x as nat) + ")"@,
    }
}

/// A value of a run in words.
pub fn show_runtime(v: &Value) -> (r: String)
    ensures
        r@ == runtime_text(*v),
{
    match v {
        Value::Bool(b) => if *b {
            "boolean(true)".to_owned()
        } else {
            "boolean(false)".to_owned()
        },
        Value::M1(M1Scalar::FloatingPoint(x)) => enclosed(
            "floating-point(",
            show_float(*x).as_str(),
            ")",
        ),
        Value::M1(M1Scalar::Integer(x)) => enclosed("integer(", signed_text(*x as i64).as_str(), ")"),
        Value::M1(M1Scalar::UnsignedInteger(x)) => enclosed(
            "unsigned-integer(",
            decimal_text(*x as u64).as_str(),
            ")",
        ),
        Value::M1(M1Scalar::FixedPoint7dps(x)) => enclosed(
            "fixed-point-7dps(raw=",
            signed_text(x.raw as i64).as_str(),
            ")",
        ),
        Value::Enum { id, member } => {
            let head: String = enclosed("enum(id=", decimal_text(*id as u64).as_str(), ", member=");
            enclosed(head.as_str(), quoted(member.as_str()).as_str(), ")")
        },
        Value::Str(s) => enclosed("string(", quoted(s.as_str()).as_str(), ")"),
        Value::Float(x) => enclosed("floating-point(", x.to_text().as_str(), ")"),
        Value::Int(x) => enclosed("integer(", signed_text(*x).as_str(), ")"),
        Value::Uint(x) => enclosed("unsigned-integer(", decimal_text(*x).as_str(), ")"),
    }
}

/// A value on the wire in words, as the run would hold it.
pub open spec fn wire_runtime_text(w: WireResult) -> Seq<char> {
    match w {
        WireResult::Plain(v) => runtime_text(v),
        WireResult::Member(id, member) => member_text(id, member),
        WireResult::Text(s) => "string("@ + quoted_text(s) + ")"@,
        WireResult::Bad(_, _) => Seq::empty(),
    }
}

/// What is wrong where the families of two values differ.
pub open spec fn family_mismatch(expected: Seq<char>, actual: Seq<char>) -> Seq<char> {
    "runtime type differs, expected "@ + expected + ", got "@ + actual
}

/// What is wrong with a text that is no bound.
pub open spec fn bound_fault(text: Seq<char>) -> Seq<char> {
    if double_literal(trimmed(text)) is None {
        quoted_text(text) + " is not a decimal number"@
    } else {
        quoted_text(text) + " must be finite and non-negative"@
    }
}

/// What is wrong with a text that is no bound.
pub fn show_bound_fault(text: &str) -> (r: String)
    ensures
        r@ == bound_fault(text@),
{
    let t = trim(text);
    let why: &str = if parse_double(t.as_str()).is_none() {
        " is not a decimal number"
    } else {
        " must be finite and non-negative"
    };
    joined(quoted(text).as_str(), why)
}

/// What is wrong with the first of two bounds that is none.
pub open spec fn bounds_fault(absolute: Option<String>, relative: Option<String>) -> Seq<char> {
    if absolute is Some && bound_of(absolute->Some_0@) is None {
        "invalid absolute tolerance: "@ + bound_fault(absolute->Some_0@)
    } else {
        "invalid relative tolerance: "@ + bound_fault(relative->Some_0@)
    }
}

/// A role of a value in words.
pub open spec fn role_text(role: Role) -> Seq<char> {
    match role {
        Role::Initial => "initial-state"@,
        Role::Input => "input"@,
        Role::Expected => "expected output"@,
    }
}

fn show_role(role: Role) -> (r: &'static str)
    ensures
        r@ == role_text(role),
{
    match role {
        Role::Initial => "initial-state",
        Role::Input => "input",
        Role::Expected => "expected output",
    }
}

/// The label of a path in words.
pub open spec fn label_text(label: PathLabel) -> Seq<char> {
    match label {
        PathLabel::Project => "project"@,
        PathLabel::Config => "config"@,
        PathLabel::Manifest => "manifest"@,
    }
}

fn show_label(label: PathLabel) -> (r: &'static str)
    ensures
        r@ == label_text(label),
{
    match label {
        PathLabel::Project => "project",
        PathLabel::Config => "config",
        PathLabel::Manifest => "manifest",
    }
}

/// A kind of symbol by its name.
pub open spec fn symbol_kind_text(kind: SymbolKind) -> Seq<char> {
    match kind {
        SymbolKind::Channel => "Channel"@,
        SymbolKind::Parameter => "Parameter"@,
        SymbolKind::Constant => "Constant"@,
        SymbolKind::Table => "Table"@,
        SymbolKind::Group => "Group"@,
        SymbolKind::Object => "Object"@,
        SymbolKind::Reference => "Reference"@,
        SymbolKind::Function => "Function"@,
        SymbolKind::Method => "Method"@,
        SymbolKind::Other => "Other"@,
    }
}

fn show_symbol_kind(kind: SymbolKind) -> (r: &'static str)
    ensures
        r@ == symbol_kind_text(kind),
{
    match kind {
        SymbolKind::Channel => "Channel",
        SymbolKind::Parameter => "Parameter",
        SymbolKind::Constant => "Constant",
        SymbolKind::Table => "Table",
        SymbolKind::Group => "Group",
        SymbolKind::Object => "Object",
        SymbolKind::Reference => "Reference",
        SymbolKind::Function => "Function",
        SymbolKind::Method => "Method",
        SymbolKind::Other => "Other",
    }
}

/// A step before what is said of it.
pub open spec fn step_text(step: Option<usize>) -> Seq<char> {
    match step {
        Some(i) => "step "@ + decimal(i as nat) + " "@,
        None => Seq::empty(),
    }
}

fn show_step(step: Option<usize>) -> (r: String)
    ensures
        r@ == step_text(step),
{
    match step {
        Some(i) => enclosed("step ", decimal_text(i as u64).as_str(), " "),
        None => String::new(),
    }
}

/// The index of a step in digits.
pub open spec fn index_text(step: Option<usize>) -> Seq<char> {
    match step {
        Some(i) => decimal(i as nat),
        None => Seq::empty(),
    }
}

fn show_index(step: Option<usize>) -> (r: String)
    ensures
        r@ == index_text(step),
{
    match step {
        Some(i) => decimal_text(i as u64),
        None => String::new(),
    }
}

/// What is wrong with a fixture, in words.
pub open spec fn defect_text(d: DefectView) -> Seq<char> {
    let (kind, step, name) = d;
    let at = step_text(step);
    let q = quoted_text(name);
    match kind {
        DefectKind::SchemaVersion(v) => "unsupported schema_version "@ + decimal(v as nat)
            + ", expected 1"@,
        DefectKind::EmptyName => "`name` must not be empty"@,
        DefectKind::BadRate(rate) => "calculation_rate_hz must be finite and positive, got "@
            + rate.text(),
        DefectKind::MissingTarget => "function and cone modes require a non-empty target"@,
        DefectKind::UnexpectedTarget => "whole-project mode must not declare a target"@,
        DefectKind::EmptyProvenance => "provenance source and procedure must not be empty"@,
        DefectKind::IncompleteCapture => "m1-sim provenance requires a non-empty "@ + name,
        DefectKind::NoSteps => "at least one step is required"@,
        DefectKind::EmptyChannel(role) => role_text(role) + " channel must not be empty"@,
        DefectKind::DuplicateInitial => "initial state declares channel "@ + q + " more than once"@,
        DefectKind::NotDecimal => "floating-point value "@ + q + " is not a binary32 decimal"@,
        DefectKind::DecimalRange => "finite decimal "@ + q + " is outside the binary32 range"@,
        DefectKind::EmptyEnum => "enum type and member names must not be empty"@,
        DefectKind::OffGrid { time_s, rate_hz, expected } => at + "time_s "@ + time_s.text()
            + " is off the "@ + rate_hz.text() + " Hz grid; expected "@ + expected.text(),
        DefectKind::NothingExpected => at + "must declare at least one expected output"@,
        DefectKind::DuplicateInput => at + "declares input channel "@ + q + " more than once"@,
        DefectKind::DuplicateExpected => at + "declares expected channel "@ + q
            + " more than once"@,
        DefectKind::NoFloatBound => at + "channel "@ + q
            + " needs an absolute or relative floating-point tolerance"@,
        DefectKind::BadBound => at + "channel "@ + name,
        DefectKind::NoFloatTolerance => at + "channel "@ + q
            + " needs a floating-point tolerance"@,
        DefectKind::NoFixedTolerance => at + "channel "@ + q
            + " needs a fixed-point raw tolerance"@,
        DefectKind::NeedlessTolerance => at + "channel "@ + q
            + " has a tolerance, but its type compares exactly"@,
        DefectKind::OutputsDiffer => at + "expected-channel set differs from step 0"@,
        DefectKind::LateInput => "input channel "@ + q + " first changes at step "@ + index_text(
            step,
        ) + "; seed it in initial_state or step 0"@,
        DefectKind::DrivenOutput => "expected channel "@ + q
            + " is also a fixture input; expected outputs must be disjoint from externally driven inputs"@,
        DefectKind::NoEnum => "project has no enum type "@ + q,
        DefectKind::NoMember => "enum type "@ + name,
        DefectKind::NoSymbol(role) => at + role_text(role) + " channel "@ + q
            + " is not a project symbol; use its canonical project path"@,
        DefectKind::NotChannel(role, kind) => at + role_text(role) + " path "@ + q
            + " resolves to "@ + symbol_kind_text(kind) + ", not a project Channel"@,
        DefectKind::WrongFamily { role, declared, stored } => at + role_text(role) + " channel "@
            + q + " declares "@ + declared.text() + ", but the project stores "@ + stored.text(),
        DefectKind::Incompatible(role) => at + role_text(role) + " channel "@ + name,
        DefectKind::BadDuration => "fixture tick grid produces an invalid duration"@,
        DefectKind::TickCount { ran, steps } => "runner produced "@ + decimal(ran as nat)
            + " ticks for "@ + decimal(steps as nat) + " fixture steps"@,
        DefectKind::UndeclaredSource => "evaluation used undeclared external source "@ + q
            + "; every external source must be an explicit fixture input or initial-state channel"@,
        DefectKind::TickInstant { ran, recorded } => "runner tick "@ + index_text(step)
            + " was at "@ + ran.text() + " s, fixture records "@ + recorded.text() + " s"@,
        DefectKind::SuppliedOutput => at + "expected channel "@ + q
            + " is externally supplied rather than evaluator-computed at that tick"@,
        DefectKind::BadPath(label) => label_text(label) + " path "@ + q
            + " must be a normalized path relative to the project bundle root"@,
        DefectKind::DuplicateScript => "project bundle contains duplicate script basename "@ + name
            + "; evaluator loading would be filesystem-order dependent"@,
        DefectKind::BadDigest => "manifest entry "@ + name + " has an invalid SHA-256 digest"@,
        DefectKind::DuplicateFile => "manifest declares "@ + name + " more than once"@,
        DefectKind::ManifestDiffers => "project manifest does not match evaluator inputs; "@ + name,
        DefectKind::Symlink => "project bundle path "@ + name + " must not contain a symlink"@,
        DefectKind::ScriptSymlink => "project bundle contains symlink "@ + name
            + ", which cannot be hashed portably"@,
        DefectKind::NotFile => "project bundle path "@ + name + " is not a regular file"@,
        DefectKind::NotDirectory => "project bundle path "@ + name + " is not a directory"@,
        DefectKind::NoRoot => "project bundle root "@ + name + " is not a directory"@,
        DefectKind::NoScriptRoot => "project script root "@ + name + " is not a directory"@,
        DefectKind::NoFixtures => "at least one fixture path is required"@,
    }
}

impl Defect {
    /// What is wrong, in words.
    pub fn to_text(&self) -> (r: String)
        ensures
            r@ == defect_text(self@),
    {
        let at: String = show_step(self.step);
        let name: &str = self.name.as_str();
        let quote: String = quoted(name);
        let q: &str = quote.as_str();
        match self.kind {
            DefectKind::SchemaVersion(v) => enclosed(
                "unsupported schema_version ",
                decimal_text(v as u64).as_str(),
                ", expected 1",
            ),
            DefectKind::EmptyName => "`name` must not be empty".to_owned(),
            DefectKind::BadRate(rate) => joined(
                "calculation_rate_hz must be finite and positive, got ",
                rate.to_text().as_str(),
            ),
            DefectKind::MissingTarget => {
                "function and cone modes require a non-empty target".to_owned()
            },
            DefectKind::UnexpectedTarget => {
                "whole-project mode must not declare a target".to_owned()
            },
            DefectKind::EmptyProvenance => {
                "provenance source and procedure must not be empty".to_owned()
            },
            DefectKind::IncompleteCapture => joined(
                "m1-sim provenance requires a non-empty ",
                name,
            ),
            DefectKind::NoSteps => "at least one step is required".to_owned(),
            DefectKind::EmptyChannel(role) => joined(
                show_role(role),
                " channel must not be empty",
            ),
            DefectKind::DuplicateInitial => enclosed(
                "initial state declares channel ",
                q,
                " more than once",
            ),
            DefectKind::NotDecimal => enclosed(
                "floating-point value ",
                q,
                " is not a binary32 decimal",
            ),
            DefectKind::DecimalRange => enclosed(
                "finite decimal ",
                q,
                " is outside the binary32 range",
            ),
            DefectKind::EmptyEnum => "enum type and member names must not be empty".to_owned(),
            DefectKind::OffGrid { time_s, rate_hz, expected } => at.concat("time_s ").concat(
                time_s.to_text().as_str(),
            ).concat(" is off the ").concat(rate_hz.to_text().as_str()).concat(
                " Hz grid; expected ",
            ).concat(expected.to_text().as_str()),
            DefectKind::NothingExpected => at.concat("must declare at least one expected output"),
            DefectKind::DuplicateInput => at.concat("declares input channel ").concat(q).concat(
                " more than once",
            ),
            DefectKind::DuplicateExpected => at.concat("declares expected channel ").concat(
                q,
            ).concat(" more than once"),
            DefectKind::NoFloatBound => at.concat("channel ").concat(q).concat(
                " needs an absolute or relative floating-point tolerance",
            ),
            DefectKind::BadBound => at.concat("channel ").concat(name),
            DefectKind::NoFloatTolerance => at.concat("channel ").concat(q).concat(
                " needs a floating-point tolerance",
            ),
            DefectKind::NoFixedTolerance => at.concat("channel ").concat(q).concat(
                " needs a fixed-point raw tolerance",
            ),
            DefectKind::NeedlessTolerance => at.concat("channel ").concat(q).concat(
                " has a tolerance, but its type compares exactly",
            ),
            DefectKind::OutputsDiffer => at.concat("expected-channel set differs from step 0"),
            DefectKind::LateInput => enclosed("input channel ", q, " first changes at step ").concat(
                show_index(self.step).as_str(),
            ).concat("; seed it in initial_state or step 0"),
            DefectKind::DrivenOutput => enclosed(
                "expected channel ",
                q,
                " is also a fixture input; expected outputs must be disjoint from externally driven inputs",
            ),
            DefectKind::NoEnum => joined("project has no enum type ", q),
            DefectKind::NoMember => joined("enum type ", name),
            DefectKind::NoSymbol(role) => at.concat(show_role(role)).concat(" channel ").concat(
                q,
            ).concat(" is not a project symbol; use its canonical project path"),
            DefectKind::NotChannel(role, kind) => at.concat(show_role(role)).concat(
                " path ",
            ).concat(q).concat(" resolves to ").concat(show_symbol_kind(kind)).concat(
                ", not a project Channel",
            ),
            DefectKind::WrongFamily { role, declared, stored } => at.concat(
                show_role(role),
            ).concat(" channel ").concat(q).concat(" declares ").concat(declared.name()).concat(
                ", but the project stores ",
            ).concat(stored.name()),
            DefectKind::Incompatible(role) => at.concat(show_role(role)).concat(
                " channel ",
            ).concat(name),
            DefectKind::BadDuration => "fixture tick grid produces an invalid duration".to_owned(),
            DefectKind::TickCount { ran, steps } => enclosed(
                "runner produced ",
                decimal_text(ran as u64).as_str(),
                " ticks for ",
            ).concat(decimal_text(steps as u64).as_str()).concat(" fixture steps"),
            DefectKind::UndeclaredSource => enclosed(
                "evaluation used undeclared external source ",
                q,
                "; every external source must be an explicit fixture input or initial-state channel",
            ),
            DefectKind::TickInstant { ran, recorded } => enclosed(
                "runner tick ",
                show_index(self.step).as_str(),
                " was at ",
            ).concat(ran.to_text().as_str()).concat(" s, fixture records ").concat(
                recorded.to_text().as_str(),
            ).concat(" s"),
            DefectKind::SuppliedOutput => at.concat("expected channel ").concat(q).concat(
                " is externally supplied rather than evaluator-computed at that tick",
            ),
            DefectKind::BadPath(label) => enclosed(show_label(label), " path ", q).concat(
                " must be a normalized path relative to the project bundle root",
            ),
            DefectKind::DuplicateScript => enclosed(
                "project bundle contains duplicate script basename ",
                name,
                "; evaluator loading would be filesystem-order dependent",
            ),
            DefectKind::BadDigest => enclosed(
                "manifest entry ",
                name,
                " has an invalid SHA-256 digest",
            ),
            DefectKind::DuplicateFile => enclosed("manifest declares ", name, " more than once"),
            DefectKind::ManifestDiffers => joined(
                "project manifest does not match evaluator inputs; ",
                name,
            ),
            DefectKind::Symlink => enclosed(
                "project bundle path ",
                name,
                " must not contain a symlink",
            ),
            DefectKind::ScriptSymlink => enclosed(
                "project bundle contains symlink ",
                name,
                ", which cannot be hashed portably",
            ),
            DefectKind::NotFile => enclosed("project bundle path ", name, " is not a regular file"),
            DefectKind::NotDirectory => enclosed("project bundle path ", name, " is not a directory"),
            DefectKind::NoRoot => enclosed("project bundle root ", name, " is not a directory"),
            DefectKind::NoScriptRoot => enclosed(
                "project script root ",
                name,
                " is not a directory",
            ),
            DefectKind::NoFixtures => "at least one fixture path is required".to_owned(),
        }
    }
}

/// A missed expectation in words.
pub open spec fn mismatch_text(m: ConformanceMismatch) -> Seq<char> {
    "fixture "@ + quoted_text(m.fixture@) + " step "@ + decimal(m.step as nat) + " at t = "@
        + m.time_s.text() + " s, channel "@ + quoted_text(m.channel@) + ": "@ + m.detail@
        + "; expected "@ + m.expected@ + ", got "@ + match m.actual {
        Some(v) => runtime_text(v),
        None => "no value"@,
    }
}

impl ConformanceMismatch {
    /// The missed expectation in words.
    pub fn to_text(&self) -> (r: String)
        ensures
            r@ == mismatch_text(*self),
    {
        let actual: String = match &self.actual {
            Some(v) => show_runtime(v),
            None => "no value".to_owned(),
        };
        enclosed("fixture ", quoted(self.fixture.as_str()).as_str(), " step ").concat(
            decimal_text(self.step as u64).as_str(),
        ).concat(" at t = ").concat(self.time_s.to_text().as_str()).concat(
            " s, channel ",
        ).concat(quoted(self.channel.as_str()).as_str()).concat(": ").concat(
            self.detail.as_str(),
        ).concat("; expected ").concat(self.expected.as_str()).concat(", got ").concat(
            actual.as_str(),
        )
    }
}

/// A failure in words.
pub open spec fn failure_text(e: ConformanceError) -> Seq<char> {
    match e {
        ConformanceError::Io { path, detail } => path@ + ": "@ + detail@,
        ConformanceError::Parse { path, detail } => path@ + ": conformance fixture parse error: "@
            + detail@,
        ConformanceError::InvalidFixture { fixture, defect } => "fixture "@ + quoted_text(fixture@)
            + ": "@ + defect_text(defect@),
        ConformanceError::HashMismatch { path, expected, actual } => path@
            + ": SHA-256 mismatch, fixture has "@ + expected@ + ", file has "@ + actual@,
        ConformanceError::Evaluation { fixture, source } => "fixture "@ + quoted_text(fixture@)
            + ": "@ + source.message(),
        ConformanceError::Mismatch(m) => mismatch_text(*m),
        ConformanceError::MissingM1SimCapture => {
            "conformance suite passed, but no fixture declared `m1-sim` provenance"@
        },
    }
}

impl ConformanceError {
    /// The failure in words.
    pub fn to_text(&self) -> (r: String)
        ensures
            r@ == failure_text(*self),
    {
        match self {
            ConformanceError::Io { path, detail } => enclosed(
                path.as_str(),
                ": ",
                detail.as_str(),
            ),
            ConformanceError::Parse { path, detail } => enclosed(
                path.as_str(),
                ": conformance fixture parse error: ",
                detail.as_str(),
            ),
            ConformanceError::InvalidFixture { fixture, defect } => enclosed(
                "fixture ",
                quoted(fixture.as_str()).as_str(),
                ": ",
            ).concat(defect.to_text().as_str()),
            ConformanceError::HashMismatch { path, expected, actual } => enclosed(
                path.as_str(),
                ": SHA-256 mismatch, fixture has ",
                expected.as_str(),
            ).concat(", file has ").concat(actual.as_str()),
            ConformanceError::Evaluation { fixture, source } => enclosed(
                "fixture ",
                quoted(fixture.as_str()).as_str(),
                ": ",
            ).concat(source.to_text().as_str()),
            ConformanceError::Mismatch(m) => m.to_text(),
            ConformanceError::MissingM1SimCapture => {
                "conformance suite passed, but no fixture declared `m1-sim` provenance".to_owned()
            },
        }
    }
}

} // verus!
