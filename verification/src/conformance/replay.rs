//! Replaying a fixture against a project and judging the recorded run.

use crate::coerce::{channel_wants, coerce_for_channel, names_fixed};
use crate::conformance::document::{
    at_instant, contains_value, grid_time, has_value, input_names, is_at_instant, is_input,
    role_of_value, run_defect, value_role,
};
use crate::conformance::message::{family_mismatch, runtime_text, wire_runtime_text};
use crate::conformance::{
    compare_value, defect, exactly, expectation_text, is_invalid, is_wire_value, value_mismatch,
    wire_value, ConformanceError, ConformanceFixture, ConformanceMismatch, ConformanceReport, Defect,
    DefectKind, DefectView, ExpectedChannelValue, FixtureChannelValue, FixtureRun, FixtureRunMode,
    FixtureStep, Role, ValueTolerance, WireResult, WireValue,
};
use crate::error::EvalError;
use crate::float::binary64::F64;
use crate::log::{InputKind, InputSeries};
use crate::map::{in_order, lemma_map_of, map_of};
use crate::project::{text_of, Project, Symbol, SymbolKind};
use crate::scenario::{InitialValue, RunMode, Scenario};
use crate::text::{
    before, chars_of, decimal, enclosed, lemma_before_total, lower, lowered, quoted, quoted_text,
    same,
};
use crate::trace::{has_channel, supplied_at, value_at, Trace};
use crate::value::{value_text, M1Scalar, Value, ValueType};
use vstd::prelude::*;

verus! {

/// The family of a runtime value.
#[derive(Debug, Clone, Copy, PartialEq, Eq, Structural)]
pub enum RuntimeFamily {
    /// Boolean.
    Boolean,
    /// Floating point.
    FloatingPoint,
    /// Signed integer.
    Integer,
    /// Unsigned integer.
    UnsignedInteger,
    /// Fixed point.
    FixedPoint7dps,
    /// An enumeration.
    Enum(usize),
    /// Text.
    String,
}

impl RuntimeFamily {
    /// The name of the family.
    pub open spec fn text(self) -> Seq<char> {
        match self {
            RuntimeFamily::Boolean => "Boolean"@,
            RuntimeFamily::FloatingPoint => "FloatingPoint"@,
            RuntimeFamily::Integer => "Integer"@,
            RuntimeFamily::UnsignedInteger => "UnsignedInteger"@,
            RuntimeFamily::FixedPoint7dps => "FixedPoint7dps"@,
            RuntimeFamily::Enum(_) => "Enumeration"@,
            RuntimeFamily::String => "String"@,
        }
    }

    /// The name of the family.
    pub fn name(self) -> (r: &'static str)
        ensures
            r@ == self.text(),
    {
        match self {
            RuntimeFamily::Boolean => "Boolean",
            RuntimeFamily::FloatingPoint => "FloatingPoint",
            RuntimeFamily::Integer => "Integer",
            RuntimeFamily::UnsignedInteger => "UnsignedInteger",
            RuntimeFamily::FixedPoint7dps => "FixedPoint7dps",
            RuntimeFamily::Enum(_) => "Enumeration",
            RuntimeFamily::String => "String",
        }
    }
}

/// The family of a value.
pub open spec fn family_of(v: Value) -> RuntimeFamily {
    match v {
        Value::Bool(_) => RuntimeFamily::Boolean,
        Value::M1(M1Scalar::FloatingPoint(_)) | Value::Float(_) => RuntimeFamily::FloatingPoint,
        Value::M1(M1Scalar::Integer(_)) | Value::Int(_) => RuntimeFamily::Integer,
        Value::M1(M1Scalar::UnsignedInteger(_)) | Value::Uint(_) => RuntimeFamily::UnsignedInteger,
        Value::M1(M1Scalar::FixedPoint7dps(_)) => RuntimeFamily::FixedPoint7dps,
        Value::Enum { id, .. } => RuntimeFamily::Enum(id),
        Value::Str(_) => RuntimeFamily::String,
    }
}

/// The family of a value.
pub fn runtime_family(v: &Value) -> (r: RuntimeFamily)
    ensures
        r == family_of(*v),
{
    match v {
        Value::Bool(_) => RuntimeFamily::Boolean,
        Value::M1(M1Scalar::FloatingPoint(_)) | Value::Float(_) => RuntimeFamily::FloatingPoint,
        Value::M1(M1Scalar::Integer(_)) | Value::Int(_) => RuntimeFamily::Integer,
        Value::M1(M1Scalar::UnsignedInteger(_)) | Value::Uint(_) => RuntimeFamily::UnsignedInteger,
        Value::M1(M1Scalar::FixedPoint7dps(_)) => RuntimeFamily::FixedPoint7dps,
        Value::Enum { id, .. } => RuntimeFamily::Enum(*id),
        Value::Str(_) => RuntimeFamily::String,
    }
}

/// A text without blanks, underscores and hyphens.
pub open spec fn compact(s: Seq<char>) -> Seq<char>
    decreases s.len(),
{
    if s.len() == 0 {
        Seq::empty()
    } else if s.last() == ' ' || s.last() == '_' || s.last() == '-' {
        compact(s.drop_last())
    } else {
        compact(s.drop_last()).push(s.last())
    }
}

fn compacted(s: &str) -> (r: String)
    ensures
        r@ == compact(s@),
{
    let v = chars_of(s);
    let mut r: String = String::new();
    let mut i: usize = 0;
    assert(r@ =~= compact(s@.take(0)));
    while i < v.len()
        invariant
            i <= v.len(),
            v@ == s@,
            r@ == compact(s@.take(i as int)),
        decreases v.len() - i,
    {
        let c: char = v[i];
        assert(s@.take(i + 1).drop_last() =~= s@.take(i as int));
        assert(s@.take(i + 1).last() == c);
        if !(c == ' ' || c == '_' || c == '-') {
            r.push(c);
        }
        i = i + 1;
    }
    assert(s@.take(i as int) =~= s@);
    r
}

/// The family that a declared type names.
pub open spec fn named_family(declared: Seq<char>) -> Option<RuntimeFamily> {
    let n = compact(lowered(declared));
    if n == "bool"@ || n == "boolean"@ {
        Some(RuntimeFamily::Boolean)
    } else if n == "f32"@ || n == "f64"@ || n == "float"@ || n == "floatingpoint"@ {
        Some(RuntimeFamily::FloatingPoint)
    } else if n == "s8"@ || n == "s16"@ || n == "s32"@ || n == "s64"@ || n == "integer"@ {
        Some(RuntimeFamily::Integer)
    } else if n == "u8"@ || n == "u16"@ || n == "u32"@ || n == "u64"@ || n == "unsigned"@ || n
        == "unsignedinteger"@ {
        Some(RuntimeFamily::UnsignedInteger)
    } else if n == "fixedpoint7dps"@ || n == "fixed7dps"@ {
        Some(RuntimeFamily::FixedPoint7dps)
    } else if n == "str"@ || n == "string"@ {
        Some(RuntimeFamily::String)
    } else {
        None
    }
}

/// The family that a declared type names.
fn family_named(declared: &str) -> (r: Option<RuntimeFamily>)
    ensures
        r == named_family(declared@),
{
    let l = lower(declared);
    let c = compacted(l.as_str());
    let n: &str = c.as_str();
    if same(n, "bool") || same(n, "boolean") {
        Some(RuntimeFamily::Boolean)
    } else if same(n, "f32") || same(n, "f64") || same(n, "float") || same(n, "floatingpoint") {
        Some(RuntimeFamily::FloatingPoint)
    } else if same(n, "s8") || same(n, "s16") || same(n, "s32") || same(n, "s64") || same(n, "integer") {
        Some(RuntimeFamily::Integer)
    } else if same(n, "u8") || same(n, "u16") || same(n, "u32") || same(n, "u64") || same(n, "unsigned")
        || same(n, "unsignedinteger") {
        Some(RuntimeFamily::UnsignedInteger)
    } else if same(n, "fixedpoint7dps") || same(n, "fixed7dps") {
        Some(RuntimeFamily::FixedPoint7dps)
    } else if same(n, "str") || same(n, "string") {
        Some(RuntimeFamily::String)
    } else {
        None
    }
}

/// The family of a static type.
pub open spec fn type_family(ty: ValueType) -> Option<RuntimeFamily> {
    match ty {
        ValueType::Boolean => Some(RuntimeFamily::Boolean),
        ValueType::Integer => Some(RuntimeFamily::Integer),
        ValueType::Unsigned => Some(RuntimeFamily::UnsignedInteger),
        ValueType::Float => Some(RuntimeFamily::FloatingPoint),
        ValueType::String => Some(RuntimeFamily::String),
        ValueType::Enum(id) => Some(RuntimeFamily::Enum(id)),
        ValueType::Unknown => None,
    }
}

/// The family that a channel stores: the one its declared type names, else that of its type.
pub open spec fn stored_family(ty: ValueType, declared: Option<Seq<char>>) -> Option<RuntimeFamily> {
    match declared {
        Some(d) if named_family(d) is Some => named_family(d),
        _ => type_family(ty),
    }
}

/// The family that a channel stores.
pub fn project_runtime_family(ty: ValueType, declared: &Option<String>) -> (r: Option<RuntimeFamily>)
    ensures
        r == stored_family(ty, text_of(*declared)),
{
    if let Some(d) = declared {
        let f = family_named(d.as_str());
        if f.is_some() {
            return f;
        }
    }
    match ty {
        ValueType::Boolean => Some(RuntimeFamily::Boolean),
        ValueType::Integer => Some(RuntimeFamily::Integer),
        ValueType::Unsigned => Some(RuntimeFamily::UnsignedInteger),
        ValueType::Float => Some(RuntimeFamily::FloatingPoint),
        ValueType::String => Some(RuntimeFamily::String),
        ValueType::Enum(id) => Some(RuntimeFamily::Enum(id)),
        ValueType::Unknown => None,
    }
}

/// The family of a value on the wire.
pub open spec fn wire_family(w: WireResult) -> RuntimeFamily {
    match w {
        WireResult::Plain(v) => family_of(v),
        WireResult::Member(id, _) => RuntimeFamily::Enum(id),
        WireResult::Text(_) | WireResult::Bad(..) => RuntimeFamily::String,
    }
}

/// The family that a symbol converts a family to.
pub open spec fn converted_family(symbol: Symbol, f: RuntimeFamily) -> Option<RuntimeFamily> {
    let integral = f is Integer || f is UnsignedInteger;
    if names_fixed(text_of(symbol.declared_type)) {
        if f is FixedPoint7dps {
            Some(f)
        } else {
            None
        }
    } else if symbol.value_type is Unknown || type_family(symbol.value_type) == Some(f) {
        Some(f)
    } else if symbol.value_type is Integer && integral {
        Some(RuntimeFamily::Integer)
    } else if symbol.value_type is Unsigned && integral {
        Some(RuntimeFamily::UnsignedInteger)
    } else if symbol.value_type is Float && (integral || f is FixedPoint7dps) {
        Some(RuntimeFamily::FloatingPoint)
    } else {
        None
    }
}

/// A value on the wire as errors show it.
pub open spec fn wire_shown(w: WireResult) -> Seq<char> {
    match w {
        WireResult::Plain(v) => value_text(v),
        WireResult::Member(id, member) => "Enum { id: "@ + decimal(id as nat) + ", member: "@
            + quoted_text(member) + " }"@,
        WireResult::Text(s) => "Str("@ + quoted_text(s) + ")"@,
        WireResult::Bad(_, _) => Seq::empty(),
    }
}

/// What is wrong with a value that does not convert to what a channel stores.
pub open spec fn incompatible_text(project: Project, channel: Seq<char>, w: WireResult) -> Seq<
    char,
> {
    quoted_text(channel) + " has an incompatible typed value: "@ + ("type error: "@ + (channel
        + " expects "@ + channel_wants(project, channel) + ", got "@ + wire_shown(w)))
}

/// What is wrong with a value for a channel of a project.
pub open spec fn binding_defect(
    project: Project,
    channel: Seq<char>,
    wire: WireValue,
    step: Option<usize>,
    role: Role,
) -> Option<DefectView> {
    if !project.symbols@.contains_key(channel) {
        Some((DefectKind::NoSymbol(role), step, channel))
    } else {
        let symbol = project.symbols@[channel];
        let w = wire_value(wire, project);
        let f = wire_family(w);
        let stored = stored_family(symbol.value_type, text_of(symbol.declared_type));
        if symbol.kind != SymbolKind::Channel {
            Some((DefectKind::NotChannel(role, symbol.kind), step, channel))
        } else if w is Bad {
            Some((w->Bad_0, None, w->Bad_1))
        } else if stored is Some && stored != Some(f) {
            Some(
                (
                    DefectKind::WrongFamily { role, declared: f, stored: stored->Some_0 },
                    step,
                    channel,
                ),
            )
        } else if converted_family(symbol, f) is None {
            Some((DefectKind::Incompatible(role), step, incompatible_text(project, channel, w)))
        } else if converted_family(symbol, f) != Some(f) {
            Some(
                (
                    DefectKind::WrongFamily {
                        role,
                        declared: f,
                        stored: converted_family(symbol, f)->Some_0,
                    },
                    step,
                    channel,
                ),
            )
        } else {
            None
        }
    }
}

/// What is wrong with a value for a channel of a project.
pub fn validate_project_value(
    project: &Project,
    channel: &str,
    wire: &WireValue,
    step: Option<usize>,
    role: Role,
) -> (r: Option<Defect>)
    ensures
        match r {
            Some(d) => binding_defect(*project, channel@, *wire, step, role) == Some(d@),
            None => binding_defect(*project, channel@, *wire, step, role) is None,
        },
{
    match project.symbols.get(channel) {
        None => Some(defect(DefectKind::NoSymbol(role), step, channel)),
        Some(symbol) => {
            if symbol.kind != SymbolKind::Channel {
                return Some(defect(DefectKind::NotChannel(role, symbol.kind), step, channel));
            }
            let value = match wire.to_value(project) {
                Err(d) => {
                    return Some(d);
                },
                Ok(v) => v,
            };
            let declared = runtime_family(&value);
            if let Some(stored) = project_runtime_family(symbol.value_type, &symbol.declared_type) {
                if declared != stored {
                    return Some(
                        defect(DefectKind::WrongFamily { role, declared, stored }, step, channel),
                    );
                }
            }
            match coerce_for_channel(channel, value, project) {
                Err(e) => {
                    let name: String = enclosed(
                        quoted(channel).as_str(),
                        " has an incompatible typed value: ",
                        e.to_text().as_str(),
                    );
                    Some(defect(DefectKind::Incompatible(role), step, name.as_str()))
                },
                Ok(c) => {
                    let stored = runtime_family(&c);
                    if declared != stored {
                        Some(defect(DefectKind::WrongFamily { role, declared, stored }, step, channel))
                    } else {
                        None
                    }
                },
            }
        },
    }
}

/// The first defect among the first `n` values.
pub open spec fn value_bindings_defect(
    project: Project,
    items: Seq<FixtureChannelValue>,
    n: nat,
    step: Option<usize>,
) -> Option<DefectView>
    decreases n,
{
    if n == 0 {
        None
    } else {
        match value_bindings_defect(project, items, (n - 1) as nat, step) {
            Some(d) => Some(d),
            None => binding_defect(
                project,
                items[n - 1].channel@,
                items[n - 1].value,
                step,
                value_role(step),
            ),
        }
    }
}

proof fn lemma_value_bindings(
    project: Project,
    items: Seq<FixtureChannelValue>,
    n: nat,
    m: nat,
    step: Option<usize>,
)
    requires
        n <= m,
        value_bindings_defect(project, items, n, step) is Some,
    ensures
        value_bindings_defect(project, items, m, step) == value_bindings_defect(
            project,
            items,
            n,
            step,
        ),
    decreases m - n,
{
    if n < m {
        lemma_value_bindings(project, items, n, (m - 1) as nat, step);
    }
}

fn validate_values(project: &Project, items: &Vec<FixtureChannelValue>, step: Option<usize>) -> (r:
    Option<Defect>)
    ensures
        match r {
            Some(d) => value_bindings_defect(*project, items@, items@.len(), step) == Some(d@),
            None => value_bindings_defect(*project, items@, items@.len(), step) is None,
        },
{
    let mut i: usize = 0;
    while i < items.len()
        invariant
            i <= items.len(),
            value_bindings_defect(*project, items@, i as nat, step) is None,
        decreases items.len() - i,
    {
        let found = validate_project_value(
            project,
            items[i].channel.as_str(),
            &items[i].value,
            step,
            role_of_value(step),
        );
        if found.is_some() {
            proof {
                lemma_value_bindings(*project, items@, (i + 1) as nat, items@.len(), step);
            }
            return found;
        }
        i = i + 1;
    }
    None
}

/// The first defect among the first `n` expectations.
pub open spec fn expectation_bindings_defect(
    project: Project,
    items: Seq<ExpectedChannelValue>,
    n: nat,
    step: Option<usize>,
) -> Option<DefectView>
    decreases n,
{
    if n == 0 {
        None
    } else {
        match expectation_bindings_defect(project, items, (n - 1) as nat, step) {
            Some(d) => Some(d),
            None => binding_defect(
                project,
                items[n - 1].channel@,
                items[n - 1].value,
                step,
                Role::Expected,
            ),
        }
    }
}

proof fn lemma_expectation_bindings(
    project: Project,
    items: Seq<ExpectedChannelValue>,
    n: nat,
    m: nat,
    step: Option<usize>,
)
    requires
        n <= m,
        expectation_bindings_defect(project, items, n, step) is Some,
    ensures
        expectation_bindings_defect(project, items, m, step) == expectation_bindings_defect(
            project,
            items,
            n,
            step,
        ),
    decreases m - n,
{
    if n < m {
        lemma_expectation_bindings(project, items, n, (m - 1) as nat, step);
    }
}

fn validate_expectations(project: &Project, items: &Vec<ExpectedChannelValue>, step: Option<usize>) -> (r:
    Option<Defect>)
    ensures
        match r {
            Some(d) => expectation_bindings_defect(*project, items@, items@.len(), step) == Some(d@),
            None => expectation_bindings_defect(*project, items@, items@.len(), step) is None,
        },
{
    let mut i: usize = 0;
    while i < items.len()
        invariant
            i <= items.len(),
            expectation_bindings_defect(*project, items@, i as nat, step) is None,
        decreases items.len() - i,
    {
        let found = validate_project_value(
            project,
            items[i].channel.as_str(),
            &items[i].value,
            step,
            Role::Expected,
        );
        if found.is_some() {
            proof {
                lemma_expectation_bindings(*project, items@, (i + 1) as nat, items@.len(), step);
            }
            return found;
        }
        i = i + 1;
    }
    None
}

/// The first defect of a step: its inputs, then its expectations.
pub open spec fn step_bindings_defect(project: Project, s: FixtureStep, i: usize) -> Option<DefectView> {
    match value_bindings_defect(project, s.inputs@, s.inputs@.len(), Some(i)) {
        Some(d) => Some(d),
        None => expectation_bindings_defect(project, s.expected@, s.expected@.len(), Some(i)),
    }
}

/// The first defect among the first `n` steps.
pub open spec fn steps_bindings_defect(project: Project, steps: Seq<FixtureStep>, n: nat) -> Option<
    DefectView,
>
    decreases n,
{
    if n == 0 {
        None
    } else {
        match steps_bindings_defect(project, steps, (n - 1) as nat) {
            Some(d) => Some(d),
            None => step_bindings_defect(project, steps[n - 1], (n - 1) as usize),
        }
    }
}

proof fn lemma_steps_bindings(project: Project, steps: Seq<FixtureStep>, n: nat, m: nat)
    requires
        n <= m,
        steps_bindings_defect(project, steps, n) is Some,
    ensures
        steps_bindings_defect(project, steps, m) == steps_bindings_defect(project, steps, n),
    decreases m - n,
{
    if n < m {
        lemma_steps_bindings(project, steps, n, (m - 1) as nat);
    }
}

/// What is wrong with a fixture for a project.
pub open spec fn bindings_defect(f: ConformanceFixture, project: Project) -> Option<DefectView> {
    match value_bindings_defect(project, f.initial_state@, f.initial_state@.len(), None) {
        Some(d) => Some(d),
        None => steps_bindings_defect(project, f.steps@, f.steps@.len()),
    }
}

/// Holds every channel and value of a fixture to a project.
pub fn validate_project_bindings(fixture: &ConformanceFixture, project: &Project) -> (r: Result<
    (),
    ConformanceError,
>)
    ensures
        match bindings_defect(*fixture, *project) {
            Some(d) => r matches Err(e) && is_invalid(e, *fixture, d),
            None => r is Ok,
        },
{
    if let Some(d) = validate_values(project, &fixture.initial_state, None) {
        return Err(fixture.invalid(d));
    }
    let mut i: usize = 0;
    while i < fixture.steps.len()
        invariant
            i <= fixture.steps.len(),
            value_bindings_defect(
                *project,
                fixture.initial_state@,
                fixture.initial_state@.len(),
                None,
            ) is None,
            steps_bindings_defect(*project, fixture.steps@, i as nat) is None,
        decreases fixture.steps.len() - i,
    {
        if let Some(d) = validate_values(project, &fixture.steps[i].inputs, Some(i)) {
            proof {
                lemma_steps_bindings(*project, fixture.steps@, (i + 1) as nat, fixture.steps@.len());
            }
            return Err(fixture.invalid(d));
        }
        if let Some(d) = validate_expectations(project, &fixture.steps[i].expected, Some(i)) {
            proof {
                lemma_steps_bindings(*project, fixture.steps@, (i + 1) as nat, fixture.steps@.len());
            }
            return Err(fixture.invalid(d));
        }
        i = i + 1;
    }
    Ok(())
}


/// What is wrong with the first `n` values where they are converted.
pub open spec fn conversions_defect(project: Project, items: Seq<FixtureChannelValue>, n: nat) -> Option<
    DefectView,
>
    decreases n,
{
    if n == 0 {
        None
    } else {
        match conversions_defect(project, items, (n - 1) as nat) {
            Some(d) => Some(d),
            None => match wire_value(items[n - 1].value, project) {
                WireResult::Bad(kind, name) => Some((kind, None, name)),
                _ => None,
            },
        }
    }
}

/// Whether every value converts.
pub open spec fn all_convert(project: Project, items: Seq<FixtureChannelValue>, n: int) -> bool {
    forall|j: int| 0 <= j < n ==> !(wire_value((#[trigger] items[j]).value, project) is Bad)
}

/// A defect among the first values stays the first; without one every value converts.
proof fn lemma_conversions(project: Project, items: Seq<FixtureChannelValue>, n: nat, m: nat)
    requires
        n <= m,
    ensures
        conversions_defect(project, items, n) is Some ==> conversions_defect(project, items, m)
            == conversions_defect(project, items, n),
        conversions_defect(project, items, m) is None ==> all_convert(project, items, m as int),
    decreases m,
{
    if n < m {
        lemma_conversions(project, items, n, (m - 1) as nat);
    } else if m > 0 {
        lemma_conversions(project, items, (m - 1) as nat, (m - 1) as nat);
    }
}

fn find_conversion_defect(project: &Project, items: &Vec<FixtureChannelValue>) -> (r: Option<Defect>)
    ensures
        match r {
            Some(d) => conversions_defect(*project, items@, items@.len()) == Some(d@),
            None => conversions_defect(*project, items@, items@.len()) is None && all_convert(
                *project,
                items@,
                items@.len() as int,
            ),
        },
{
    let mut i: usize = 0;
    while i < items.len()
        invariant
            i <= items.len(),
            conversions_defect(*project, items@, i as nat) is None,
        decreases items.len() - i,
    {
        if let Err(d) = items[i].value.to_value(project) {
            proof {
                lemma_conversions(*project, items@, (i + 1) as nat, items@.len());
            }
            return Some(d);
        }
        i = i + 1;
    }
    proof {
        lemma_conversions(*project, items@, items@.len(), items@.len());
    }
    None
}

/// What is wrong with the inputs of the first `n` steps where they are converted.
pub open spec fn inputs_defect(project: Project, steps: Seq<FixtureStep>, n: nat) -> Option<DefectView>
    decreases n,
{
    if n == 0 {
        None
    } else {
        match inputs_defect(project, steps, (n - 1) as nat) {
            Some(d) => Some(d),
            None => conversions_defect(project, steps[n - 1].inputs@, steps[n - 1].inputs@.len()),
        }
    }
}

proof fn lemma_inputs_defect(project: Project, steps: Seq<FixtureStep>, n: nat, m: nat)
    requires
        n <= m,
        inputs_defect(project, steps, n) is Some,
    ensures
        inputs_defect(project, steps, m) == inputs_defect(project, steps, n),
    decreases m - n,
{
    if n < m {
        lemma_inputs_defect(project, steps, n, (m - 1) as nat);
    }
}

/// What keeps a fixture from becoming a scenario.
pub open spec fn scenario_defect(f: ConformanceFixture, project: Project) -> Option<DefectView> {
    let initial = conversions_defect(project, f.initial_state@, f.initial_state@.len());
    let inputs = inputs_defect(project, f.steps@, f.steps@.len());
    let duration = grid_time(f.calculation_rate_hz, f.steps@.len() as int);
    if initial is Some {
        initial
    } else if inputs is Some {
        inputs
    } else if !duration.is_finite() || duration.at_most(F64 { bits: 0 }) {
        Some((DefectKind::BadDuration, None, ""@))
    } else {
        None
    }
}

/// The values of a channel among the first `n` values, at an instant.
pub open spec fn picks(items: Seq<FixtureChannelValue>, k: Seq<char>, n: nat, t: F64) -> Seq<
    (F64, WireValue),
>
    decreases n,
{
    if n == 0 {
        Seq::empty()
    } else if items[n - 1].channel@ == k {
        picks(items, k, (n - 1) as nat, t).push((t, items[n - 1].value))
    } else {
        picks(items, k, (n - 1) as nat, t)
    }
}

/// The changes of an input in the first `n` steps, at the instants of the grid.
pub open spec fn changes(f: ConformanceFixture, k: Seq<char>, n: nat) -> Seq<(F64, WireValue)>
    decreases n,
{
    if n == 0 {
        Seq::empty()
    } else {
        let items = f.steps@[n - 1].inputs@;
        changes(f, k, (n - 1) as nat) + picks(
            items,
            k,
            items.len(),
            grid_time(f.calculation_rate_hz, n - 1),
        )
    }
}

/// The last value of a channel among the first `n` values.
pub open spec fn last_value(items: Seq<FixtureChannelValue>, k: Seq<char>, n: nat) -> Option<WireValue>
    decreases n,
{
    if n == 0 {
        None
    } else if items[n - 1].channel@ == k {
        Some(items[n - 1].value)
    } else {
        last_value(items, k, (n - 1) as nat)
    }
}

/// The points of an input: its changes, and its initial value from the start where the
/// first change comes later.
pub open spec fn input_points(f: ConformanceFixture, k: Seq<char>) -> Seq<(F64, WireValue)> {
    let c = changes(f, k, f.steps@.len());
    match last_value(f.initial_state@, k, f.initial_state@.len()) {
        Some(w) if c.len() > 0 && F64 { bits: 0 }.less(c[0].0) => seq![(F64 { bits: 0 }, w)] + c,
        _ => c,
    }
}

/// Whether points carry values on the wire.
pub open spec fn are_points(
    points: Seq<(F64, Value)>,
    wires: Seq<(F64, WireValue)>,
    project: Project,
) -> bool {
    points.len() == wires.len() && forall|i: int|
        0 <= i < points.len() ==> (#[trigger] points[i]).0 == wires[i].0 && is_wire_value(
            points[i].1,
            wire_value(wires[i].1, project),
        )
}

/// Whether values start the channels of a fixture.
pub open spec fn are_initial(
    values: Seq<InitialValue>,
    items: Seq<FixtureChannelValue>,
    project: Project,
) -> bool {
    values.len() == items.len() && forall|i: int|
        0 <= i < values.len() ==> (#[trigger] values[i]).channel@ == items[i].channel@
            && is_wire_value(values[i].value, wire_value(items[i].value, project))
}

/// Whether a series is that of an input.
pub open spec fn is_series(s: InputSeries, f: ConformanceFixture, k: Seq<char>, project: Project) -> bool {
    s.channel@ == k && (s.kind matches InputKind::Series(points) && are_points(
        points@,
        input_points(f, k),
        project,
    ))
}

/// Whether series are those of all inputs, ordered by name.
pub open spec fn are_inputs(series: Seq<InputSeries>, f: ConformanceFixture, project: Project) -> bool {
    &&& forall|i: int|
        0 <= i < series.len() ==> is_series(#[trigger] series[i], f, series[i].channel@, project)
            && is_input(f.steps@, f.steps@.len() as int, series[i].channel@)
    &&& forall|k: Seq<char>|
        #[trigger] is_input(f.steps@, f.steps@.len() as int, k) ==> has_series(series, k)
    &&& forall|i: int, j: int|
        0 <= i < j < series.len() ==> before(
            (#[trigger] series[i]).channel@,
            (#[trigger] series[j]).channel@,
        )
}

/// Whether some series is of a channel.
pub open spec fn has_series(series: Seq<InputSeries>, k: Seq<char>) -> bool {
    exists|i: int| 0 <= i < series.len() && (#[trigger] series[i]).channel@ == k
}

/// Whether a mode is that of a fixture.
pub open spec fn is_mode(mode: RunMode, run: FixtureRun) -> bool {
    match (run.mode, run.target) {
        (FixtureRunMode::Function, Some(t)) => mode matches RunMode::Function(m) && m@ == t@,
        (FixtureRunMode::Cone, Some(t)) => mode matches RunMode::Cone(m) && m@ == t@,
        (FixtureRunMode::WholeProject, _) => mode is WholeProject,
        _ => false,
    }
}

/// Whether a scenario replays a fixture: it starts from its initial state, drives
/// its inputs, runs as long as its steps take, and adds nothing of its own.
pub open spec fn replays(s: Scenario, f: ConformanceFixture, project: Project) -> bool {
    &&& is_mode(s.mode, f.run)
    &&& are_initial(s.initial_state@, f.initial_state@, project)
    &&& are_inputs(s.inputs@, f, project)
    &&& s.duration_s == grid_time(f.calculation_rate_hz, f.steps@.len() as int)
    &&& s.base_rate_hz == f.calculation_rate_hz
    &&& s.overrides@.len() == 0
    &&& s.io@.len() == 0
    &&& !s.allow_default_inputs
}

impl ConformanceFixture {
    fn resolved_mode(&self) -> (r: RunMode)
        requires
            run_defect(self.run) is None,
        ensures
            is_mode(r, self.run),
    {
        match (self.run.mode, &self.run.target) {
            (FixtureRunMode::Function, Some(t)) => RunMode::Function(t.clone()),
            (FixtureRunMode::Cone, Some(t)) => RunMode::Cone(t.clone()),
            _ => RunMode::WholeProject,
        }
    }
}

/// Converts a value that is known to convert.
fn converted(wire: &WireValue, project: &Project) -> (r: Value)
    requires
        !(wire_value(*wire, *project) is Bad),
    ensures
        is_wire_value(r, wire_value(*wire, *project)),
{
    match wire.to_value(project) {
        Ok(v) => v,
        Err(_) => Value::Bool(false),
    }
}

/// The changes of one input.
fn gather_changes(f: &ConformanceFixture, k: &str, project: &Project) -> (r: Vec<(F64, Value)>)
    requires
        forall|i: int|
            0 <= i < f.steps@.len() ==> all_convert(
                *project,
                (#[trigger] f.steps@[i]).inputs@,
                f.steps@[i].inputs@.len() as int,
            ),
    ensures
        are_points(r@, changes(*f, k@, f.steps@.len()), *project),
{
    let mut r: Vec<(F64, Value)> = Vec::new();
    let mut i: usize = 0;
    while i < f.steps.len()
        invariant
            i <= f.steps.len(),
            forall|i: int|
                0 <= i < f.steps@.len() ==> all_convert(
                    *project,
                    (#[trigger] f.steps@[i]).inputs@,
                    f.steps@[i].inputs@.len() as int,
                ),
            are_points(r@, changes(*f, k@, i as nat), *project),
        decreases f.steps.len() - i,
    {
        let t = F64::from_u64(i as u64).over(f.calculation_rate_hz);
        let items = &f.steps[i].inputs;
        let ghost start = changes(*f, k@, i as nat);
        let mut j: usize = 0;
        assert(start + picks(items@, k@, 0, t) =~= start);
        while j < items.len()
            invariant
                j <= items.len(),
                all_convert(*project, items@, items@.len() as int),
                are_points(r@, start + picks(items@, k@, j as nat, t), *project),
            decreases items.len() - j,
        {
            if same(items[j].channel.as_str(), k) {
                let v = converted(&items[j].value, project);
                r.push((t, v));
                assert(start + picks(items@, k@, (j + 1) as nat, t) =~= (start + picks(
                    items@,
                    k@,
                    j as nat,
                    t,
                )).push((t, items@[j as int].value)));
            }
            j = j + 1;
        }
        i = i + 1;
    }
    r
}

/// The initial value of a channel.
fn initial_value(items: &Vec<FixtureChannelValue>, k: &str, project: &Project) -> (r: Option<Value>)
    requires
        all_convert(*project, items@, items@.len() as int),
    ensures
        match last_value(items@, k@, items@.len()) {
            Some(w) => r matches Some(v) && is_wire_value(v, wire_value(w, *project)),
            None => r is None,
        },
{
    let mut n: usize = items.len();
    while n > 0
        invariant
            n <= items.len(),
            all_convert(*project, items@, items@.len() as int),
            last_value(items@, k@, items@.len()) == last_value(items@, k@, n as nat),
        decreases n,
    {
        if same(items[n - 1].channel.as_str(), k) {
            return Some(converted(&items[n - 1].value, project));
        }
        n = n - 1;
    }
    None
}

/// The series of one input.
fn input_series(f: &ConformanceFixture, k: &str, project: &Project) -> (r: InputSeries)
    requires
        all_convert(*project, f.initial_state@, f.initial_state@.len() as int),
        forall|i: int|
            0 <= i < f.steps@.len() ==> all_convert(
                *project,
                (#[trigger] f.steps@[i]).inputs@,
                f.steps@[i].inputs@.len() as int,
            ),
    ensures
        is_series(r, *f, k@, *project),
{
    let mut points = gather_changes(f, k, project);
    let ghost c = changes(*f, k@, f.steps@.len());
    if points.len() > 0 {
        assert(points@[0].0 == c[0].0);
        if F64::from_bits(0).less(points[0].0) {
            if let Some(v) = initial_value(&f.initial_state, k, project) {
                let ghost held = points@;
                points.insert(0, (F64::from_bits(0), v));
                proof {
                    let wires = input_points(*f, k@);
                    assert forall|i: int| 0 <= i < points@.len() implies (#[trigger] points@[i]).0
                        == wires[i].0 && is_wire_value(
                        points@[i].1,
                        wire_value(wires[i].1, *project),
                    ) by {
                        if i > 0 {
                            assert(points@[i] == held[i - 1]);
                            assert(wires[i] == c[i - 1]);
                        }
                    }
                }
            }
        }
    }
    InputSeries { channel: k.to_owned(), kind: InputKind::Series(points) }
}

/// The scenario that replays a fixture.
pub fn fixture_scenario(fixture: &ConformanceFixture, project: &Project) -> (r: Result<
    Scenario,
    ConformanceError,
>)
    requires
        run_defect(fixture.run) is None,
    ensures
        match scenario_defect(*fixture, *project) {
            Some(d) => r matches Err(e) && is_invalid(e, *fixture, d),
            None => r matches Ok(s) && replays(s, *fixture, *project),
        },
{
    if let Some(d) = find_conversion_defect(project, &fixture.initial_state) {
        return Err(fixture.invalid(d));
    }
    let mut i: usize = 0;
    while i < fixture.steps.len()
        invariant
            i <= fixture.steps.len(),
            conversions_defect(*project, fixture.initial_state@, fixture.initial_state@.len()) is None,
            inputs_defect(*project, fixture.steps@, i as nat) is None,
            forall|j: int|
                0 <= j < i ==> all_convert(
                    *project,
                    (#[trigger] fixture.steps@[j]).inputs@,
                    fixture.steps@[j].inputs@.len() as int,
                ),
        decreases fixture.steps.len() - i,
    {
        if let Some(d) = find_conversion_defect(project, &fixture.steps[i].inputs) {
            proof {
                lemma_inputs_defect(*project, fixture.steps@, (i + 1) as nat, fixture.steps@.len());
            }
            return Err(fixture.invalid(d));
        }
        i = i + 1;
    }
    let duration_s = F64::from_u64(fixture.steps.len() as u64).over(fixture.calculation_rate_hz);
    if !duration_s.is_finite() || duration_s.at_most(F64::from_bits(0)) {
        return Err(fixture.invalid(defect(DefectKind::BadDuration, None, "")));
    }
    let mut initial_state: Vec<InitialValue> = Vec::new();
    let mut m: usize = 0;
    while m < fixture.initial_state.len()
        invariant
            m <= fixture.initial_state.len(),
            all_convert(*project, fixture.initial_state@, fixture.initial_state@.len() as int),
            are_initial(initial_state@, fixture.initial_state@.take(m as int), *project),
        decreases fixture.initial_state.len() - m,
    {
        let item = &fixture.initial_state[m];
        let value = converted(&item.value, project);
        initial_state.push(InitialValue { channel: item.channel.clone(), value });
        proof {
            let t = fixture.initial_state@.take(m + 1);
            let s = fixture.initial_state@.take(m as int);
            assert forall|j: int| 0 <= j < initial_state@.len() implies (
            #[trigger] initial_state@[j]).channel@ == t[j].channel@ && is_wire_value(
                initial_state@[j].value,
                wire_value(t[j].value, *project),
            ) by {
                if j < m {
                    assert(s[j] == t[j]);
                }
            }
        }
        m = m + 1;
    }
    assert(fixture.initial_state@.take(m as int) =~= fixture.initial_state@);
    let names = input_names(&fixture.steps);
    let count: usize = names.len();
    let ghost all = names.items();
    let mut inputs: Vec<InputSeries> = Vec::new();
    let mut j: usize = 0;
    while j < count
        invariant
            j <= count == all.len(),
            all == names.items(),
            all_convert(*project, fixture.initial_state@, fixture.initial_state@.len() as int),
            forall|j: int|
                0 <= j < fixture.steps@.len() ==> all_convert(
                    *project,
                    (#[trigger] fixture.steps@[j]).inputs@,
                    fixture.steps@[j].inputs@.len() as int,
                ),
            inputs@.len() == j,
            forall|a: int|
                0 <= a < j ==> (#[trigger] inputs@[a]).channel@ == all[a].0@ && is_series(
                    inputs@[a],
                    *fixture,
                    all[a].0@,
                    *project,
                ),
        decreases count - j,
    {
        inputs.push(input_series(fixture, names.at(j).0.as_str(), project));
        j = j + 1;
    }
    proof {
        let total = fixture.steps@.len() as int;
        assert forall|a: int| 0 <= a < inputs@.len() implies is_series(
            #[trigger] inputs@[a],
            *fixture,
            inputs@[a].channel@,
            *project,
        ) && is_input(fixture.steps@, total, inputs@[a].channel@) by {
            lemma_map_of(all, a);
            assert(names@.contains_key(all[a].0@));
        }
        assert forall|k: Seq<char>| #[trigger] is_input(fixture.steps@, total, k) implies has_series(
            inputs@,
            k,
        ) by {
            assert(names@.contains_key(k));
            let a = choose|a: int| 0 <= a < all.len() && #[trigger] all[a].0@ == k;
            assert(inputs@[a].channel@ == k);
        }
        assert forall|a: int, b: int| 0 <= a < b < inputs@.len() implies before(
            (#[trigger] inputs@[a]).channel@,
            (#[trigger] inputs@[b]).channel@,
        ) by {
            assert(before(all[a].0@, all[b].0@));
        }
    }
    Ok(
        Scenario {
            mode: fixture.resolved_mode(),
            initial_state,
            inputs,
            overrides: Vec::new(),
            io: Vec::new(),
            duration_s,
            base_rate_hz: fixture.calculation_rate_hz,
            allow_default_inputs: false,
        },
    )
}


/// What a run is refused for.
pub enum TraceFault {
    /// A broken rule.
    Broken(DefectView),
    /// An output that fails its expectation: step, position and how.
    Mismatch(int, int, Seq<char>),
}

/// Whether a fixture declares a source.
pub open spec fn is_declared(f: ConformanceFixture, k: Seq<char>) -> bool {
    has_value(f.initial_state@, f.initial_state@.len() as int, k) || is_input(
        f.steps@,
        f.steps@.len() as int,
        k,
    )
}

/// Whether a run used a source that the fixture does not declare.
pub open spec fn undeclared(f: ConformanceFixture, trace: Trace, k: Seq<char>) -> bool {
    trace.external@.contains_key(k) && !is_declared(f, k)
}

/// How a value on the wire is missed.
pub open spec fn wire_mismatch(w: WireResult, actual: Value, tolerance: Option<ValueTolerance>) -> Result<
    (),
    Seq<char>,
> {
    match w {
        WireResult::Plain(v) => value_mismatch(v, actual, tolerance),
        WireResult::Member(i, m) => match actual {
            Value::Enum { id, member } => exactly(i == id && m == member@),
            _ => Err(family_mismatch(wire_runtime_text(w), runtime_text(actual))),
        },
        WireResult::Text(t) => match actual {
            Value::Str(s) => exactly(t == s@),
            _ => Err(family_mismatch(wire_runtime_text(w), runtime_text(actual))),
        },
        WireResult::Bad(..) => Err(Seq::empty()),
    }
}

/// What is wrong with an output: it is computed by the run, has a value on the tick, and
/// the last one meets the expectation.
pub open spec fn output_fault(f: ConformanceFixture, project: Project, trace: Trace, i: int, j: int) -> Option<
    TraceFault,
> {
    let e = f.steps@[i].expected@[j];
    let w = wire_value(e.value, project);
    if supplied_at(trace.external_ticks@, e.channel@, i as usize) {
        Some(TraceFault::Broken((DefectKind::SuppliedOutput, Some(i as usize), e.channel@)))
    } else if w is Bad {
        Some(TraceFault::Broken((w->Bad_0, None, w->Bad_1)))
    } else {
        match value_at(trace.records@, e.channel@, i as usize) {
            None => Some(
                TraceFault::Mismatch(
                    i,
                    j,
                    if has_channel(trace.records@, e.channel@) {
                        "trace channel has no value aligned to this tick"@
                    } else {
                        "trace has no channel with this path"@
                    },
                ),
            ),
            Some(actual) => match wire_mismatch(w, actual, e.tolerance) {
                Ok(_) => None,
                Err(detail) => Some(TraceFault::Mismatch(i, j, detail)),
            },
        }
    }
}

/// The first fault among the first `n` outputs of a step.
pub open spec fn outputs_fault(
    f: ConformanceFixture,
    project: Project,
    trace: Trace,
    i: int,
    n: nat,
) -> Option<TraceFault>
    decreases n,
{
    if n == 0 {
        None
    } else {
        match outputs_fault(f, project, trace, i, (n - 1) as nat) {
            Some(x) => Some(x),
            None => output_fault(f, project, trace, i, n - 1),
        }
    }
}

proof fn lemma_outputs_fault(
    f: ConformanceFixture,
    project: Project,
    trace: Trace,
    i: int,
    n: nat,
    m: nat,
)
    requires
        n <= m,
        outputs_fault(f, project, trace, i, n) is Some,
    ensures
        outputs_fault(f, project, trace, i, m) == outputs_fault(f, project, trace, i, n),
    decreases m - n,
{
    if n < m {
        lemma_outputs_fault(f, project, trace, i, n, (m - 1) as nat);
    }
}

/// The first fault of a tick.
pub open spec fn tick_fault(f: ConformanceFixture, project: Project, trace: Trace, i: int) -> Option<
    TraceFault,
> {
    if !at_instant(trace.time@[i], f.steps@[i].time_s) {
        Some(
            TraceFault::Broken(
                (
                    DefectKind::TickInstant { ran: trace.time@[i], recorded: f.steps@[i].time_s },
                    Some(i as usize),
                    ""@,
                ),
            ),
        )
    } else {
        outputs_fault(f, project, trace, i, f.steps@[i].expected@.len())
    }
}

/// The first fault among the first `n` ticks.
pub open spec fn ticks_fault(f: ConformanceFixture, project: Project, trace: Trace, n: nat) -> Option<
    TraceFault,
>
    decreases n,
{
    if n == 0 {
        None
    } else {
        match ticks_fault(f, project, trace, (n - 1) as nat) {
            Some(x) => Some(x),
            None => tick_fault(f, project, trace, n - 1),
        }
    }
}

proof fn lemma_ticks_fault(f: ConformanceFixture, project: Project, trace: Trace, n: nat, m: nat)
    requires
        n <= m,
        ticks_fault(f, project, trace, n) is Some,
    ensures
        ticks_fault(f, project, trace, m) == ticks_fault(f, project, trace, n),
    decreases m - n,
{
    if n < m {
        lemma_ticks_fault(f, project, trace, n, (m - 1) as nat);
    }
}

/// Whether a run conforms to a fixture.
pub open spec fn conforms(f: ConformanceFixture, project: Project, trace: Trace) -> bool {
    trace.time@.len() == f.steps@.len() && (forall|k: Seq<char>| !(#[trigger] undeclared(f, trace, k)))
        && ticks_fault(f, project, trace, f.steps@.len()) is None
}

/// Whether a mismatch reports an output of a run.
pub open spec fn is_mismatch(
    m: ConformanceMismatch,
    f: ConformanceFixture,
    trace: Trace,
    i: int,
    j: int,
    detail: Seq<char>,
) -> bool {
    let e = f.steps@[i].expected@[j];
    m.fixture@ == f.name@ && m.step == i && m.time_s == f.steps@[i].time_s && m.channel@ == e.channel@
        && m.expected@ == expectation_text(e) && m.actual == value_at(trace.records@, e.channel@, m.step)
        && m.detail@ == detail
}

/// Whether an error reports a fault.
pub open spec fn reports_fault(
    e: ConformanceError,
    f: ConformanceFixture,
    trace: Trace,
    fault: TraceFault,
) -> bool {
    match fault {
        TraceFault::Broken(d) => is_invalid(e, f, d),
        TraceFault::Mismatch(i, j, detail) => e matches ConformanceError::Mismatch(m) && is_mismatch(
            *m,
            f,
            trace,
            i,
            j,
            detail,
        ),
    }
}

/// Whether an error says why a run does not conform. Of several undeclared sources it
/// is the first by name.
pub open spec fn is_trace_error(
    e: ConformanceError,
    f: ConformanceFixture,
    project: Project,
    trace: Trace,
) -> bool {
    if trace.time@.len() != f.steps@.len() {
        is_invalid(
            e,
            f,
            (
                DefectKind::TickCount { ran: trace.time.len(), steps: f.steps.len() },
                None,
                ""@,
            ),
        )
    } else if exists|k: Seq<char>| #[trigger] undeclared(f, trace, k) {
        exists|k: Seq<char>| #[trigger]
            undeclared(f, trace, k) && (forall|l: Seq<char>| #[trigger]
                undeclared(f, trace, l) ==> !before(l, k)) && is_invalid(
                e,
                f,
                (DefectKind::UndeclaredSource, None, k),
            )
    } else {
        match ticks_fault(f, project, trace, f.steps@.len()) {
            Some(fault) => reports_fault(e, f, trace, fault),
            None => false,
        }
    }
}

/// The first undeclared source by name.
fn find_undeclared(f: &ConformanceFixture, trace: &Trace) -> (r: Option<String>)
    ensures
        match r {
            Some(k) => undeclared(*f, *trace, k@) && forall|l: Seq<char>| #[trigger]
                undeclared(*f, *trace, l) ==> !before(l, k@),
            None => forall|k: Seq<char>| !(#[trigger] undeclared(*f, *trace, k)),
        },
{
    let inputs = input_names(&f.steps);
    let n: usize = trace.external.len();
    let ghost all = trace.external.items();
    let mut i: usize = 0;
    while i < n
        invariant
            i <= n == all.len(),
            all == trace.external.items(),
            in_order(all),
            trace.external@ == map_of(all),
            forall|k: Seq<char>| #[trigger]
                inputs@.contains_key(k) == is_input(f.steps@, f.steps@.len() as int, k),
            forall|j: int| 0 <= j < i ==> !undeclared(*f, *trace, #[trigger] all[j].0@),
        decreases n - i,
    {
        let name: &str = trace.external.at(i).0.as_str();
        let declared = contains_value(&f.initial_state, f.initial_state.len(), name)
            || inputs.contains(name);
        if !declared {
            proof {
                lemma_map_of(all, i as int);
                assert forall|k: Seq<char>| #[trigger] undeclared(*f, *trace, k) implies !before(
                    k,
                    name@,
                ) by {
                    let j = choose|j: int| 0 <= j < all.len() && #[trigger] all[j].0@ == k;
                    if j > i {
                        assert(before(all[i as int].0@, all[j].0@));
                    }
                    lemma_before_total(k, name@);
                }
            }
            return Some(name.to_owned());
        }
        i = i + 1;
    }
    proof {
        assert forall|k: Seq<char>| !(#[trigger] undeclared(*f, *trace, k)) by {
            if undeclared(*f, *trace, k) {
                let j = choose|j: int| 0 <= j < all.len() && #[trigger] all[j].0@ == k;
                assert(!undeclared(*f, *trace, all[j].0@));
            }
        }
    }
    None
}

/// Compares one output.
fn compare_output(f: &ConformanceFixture, project: &Project, trace: &Trace, i: usize, j: usize) -> (r:
    Result<(), ConformanceError>)
    requires
        i < f.steps@.len(),
        j < f.steps@[i as int].expected@.len(),
    ensures
        match output_fault(*f, *project, *trace, i as int, j as int) {
            Some(fault) => r matches Err(e) && reports_fault(e, *f, *trace, fault),
            None => r is Ok,
        },
{
    let step = &f.steps[i];
    let expected = &step.expected[j];
    let channel: &str = expected.channel.as_str();
    if trace.channel_is_external_at_tick(channel, i) {
        return Err(f.invalid(defect(DefectKind::SuppliedOutput, Some(i), channel)));
    }
    let value = match expected.value.to_value(project) {
        Ok(v) => v,
        Err(d) => {
            return Err(f.invalid(d));
        },
    };
    let (actual, result): (Option<Value>, Result<(), String>) =
        match trace.channel_value_at_tick(channel, i) {
        Some(actual) => (
            Some(actual.duplicate()),
            compare_value(&value, actual, &expected.tolerance),
        ),
        None => (
            None,
            Err(
                if trace.contains_channel(channel) {
                    "trace channel has no value aligned to this tick".to_owned()
                } else {
                    "trace has no channel with this path".to_owned()
                },
            ),
        ),
    };
    match result {
        Ok(_) => Ok(()),
        Err(detail) => Err(
            ConformanceError::Mismatch(
                Box::new(
                    ConformanceMismatch {
                        fixture: f.name.clone(),
                        step: i,
                        time_s: step.time_s,
                        channel: expected.channel.clone(),
                        expected: expected.describe(),
                        actual,
                        detail,
                    },
                ),
            ),
        ),
    }
}

/// Compares a recorded run with a fixture.
pub fn compare_trace(fixture: &ConformanceFixture, project: &Project, trace: &Trace) -> (r: Result<
    (),
    ConformanceError,
>)
    ensures
        match r {
            Ok(_) => conforms(*fixture, *project, *trace),
            Err(e) => !conforms(*fixture, *project, *trace) && is_trace_error(
                e,
                *fixture,
                *project,
                *trace,
            ),
        },
{
    if trace.time.len() != fixture.steps.len() {
        let kind = DefectKind::TickCount { ran: trace.time.len(), steps: fixture.steps.len() };
        return Err(fixture.invalid(defect(kind, None, "")));
    }
    if let Some(k) = find_undeclared(fixture, trace) {
        assert(undeclared(*fixture, *trace, k@));
        return Err(fixture.invalid(defect(DefectKind::UndeclaredSource, None, k.as_str())));
    }
    let ghost total = fixture.steps@.len();
    let mut i: usize = 0;
    while i < fixture.steps.len()
        invariant
            i <= fixture.steps.len(),
            total == fixture.steps@.len(),
            trace.time@.len() == fixture.steps@.len(),
            forall|k: Seq<char>| !(#[trigger] undeclared(*fixture, *trace, k)),
            ticks_fault(*fixture, *project, *trace, i as nat) is None,
        decreases fixture.steps.len() - i,
    {
        if !is_at_instant(trace.time[i], fixture.steps[i].time_s) {
            proof {
                lemma_ticks_fault(*fixture, *project, *trace, (i + 1) as nat, total);
            }
            let kind = DefectKind::TickInstant {
                ran: trace.time[i],
                recorded: fixture.steps[i].time_s,
            };
            return Err(fixture.invalid(defect(kind, Some(i), "")));
        }
        let ghost count = fixture.steps@[i as int].expected@.len();
        let mut j: usize = 0;
        while j < fixture.steps[i].expected.len()
            invariant
                i < fixture.steps.len(),
                total == fixture.steps@.len(),
                trace.time@.len() == fixture.steps@.len(),
                forall|k: Seq<char>| !(#[trigger] undeclared(*fixture, *trace, k)),
                ticks_fault(*fixture, *project, *trace, i as nat) is None,
                at_instant(trace.time@[i as int], fixture.steps@[i as int].time_s),
                count == fixture.steps@[i as int].expected@.len(),
                j <= count,
                outputs_fault(*fixture, *project, *trace, i as int, j as nat) is None,
            decreases count - j,
        {
            let result = compare_output(fixture, project, trace, i, j);
            if let Err(e) = result {
                proof {
                    lemma_outputs_fault(*fixture, *project, *trace, i as int, (j + 1) as nat, count);
                    lemma_ticks_fault(*fixture, *project, *trace, (i + 1) as nat, total);
                }
                return Err(e);
            }
            j = j + 1;
        }
        i = i + 1;
    }
    Ok(())
}

/// The expectations of the first `n` steps.
pub open spec fn expectation_count(steps: Seq<FixtureStep>, n: nat) -> nat
    decreases n,
{
    if n == 0 {
        0
    } else {
        expectation_count(steps, (n - 1) as nat) + steps[n - 1].expected@.len()
    }
}

/// The expectations of all steps, or the greatest `usize` where there are more.
fn count_expectations(steps: &Vec<FixtureStep>) -> (r: usize)
    ensures
        r == expectation_count(steps@, steps@.len()) || (r == usize::MAX && expectation_count(
            steps@,
            steps@.len(),
        ) > r),
{
    let mut r: usize = 0;
    let mut i: usize = 0;
    while i < steps.len()
        invariant
            i <= steps.len(),
            r == expectation_count(steps@, i as nat) || (r == usize::MAX && expectation_count(
                steps@,
                i as nat,
            ) > r),
        decreases steps.len() - i,
    {
        r = r.saturating_add(steps[i].expected.len());
        i = i + 1;
    }
    r
}

/// The scenario that replays a fixture on a project that fits it.
pub fn plan_fixture(fixture: &ConformanceFixture, project: &Project) -> (r: Result<
    Scenario,
    ConformanceError,
>)
    requires
        run_defect(fixture.run) is None,
    ensures
        match bindings_defect(*fixture, *project) {
            Some(d) => r matches Err(e) && is_invalid(e, *fixture, d),
            None => match scenario_defect(*fixture, *project) {
                Some(d) => r matches Err(e) && is_invalid(e, *fixture, d),
                None => r matches Ok(s) && replays(s, *fixture, *project),
            },
        },
{
    match validate_project_bindings(fixture, project) {
        Err(e) => Err(e),
        Ok(_) => fixture_scenario(fixture, project),
    }
}

/// Judges a fixture by what its run came to: a failed evaluation and a run that does not
/// conform fail it.
pub fn run_conformance_fixture(
    fixture: &ConformanceFixture,
    project: &Project,
    run: Result<Trace, EvalError>,
) -> (r: Result<ConformanceReport, ConformanceError>)
    ensures
        match run {
            Err(source) => r matches Err(ConformanceError::Evaluation { fixture: f, source: s }) && f@
                == fixture.name@ && s == source,
            Ok(trace) => match r {
                Ok(report) => conforms(*fixture, *project, trace) && report.name@ == fixture.name@
                    && report.path@ == fixture.source_path@ && report.provenance
                    == fixture.provenance.kind && report.steps_checked == fixture.steps@.len() && (
                report.assertions_checked == expectation_count(fixture.steps@, fixture.steps@.len())
                    || (report.assertions_checked == usize::MAX && expectation_count(
                    fixture.steps@,
                    fixture.steps@.len(),
                ) > usize::MAX)),
                Err(e) => !conforms(*fixture, *project, trace) && is_trace_error(
                    e,
                    *fixture,
                    *project,
                    trace,
                ),
            },
        },
{
    let trace = match run {
        Err(source) => {
            return Err(ConformanceError::Evaluation { fixture: fixture.name.clone(), source });
        },
        Ok(trace) => trace,
    };
    match compare_trace(fixture, project, &trace) {
        Err(e) => Err(e),
        Ok(_) => Ok(
            ConformanceReport {
                name: fixture.name.clone(),
                path: fixture.source_path.clone(),
                provenance: fixture.provenance.kind,
                steps_checked: fixture.steps.len(),
                assertions_checked: count_expectations(&fixture.steps),
            },
        ),
    }
}

} // verus!
