//! The rules that a fixture keeps by itself.

use crate::conformance::message::{bound_fault, show_bound_fault};
use crate::conformance::{
    bound_of, defect, parse_tolerance, parse_wire_float, wire_float, ConformanceError,
    ConformanceFixture, Defect, DefectKind, DefectView, ExpectedChannelValue, FixtureChannelValue,
    FixtureProvenance, FixtureRun, FixtureRunMode, FixtureStep, ProvenanceKind, Role,
    ValueTolerance,
    WireValue, CONFORMANCE_SCHEMA_VERSION,
};
use crate::float::binary64::F64;
use crate::map::{in_order, lemma_map_of, map_of, TextMap};
use crate::text::{
    before, enclosed, lemma_before_total, quoted, quoted_text, same, trim, trimmed,
};
use vstd::prelude::*;

verus! {

/// Whether a text has nothing but white space.
pub open spec fn blank(s: Seq<char>) -> bool {
    trimmed(s).len() == 0
}

/// Whether a text has nothing but white space.
pub fn is_blank(s: &str) -> (r: bool)
    ensures
        r == blank(s@),
{
    let t = trim(s);
    t.as_str().is_empty()
}

/// Whether a text is missing or blank.
pub open spec fn absent(s: Option<String>) -> bool {
    match s {
        Some(s) => blank(s@),
        None => true,
    }
}

fn is_absent(s: &Option<String>) -> (r: bool)
    ensures
        r == absent(*s),
{
    match s {
        Some(s) => is_blank(s.as_str()),
        None => true,
    }
}

/// What is wrong with the target of a run.
pub open spec fn run_defect(run: FixtureRun) -> Option<DefectView> {
    match run.mode {
        FixtureRunMode::Function | FixtureRunMode::Cone => if absent(run.target) {
            Some((DefectKind::MissingTarget, None, ""@))
        } else {
            None
        },
        FixtureRunMode::WholeProject => if run.target is Some {
            Some((DefectKind::UnexpectedTarget, None, ""@))
        } else {
            None
        },
    }
}

/// What is wrong with the provenance.
pub open spec fn provenance_defect(p: FixtureProvenance) -> Option<DefectView> {
    if blank(p.source@) || blank(p.procedure@) {
        Some((DefectKind::EmptyProvenance, None, ""@))
    } else if p.kind is M1Sim && absent(p.tool_version) {
        Some((DefectKind::IncompleteCapture, None, "tool_version"@))
    } else if p.kind is M1Sim && absent(p.captured_at_utc) {
        Some((DefectKind::IncompleteCapture, None, "captured_at_utc"@))
    } else {
        None
    }
}

/// What is wrong with a fixture before its channels are looked at.
pub open spec fn header_defect(f: ConformanceFixture) -> Option<DefectView> {
    if f.schema_version != CONFORMANCE_SCHEMA_VERSION {
        Some((DefectKind::SchemaVersion(f.schema_version), None, ""@))
    } else if blank(f.name@) {
        Some((DefectKind::EmptyName, None, ""@))
    } else if !f.calculation_rate_hz.is_finite() || f.calculation_rate_hz.at_most(F64 { bits: 0 }) {
        Some((DefectKind::BadRate(f.calculation_rate_hz), None, ""@))
    } else if run_defect(f.run) is Some {
        run_defect(f.run)
    } else if provenance_defect(f.provenance) is Some {
        provenance_defect(f.provenance)
    } else if f.steps.len() == 0 {
        Some((DefectKind::NoSteps, None, ""@))
    } else {
        None
    }
}

fn find_header_defect(f: &ConformanceFixture) -> (r: Option<Defect>)
    ensures
        r matches Some(d) ==> header_defect(*f) == Some(d@),
        r is None ==> header_defect(*f) is None,
{
    if f.schema_version != CONFORMANCE_SCHEMA_VERSION {
        return Some(defect(DefectKind::SchemaVersion(f.schema_version), None, ""));
    }
    if is_blank(f.name.as_str()) {
        return Some(defect(DefectKind::EmptyName, None, ""));
    }
    if !f.calculation_rate_hz.is_finite() || f.calculation_rate_hz.at_most(F64::from_bits(0)) {
        return Some(defect(DefectKind::BadRate(f.calculation_rate_hz), None, ""));
    }
    match f.run.mode {
        FixtureRunMode::Function | FixtureRunMode::Cone => {
            if is_absent(&f.run.target) {
                return Some(defect(DefectKind::MissingTarget, None, ""));
            }
        },
        FixtureRunMode::WholeProject => {
            if f.run.target.is_some() {
                return Some(defect(DefectKind::UnexpectedTarget, None, ""));
            }
        },
    }
    if is_blank(f.provenance.source.as_str()) || is_blank(f.provenance.procedure.as_str()) {
        return Some(defect(DefectKind::EmptyProvenance, None, ""));
    }
    let capture = match f.provenance.kind {
        ProvenanceKind::M1Sim => true,
        _ => false,
    };
    if capture && is_absent(&f.provenance.tool_version) {
        return Some(defect(DefectKind::IncompleteCapture, None, "tool_version"));
    }
    if capture && is_absent(&f.provenance.captured_at_utc) {
        return Some(defect(DefectKind::IncompleteCapture, None, "captured_at_utc"));
    }
    if f.steps.len() == 0 {
        return Some(defect(DefectKind::NoSteps, None, ""));
    }
    None
}

/// What is wrong with a value on the wire, without a project.
pub open spec fn wire_defect(w: WireValue, step: Option<usize>) -> Option<DefectView> {
    match w {
        WireValue::FloatingPoint { value } => match wire_float(value@) {
            Ok(_) => None,
            Err(kind) => Some((kind, step, value@)),
        },
        WireValue::Enum { enum_type, member } => if blank(enum_type@) || blank(member@) {
            Some((DefectKind::EmptyEnum, step, ""@))
        } else {
            None
        },
        _ => None,
    }
}

impl WireValue {
    /// What is wrong with the value, without a project.
    pub fn validate(&self, step: Option<usize>) -> (r: Option<Defect>)
        ensures
            match r {
                Some(d) => wire_defect(*self, step) == Some(d@),
                None => wire_defect(*self, step) is None,
            },
    {
        match self {
            WireValue::FloatingPoint { value } => match parse_wire_float(value.as_str()) {
                Ok(_) => None,
                Err(kind) => Some(defect(kind, step, value.as_str())),
            },
            WireValue::Enum { enum_type, member } => {
                if is_blank(enum_type.as_str()) || is_blank(member.as_str()) {
                    Some(defect(DefectKind::EmptyEnum, step, ""))
                } else {
                    None
                }
            },
            _ => None,
        }
    }
}

/// Whether one of the first `n` values is of a channel.
pub open spec fn has_value(items: Seq<FixtureChannelValue>, n: int, channel: Seq<char>) -> bool {
    exists|j: int| 0 <= j < n && (#[trigger] items[j]).channel@ == channel
}

/// Whether one of the first `n` expectations is of a channel.
pub open spec fn has_expectation(items: Seq<ExpectedChannelValue>, n: int, channel: Seq<char>) -> bool {
    exists|j: int| 0 <= j < n && (#[trigger] items[j]).channel@ == channel
}

/// Whether one of the first `n` values is of a channel.
pub fn contains_value(items: &Vec<FixtureChannelValue>, n: usize, channel: &str) -> (r: bool)
    requires
        n <= items.len(),
    ensures
        r == has_value(items@, n as int, channel@),
{
    let mut j: usize = 0;
    while j < n
        invariant
            j <= n <= items.len(),
            !has_value(items@, j as int, channel@),
        decreases n - j,
    {
        if same(items[j].channel.as_str(), channel) {
            assert(items@[j as int].channel@ == channel@);
            return true;
        }
        j = j + 1;
    }
    false
}

/// Whether one of the first `n` expectations is of a channel.
pub fn contains_expectation(items: &Vec<ExpectedChannelValue>, n: usize, channel: &str) -> (r: bool)
    requires
        n <= items.len(),
    ensures
        r == has_expectation(items@, n as int, channel@),
{
    let mut j: usize = 0;
    while j < n
        invariant
            j <= n <= items.len(),
            !has_expectation(items@, j as int, channel@),
        decreases n - j,
    {
        if same(items[j].channel.as_str(), channel) {
            assert(items@[j as int].channel@ == channel@);
            return true;
        }
        j = j + 1;
    }
    false
}

/// What a value with a step, or without one, is for.
pub open spec fn value_role(step: Option<usize>) -> Role {
    match step {
        Some(_) => Role::Input,
        None => Role::Initial,
    }
}

/// What a value with a step, or without one, is for.
pub fn role_of_value(step: Option<usize>) -> (r: Role)
    ensures
        r == value_role(step),
{
    match step {
        Some(_) => Role::Input,
        None => Role::Initial,
    }
}

/// What is wrong with the value at a position.
pub open spec fn value_defect(
    items: Seq<FixtureChannelValue>,
    i: int,
    step: Option<usize>,
    twice: DefectKind,
) -> Option<DefectView> {
    if blank(items[i].channel@) {
        Some((DefectKind::EmptyChannel(value_role(step)), step, items[i].channel@))
    } else if has_value(items, i, items[i].channel@) {
        Some((twice, step, items[i].channel@))
    } else {
        wire_defect(items[i].value, step)
    }
}

/// The first defect among the first `n` values.
pub open spec fn values_defect(
    items: Seq<FixtureChannelValue>,
    n: nat,
    step: Option<usize>,
    twice: DefectKind,
) -> Option<DefectView>
    decreases n,
{
    if n == 0 {
        None
    } else {
        match values_defect(items, (n - 1) as nat, step, twice) {
            Some(d) => Some(d),
            None => value_defect(items, n - 1, step, twice),
        }
    }
}

/// A defect among the first values stays the first.
proof fn lemma_values_defect(
    items: Seq<FixtureChannelValue>,
    n: nat,
    m: nat,
    step: Option<usize>,
    twice: DefectKind,
)
    requires
        n <= m,
        values_defect(items, n, step, twice) is Some,
    ensures
        values_defect(items, m, step, twice) == values_defect(items, n, step, twice),
    decreases m - n,
{
    if n < m {
        lemma_values_defect(items, n, (m - 1) as nat, step, twice);
    }
}

fn find_values_defect(items: &Vec<FixtureChannelValue>, step: Option<usize>, twice: DefectKind) -> (r:
    Option<Defect>)
    ensures
        match r {
            Some(d) => values_defect(items@, items@.len(), step, twice) == Some(d@),
            None => values_defect(items@, items@.len(), step, twice) is None,
        },
{
    let mut i: usize = 0;
    while i < items.len()
        invariant
            i <= items.len(),
            values_defect(items@, i as nat, step, twice) is None,
        decreases items.len() - i,
    {
        let channel: &str = items[i].channel.as_str();
        let found: Option<Defect> = if is_blank(channel) {
            Some(defect(DefectKind::EmptyChannel(role_of_value(step)), step, channel))
        } else if contains_value(items, i, channel) {
            Some(defect(twice, step, channel))
        } else {
            items[i].value.validate(step)
        };
        if found.is_some() {
            proof {
                lemma_values_defect(items@, (i + 1) as nat, items@.len(), step, twice);
            }
            return found;
        }
        i = i + 1;
    }
    None
}

/// Whether an optional bound is missing or a bound.
pub open spec fn bound_fits(b: Option<String>) -> bool {
    match b {
        Some(b) => bound_of(b@) is Some,
        None => true,
    }
}

/// What is wrong with a bound of a channel.
pub open spec fn bound_text(channel: Seq<char>, which: Seq<char>, text: Seq<char>) -> Seq<char> {
    quoted_text(channel) + " has invalid "@ + which + " tolerance: "@ + bound_fault(text)
}

/// What is wrong with the tolerance of an expectation.
pub open spec fn tolerance_defect(e: ExpectedChannelValue, step: Option<usize>) -> Option<DefectView> {
    match (e.value, e.tolerance) {
        (
            WireValue::FloatingPoint { .. },
            Some(ValueTolerance::FloatingPoint { absolute, relative }),
        ) => if absolute is None && relative is None {
            Some((DefectKind::NoFloatBound, step, e.channel@))
        } else if !bound_fits(absolute) {
            Some(
                (DefectKind::BadBound, step, bound_text(e.channel@, "absolute"@, absolute->Some_0@)),
            )
        } else if !bound_fits(relative) {
            Some(
                (DefectKind::BadBound, step, bound_text(e.channel@, "relative"@, relative->Some_0@)),
            )
        } else {
            None
        },
        (WireValue::FloatingPoint { .. }, _) => Some((DefectKind::NoFloatTolerance, step, e.channel@)),
        (
            WireValue::FixedPoint7dps { .. },
            Some(ValueTolerance::FixedPoint7dps { .. }),
        ) => None,
        (WireValue::FixedPoint7dps { .. }, _) => Some(
            (DefectKind::NoFixedTolerance, step, e.channel@),
        ),
        (_, None) => None,
        (_, Some(_)) => Some((DefectKind::NeedlessTolerance, step, e.channel@)),
    }
}

/// The defect of a bound, where it has one.
fn bound_defect(channel: &str, which: &str, b: &Option<String>, step: Option<usize>) -> (r: Option<
    Defect,
>)
    ensures
        match r {
            Some(d) => !bound_fits(*b) && d@ == (
                DefectKind::BadBound,
                step,
                bound_text(channel@, which@, b->Some_0@),
            ),
            None => bound_fits(*b),
        },
{
    match b {
        Some(text) => {
            if parse_tolerance(text.as_str()).is_some() {
                return None;
            }
            let head: String = enclosed(quoted(channel).as_str(), " has invalid ", which);
            let detail: String = show_bound_fault(text.as_str());
            let name: String = enclosed(head.as_str(), " tolerance: ", detail.as_str());
            Some(defect(DefectKind::BadBound, step, name.as_str()))
        },
        None => None,
    }
}

/// What is wrong with the tolerance of an expectation.
pub fn validate_tolerance(e: &ExpectedChannelValue, step: Option<usize>) -> (r: Option<Defect>)
    ensures
        match r {
            Some(d) => tolerance_defect(*e, step) == Some(d@),
            None => tolerance_defect(*e, step) is None,
        },
{
    let channel: &str = e.channel.as_str();
    match (&e.value, &e.tolerance) {
        (
            WireValue::FloatingPoint { .. },
            Some(ValueTolerance::FloatingPoint { absolute, relative }),
        ) => {
            if absolute.is_none() && relative.is_none() {
                Some(defect(DefectKind::NoFloatBound, step, channel))
            } else {
                match bound_defect(channel, "absolute", absolute, step) {
                    Some(d) => Some(d),
                    None => bound_defect(channel, "relative", relative, step),
                }
            }
        },
        (WireValue::FloatingPoint { .. }, _) => {
            Some(defect(DefectKind::NoFloatTolerance, step, channel))
        },
        (WireValue::FixedPoint7dps { .. }, Some(ValueTolerance::FixedPoint7dps { .. })) => None,
        (WireValue::FixedPoint7dps { .. }, _) => {
            Some(defect(DefectKind::NoFixedTolerance, step, channel))
        },
        (_, None) => None,
        (_, Some(_)) => Some(defect(DefectKind::NeedlessTolerance, step, channel)),
    }
}

/// What is wrong with the expectation at a position.
pub open spec fn expectation_defect(items: Seq<ExpectedChannelValue>, i: int, step: Option<usize>) -> Option<
    DefectView,
> {
    if blank(items[i].channel@) {
        Some((DefectKind::EmptyChannel(Role::Expected), step, items[i].channel@))
    } else if has_expectation(items, i, items[i].channel@) {
        Some((DefectKind::DuplicateExpected, step, items[i].channel@))
    } else if wire_defect(items[i].value, step) is Some {
        wire_defect(items[i].value, step)
    } else {
        tolerance_defect(items[i], step)
    }
}

/// The first defect among the first `n` expectations.
pub open spec fn expectations_defect(items: Seq<ExpectedChannelValue>, n: nat, step: Option<usize>) -> Option<
    DefectView,
>
    decreases n,
{
    if n == 0 {
        None
    } else {
        match expectations_defect(items, (n - 1) as nat, step) {
            Some(d) => Some(d),
            None => expectation_defect(items, n - 1, step),
        }
    }
}

/// A defect among the first expectations stays the first.
proof fn lemma_expectations_defect(
    items: Seq<ExpectedChannelValue>,
    n: nat,
    m: nat,
    step: Option<usize>,
)
    requires
        n <= m,
        expectations_defect(items, n, step) is Some,
    ensures
        expectations_defect(items, m, step) == expectations_defect(items, n, step),
    decreases m - n,
{
    if n < m {
        lemma_expectations_defect(items, n, (m - 1) as nat, step);
    }
}

fn find_expectations_defect(items: &Vec<ExpectedChannelValue>, step: Option<usize>) -> (r: Option<
    Defect,
>)
    ensures
        match r {
            Some(d) => expectations_defect(items@, items@.len(), step) == Some(d@),
            None => expectations_defect(items@, items@.len(), step) is None,
        },
{
    let mut i: usize = 0;
    while i < items.len()
        invariant
            i <= items.len(),
            expectations_defect(items@, i as nat, step) is None,
        decreases items.len() - i,
    {
        let channel: &str = items[i].channel.as_str();
        let found: Option<Defect> = if is_blank(channel) {
            Some(defect(DefectKind::EmptyChannel(Role::Expected), step, channel))
        } else if contains_expectation(items, i, channel) {
            Some(defect(DefectKind::DuplicateExpected, step, channel))
        } else {
            let bad = items[i].value.validate(step);
            if bad.is_some() {
                bad
            } else {
                validate_tolerance(&items[i], step)
            }
        };
        if found.is_some() {
            proof {
                lemma_expectations_defect(items@, (i + 1) as nat, items@.len(), step);
            }
            return found;
        }
        i = i + 1;
    }
    None
}

/// The instant of a tick.
pub open spec fn grid_time(rate: F64, i: int) -> F64 {
    F64::nearest(i).over(rate)
}

/// How far an instant may be from where it belongs: a billionth of a millisecond,
/// or as much of every second.
pub open spec fn time_slack(instant: F64) -> F64 {
    F64 { bits: 0x3d71_9799_812d_ea11 }.max(instant.abs().times(F64 { bits: 0x3d71_9799_812d_ea11 }))
}

/// Whether an instant is where it belongs.
pub open spec fn at_instant(t: F64, instant: F64) -> bool {
    !time_slack(instant).less(t.minus(instant).abs())
}

/// Whether an instant is where it belongs.
pub fn is_at_instant(t: F64, instant: F64) -> (r: bool)
    ensures
        r == at_instant(t, instant),
{
    let unit = F64::from_bits(0x3d71_9799_812d_ea11);
    let slack = unit.max(instant.abs().times(unit));
    !slack.less(t.minus(instant).abs())
}

/// Whether two lists expect the same channels.
pub open spec fn same_outputs(a: Seq<ExpectedChannelValue>, b: Seq<ExpectedChannelValue>) -> bool {
    forall|k: Seq<char>| #[trigger]
        has_expectation(a, a.len() as int, k) == has_expectation(b, b.len() as int, k)
}

/// Whether every channel of one list is expected in another.
fn outputs_within(a: &Vec<ExpectedChannelValue>, b: &Vec<ExpectedChannelValue>) -> (r: bool)
    ensures
        r == forall|k: Seq<char>| #[trigger]
            has_expectation(a@, a@.len() as int, k) ==> has_expectation(b@, b@.len() as int, k),
{
    let mut i: usize = 0;
    while i < a.len()
        invariant
            i <= a.len(),
            forall|k: Seq<char>| #[trigger]
                has_expectation(a@, i as int, k) ==> has_expectation(b@, b@.len() as int, k),
        decreases a.len() - i,
    {
        if !contains_expectation(b, b.len(), a[i].channel.as_str()) {
            proof {
                let k = a@[i as int].channel@;
                assert(has_expectation(a@, a@.len() as int, k));
            }
            return false;
        }
        assert forall|k: Seq<char>| #[trigger] has_expectation(a@, i + 1, k) implies has_expectation(
            b@,
            b@.len() as int,
            k,
        ) by {
            let j = choose|j: int| 0 <= j < i + 1 && (#[trigger] a@[j]).channel@ == k;
            if j < i {
                assert(a@[j].channel@ == k);
                assert(has_expectation(a@, i as int, k));
            }
        }
        i = i + 1;
    }
    true
}

fn expect_same(a: &Vec<ExpectedChannelValue>, b: &Vec<ExpectedChannelValue>) -> (r: bool)
    ensures
        r == same_outputs(a@, b@),
{
    let there = outputs_within(a, b);
    let back = outputs_within(b, a);
    proof {
        if there && back {
            assert forall|k: Seq<char>| #[trigger]
                has_expectation(a@, a@.len() as int, k) == has_expectation(b@, b@.len() as int, k) by {
                if has_expectation(b@, b@.len() as int, k) {
                }
            }
        }
        if same_outputs(a@, b@) {
            assert forall|k: Seq<char>| #[trigger]
                has_expectation(b@, b@.len() as int, k) implies has_expectation(a@, a@.len() as int, k) by {
                assert(has_expectation(a@, a@.len() as int, k) == has_expectation(
                    b@,
                    b@.len() as int,
                    k,
                ));
            }
        }
    }
    there && back
}

/// What is wrong with a step.
pub open spec fn step_defect(f: ConformanceFixture, i: int) -> Option<DefectView> {
    let s = f.steps@[i];
    let at = Some(i as usize);
    if !s.time_s.is_finite() || !at_instant(s.time_s, grid_time(f.calculation_rate_hz, i)) {
        Some(
            (
                DefectKind::OffGrid {
                    time_s: s.time_s,
                    rate_hz: f.calculation_rate_hz,
                    expected: grid_time(f.calculation_rate_hz, i),
                },
                at,
                ""@,
            ),
        )
    } else if s.expected.len() == 0 {
        Some((DefectKind::NothingExpected, at, ""@))
    } else if values_defect(s.inputs@, s.inputs@.len(), at, DefectKind::DuplicateInput) is Some {
        values_defect(s.inputs@, s.inputs@.len(), at, DefectKind::DuplicateInput)
    } else if expectations_defect(s.expected@, s.expected@.len(), at) is Some {
        expectations_defect(s.expected@, s.expected@.len(), at)
    } else if !same_outputs(f.steps@[0].expected@, s.expected@) {
        Some((DefectKind::OutputsDiffer, at, ""@))
    } else {
        None
    }
}

/// The first defect among the first `n` steps.
pub open spec fn steps_defect(f: ConformanceFixture, n: nat) -> Option<DefectView>
    decreases n,
{
    if n == 0 {
        None
    } else {
        match steps_defect(f, (n - 1) as nat) {
            Some(d) => Some(d),
            None => step_defect(f, n - 1),
        }
    }
}

/// A defect among the first steps stays the first.
proof fn lemma_steps_defect(f: ConformanceFixture, n: nat, m: nat)
    requires
        n <= m,
        steps_defect(f, n) is Some,
    ensures
        steps_defect(f, m) == steps_defect(f, n),
    decreases m - n,
{
    if n < m {
        lemma_steps_defect(f, n, (m - 1) as nat);
    }
}

fn find_steps_defect(f: &ConformanceFixture) -> (r: Option<Defect>)
    ensures
        match r {
            Some(d) => steps_defect(*f, f.steps@.len()) == Some(d@),
            None => steps_defect(*f, f.steps@.len()) is None,
        },
{
    let mut i: usize = 0;
    while i < f.steps.len()
        invariant
            i <= f.steps.len(),
            steps_defect(*f, i as nat) is None,
        decreases f.steps.len() - i,
    {
        let s = &f.steps[i];
        let instant = F64::from_u64(i as u64).over(f.calculation_rate_hz);
        let found: Option<Defect> = if !s.time_s.is_finite() || !is_at_instant(s.time_s, instant) {
            Some(
                defect(
                    DefectKind::OffGrid {
                        time_s: s.time_s,
                        rate_hz: f.calculation_rate_hz,
                        expected: instant,
                    },
                    Some(i),
                    "",
                ),
            )
        } else if s.expected.len() == 0 {
            Some(defect(DefectKind::NothingExpected, Some(i), ""))
        } else {
            let inputs = find_values_defect(&s.inputs, Some(i), DefectKind::DuplicateInput);
            if inputs.is_some() {
                inputs
            } else {
                let outputs = find_expectations_defect(&s.expected, Some(i));
                if outputs.is_some() {
                    outputs
                } else if !expect_same(&f.steps[0].expected, &s.expected) {
                    Some(defect(DefectKind::OutputsDiffer, Some(i), ""))
                } else {
                    None
                }
            }
        };
        if found.is_some() {
            proof {
                lemma_steps_defect(*f, (i + 1) as nat, f.steps@.len());
            }
            return found;
        }
        i = i + 1;
    }
    None
}

/// Whether a step among the first `n` has an input for a channel.
pub open spec fn is_input(steps: Seq<FixtureStep>, n: int, k: Seq<char>) -> bool {
    exists|i: int| 0 <= i < n && #[trigger] has_value(steps[i].inputs@, steps[i].inputs@.len() as int, k)
}

/// Whether an input has no value before it first changes.
pub open spec fn late(f: ConformanceFixture, k: Seq<char>) -> bool {
    let first = f.steps@[0].inputs@;
    is_input(f.steps@, f.steps@.len() as int, k) && !has_value(first, first.len() as int, k)
        && !has_value(f.initial_state@, f.initial_state@.len() as int, k)
}

/// Whether an expected channel is an input.
pub open spec fn driven(f: ConformanceFixture, k: Seq<char>) -> bool {
    let first = f.steps@[0].expected@;
    is_input(f.steps@, f.steps@.len() as int, k) && has_expectation(first, first.len() as int, k)
}

/// What is wrong with the header, the initial state or a step, in this order.
pub open spec fn ordered_defect(f: ConformanceFixture) -> Option<DefectView> {
    let initial = values_defect(
        f.initial_state@,
        f.initial_state@.len(),
        None,
        DefectKind::DuplicateInitial,
    );
    if header_defect(f) is Some {
        header_defect(f)
    } else if initial is Some {
        initial
    } else {
        steps_defect(f, f.steps@.len())
    }
}

/// Whether a fixture keeps every rule that needs no project.
pub open spec fn well_formed(f: ConformanceFixture) -> bool {
    ordered_defect(f) is None && (forall|k: Seq<char>| !(#[trigger] late(f, k))) && (forall|
        k: Seq<char>,
    |
        !(#[trigger] driven(f, k)))
}

/// Whether a step is the first in which an input changes.
pub open spec fn is_first_change(f: ConformanceFixture, step: Option<usize>, k: Seq<char>) -> bool {
    match step {
        Some(i) => i < f.steps@.len() && has_value(
            f.steps@[i as int].inputs@,
            f.steps@[i as int].inputs@.len() as int,
            k,
        ) && !is_input(f.steps@, i as int, k),
        None => false,
    }
}

/// The first step in which an input changes.
fn first_change(f: &ConformanceFixture, k: &str) -> (r: Option<usize>)
    requires
        is_input(f.steps@, f.steps@.len() as int, k@),
    ensures
        is_first_change(*f, r, k@),
{
    let mut i: usize = 0;
    while i < f.steps.len()
        invariant
            i <= f.steps.len(),
            !is_input(f.steps@, i as int, k@),
        decreases f.steps.len() - i,
    {
        let items = &f.steps[i].inputs;
        if contains_value(items, items.len(), k) {
            return Some(i);
        }
        proof {
            if is_input(f.steps@, i + 1, k@) {
                let m = choose|m: int|
                    0 <= m < i + 1 && #[trigger] has_value(
                        f.steps@[m].inputs@,
                        f.steps@[m].inputs@.len() as int,
                        k@,
                    );
                assert(has_value(f.steps@[m].inputs@, f.steps@[m].inputs@.len() as int, k@));
                assert(m == i || is_input(f.steps@, i as int, k@));
            }
        }
        i = i + 1;
    }
    None
}

/// Whether a defect is the one that a fixture is refused for. Of several late inputs,
/// or inputs that are expected, it is the first by name; of a late input the step in
/// which it first changes is given.
pub open spec fn is_document_defect(f: ConformanceFixture, d: DefectView) -> bool {
    if ordered_defect(f) is Some {
        ordered_defect(f) == Some(d)
    } else if exists|k: Seq<char>| #[trigger] late(f, k) {
        d.0 == DefectKind::LateInput && is_first_change(f, d.1, d.2) && late(f, d.2) && forall|
            k: Seq<char>,
        | #[trigger] late(f, k) ==> !before(k, d.2)
    } else {
        d.0 == DefectKind::DrivenOutput && d.1 is None && driven(f, d.2) && forall|k: Seq<char>|
            #[trigger] driven(f, k) ==> !before(k, d.2)
    }
}

/// The inputs of a fixture, each once and in order.
pub fn input_names(steps: &Vec<FixtureStep>) -> (r: TextMap<bool>)
    ensures
        forall|k: Seq<char>| #[trigger] r@.contains_key(k) == is_input(steps@, steps@.len() as int, k),
{
    let mut r: TextMap<bool> = TextMap::new();
    let mut i: usize = 0;
    while i < steps.len()
        invariant
            i <= steps.len(),
            forall|k: Seq<char>| #[trigger] r@.contains_key(k) == is_input(steps@, i as int, k),
        decreases steps.len() - i,
    {
        let items = &steps[i].inputs;
        let ghost start = r@;
        let mut j: usize = 0;
        while j < items.len()
            invariant
                j <= items.len(),
                forall|k: Seq<char>| #[trigger]
                    r@.contains_key(k) == (start.contains_key(k) || has_value(items@, j as int, k)),
            decreases items.len() - j,
        {
            let ghost known = r@;
            let name = items[j].channel.clone();
            let ghost key = name@;
            r.insert(name, true);
            assert forall|k: Seq<char>| #[trigger]
                r@.contains_key(k) == (start.contains_key(k) || has_value(items@, j + 1, k)) by {
                assert(known.contains_key(k) == (start.contains_key(k) || has_value(
                    items@,
                    j as int,
                    k,
                )));
                assert(items@[j as int].channel@ == key);
                if has_value(items@, j as int, k) {
                    let m = choose|m: int| 0 <= m < j && (#[trigger] items@[m]).channel@ == k;
                    assert(items@[m].channel@ == k);
                }
                if has_value(items@, j + 1, k) && k != key {
                    let m = choose|m: int| 0 <= m < j + 1 && (#[trigger] items@[m]).channel@ == k;
                    assert(items@[m].channel@ == k);
                    assert(has_value(items@, j as int, k));
                }
            }
            j = j + 1;
        }
        assert forall|k: Seq<char>| #[trigger] r@.contains_key(k) == is_input(steps@, i + 1, k) by {
            let here = has_value(steps@[i as int].inputs@, steps@[i as int].inputs@.len() as int, k);
            assert(start.contains_key(k) == is_input(steps@, i as int, k));
            if is_input(steps@, i as int, k) {
                let m = choose|m: int|
                    0 <= m < i && #[trigger] has_value(
                        steps@[m].inputs@,
                        steps@[m].inputs@.len() as int,
                        k,
                    );
                assert(has_value(steps@[m].inputs@, steps@[m].inputs@.len() as int, k));
            }
            if is_input(steps@, i + 1, k) && !here {
                let m = choose|m: int|
                    0 <= m < i + 1 && #[trigger] has_value(
                        steps@[m].inputs@,
                        steps@[m].inputs@.len() as int,
                        k,
                    );
                assert(has_value(steps@[m].inputs@, steps@[m].inputs@.len() as int, k));
                assert(is_input(steps@, i as int, k));
            }
        }
        i = i + 1;
    }
    r
}

/// The first late input by name.
fn find_late(f: &ConformanceFixture, names: &TextMap<bool>) -> (r: Option<Defect>)
    requires
        f.steps.len() > 0,
        forall|k: Seq<char>| #[trigger]
            names@.contains_key(k) == is_input(f.steps@, f.steps@.len() as int, k),
    ensures
        match r {
            Some(d) => d@.0 == DefectKind::LateInput && is_first_change(*f, d@.1, d@.2) && late(
                *f,
                d@.2,
            ) && forall|
                k: Seq<char>,
            | #[trigger] late(*f, k) ==> !before(k, d@.2),
            None => forall|k: Seq<char>| !(#[trigger] late(*f, k)),
        },
{
    let n: usize = names.len();
    let ghost all = names.items();
    let mut i: usize = 0;
    while i < n
        invariant
            i <= n == all.len(),
            all == names.items(),
            in_order(all),
            names@ == map_of(all),
            f.steps.len() > 0,
            forall|k: Seq<char>| #[trigger]
                names@.contains_key(k) == is_input(f.steps@, f.steps@.len() as int, k),
            forall|j: int| 0 <= j < i ==> !late(*f, #[trigger] all[j].0@),
        decreases n - i,
    {
        let name: &str = names.at(i).0.as_str();
        let first = &f.steps[0].inputs;
        let seeded = contains_value(first, first.len(), name) || contains_value(
            &f.initial_state,
            f.initial_state.len(),
            name,
        );
        if !seeded {
            proof {
                lemma_map_of(all, i as int);
                assert(names@.contains_key(name@));
                assert forall|k: Seq<char>| #[trigger] late(*f, k) implies !before(k, name@) by {
                    assert(names@.contains_key(k));
                    let j = choose|j: int| 0 <= j < all.len() && #[trigger] all[j].0@ == k;
                    if j > i {
                        assert(before(all[i as int].0@, all[j].0@));
                        lemma_before_total(all[i as int].0@, all[j].0@);
                    }
                    lemma_before_total(k, name@);
                }
            }
            return Some(defect(DefectKind::LateInput, first_change(f, name), name));
        }
        i = i + 1;
    }
    proof {
        assert forall|k: Seq<char>| !(#[trigger] late(*f, k)) by {
            if late(*f, k) {
                assert(names@.contains_key(k));
                let j = choose|j: int| 0 <= j < all.len() && #[trigger] all[j].0@ == k;
                assert(!late(*f, all[j].0@));
            }
        }
    }
    None
}

/// The first expected input by name.
fn find_driven(f: &ConformanceFixture, names: &TextMap<bool>) -> (r: Option<Defect>)
    requires
        f.steps.len() > 0,
        forall|k: Seq<char>| #[trigger]
            names@.contains_key(k) == is_input(f.steps@, f.steps@.len() as int, k),
    ensures
        match r {
            Some(d) => d@.0 == DefectKind::DrivenOutput && d@.1 is None && driven(*f, d@.2) && forall|
                k: Seq<char>,
            | #[trigger] driven(*f, k) ==> !before(k, d@.2),
            None => forall|k: Seq<char>| !(#[trigger] driven(*f, k)),
        },
{
    let n: usize = names.len();
    let ghost all = names.items();
    let mut i: usize = 0;
    while i < n
        invariant
            i <= n == all.len(),
            all == names.items(),
            in_order(all),
            names@ == map_of(all),
            f.steps.len() > 0,
            forall|k: Seq<char>| #[trigger]
                names@.contains_key(k) == is_input(f.steps@, f.steps@.len() as int, k),
            forall|j: int| 0 <= j < i ==> !driven(*f, #[trigger] all[j].0@),
        decreases n - i,
    {
        let name: &str = names.at(i).0.as_str();
        let first = &f.steps[0].expected;
        if contains_expectation(first, first.len(), name) {
            proof {
                lemma_map_of(all, i as int);
                assert(names@.contains_key(name@));
                assert forall|k: Seq<char>| #[trigger] driven(*f, k) implies !before(k, name@) by {
                    assert(names@.contains_key(k));
                    let j = choose|j: int| 0 <= j < all.len() && #[trigger] all[j].0@ == k;
                    if j > i {
                        assert(before(all[i as int].0@, all[j].0@));
                        lemma_before_total(all[i as int].0@, all[j].0@);
                    }
                    lemma_before_total(k, name@);
                }
            }
            return Some(defect(DefectKind::DrivenOutput, None, name));
        }
        i = i + 1;
    }
    proof {
        assert forall|k: Seq<char>| !(#[trigger] driven(*f, k)) by {
            if driven(*f, k) {
                assert(names@.contains_key(k));
                let j = choose|j: int| 0 <= j < all.len() && #[trigger] all[j].0@ == k;
                assert(!driven(*f, all[j].0@));
            }
        }
    }
    None
}

impl ConformanceFixture {
    fn document_defect(&self) -> (r: Option<Defect>)
        ensures
            match r {
                Some(d) => !well_formed(*self) && is_document_defect(*self, d@),
                None => well_formed(*self),
            },
    {
        let header = find_header_defect(self);
        if header.is_some() {
            return header;
        }
        let initial = find_values_defect(&self.initial_state, None, DefectKind::DuplicateInitial);
        if initial.is_some() {
            return initial;
        }
        let steps = find_steps_defect(self);
        if steps.is_some() {
            return steps;
        }
        let names = input_names(&self.steps);
        let unseeded = find_late(self, &names);
        if unseeded.is_some() {
            return unseeded;
        }
        find_driven(self, &names)
    }

    /// Holds the fixture to every rule that needs no project.
    pub fn validate_document(&self) -> (r: Result<(), ConformanceError>)
        ensures
            match r {
                Ok(_) => well_formed(*self),
                Err(e) => !well_formed(*self) && (e matches ConformanceError::InvalidFixture {
                    fixture,
                    defect,
                } && fixture@ == self.label() && is_document_defect(*self, defect@)),
            },
    {
        match self.document_defect() {
            None => Ok(()),
            Some(d) => Err(self.invalid(d)),
        }
    }
}

} // verus!
