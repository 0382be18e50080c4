//! The core methods of project values: `Validate`, `Constrain`, `Set` and `GetUnscheduled`.
//!
//! The project file gives each value its validation rule. A range is inclusive,
//! and its ends are taken in the family of the value that is tested.

use crate::builtins::paths::{
    unscheduled_path_of, unscheduled_value_path, value_path, value_path_of, Sought,
};
use crate::coerce::{channel_fault, coerce_for_channel, to_channel};
use crate::context::{read_symbol, reads, EvalCtx};
use crate::decimal::{double_literal, parse_double};
use crate::env::Env;
use crate::error::{
    bad_call, is_bad_call, is_type_error, is_unsupported, unsupported, EvalError,
};
use crate::float::binary64::F64;
use crate::map::TextMap;
use crate::project::{borrow_text, classify, resolved, str_of, text_of, Target, TargetView};
use crate::text::{enclosed, joined, lower, lowered, quoted, quoted_text, same, trim, trimmed};
use crate::trace::Trace;
use crate::value::{
    family_name, kind_name, FixedPoint7dps, M1Scalar, M1ScalarKind, Value, FIXED_SCALE,
};
use crate::xml::{
    attribute, attribute_of, child_after, child_from, has_tag_name, is_element, nodes_of, parse_document, xml_document,
    NodeView, XmlNode,
};
use vstd::prelude::*;
use vstd::string::*;

verus! {

/// A validation rule.
#[derive(Debug, PartialEq)]
pub enum ValidationRule {
    /// Between two bounds, both included.
    MinMax {
        /// The lower bound.
        min: F64,
        /// The upper bound.
        max: F64,
    },
    /// At least zero; project files call it `Positive`.
    NonNegative,
    /// A rule that is not known; an error only where a value meets it.
    Unsupported(String),
}

/// The content of a [`ValidationRule`].
pub enum RuleView {
    /// Between two bounds, both included.
    MinMax(F64, F64),
    /// At least zero.
    NonNegative,
    /// A rule that is not known.
    Unsupported(Seq<char>),
}

impl View for ValidationRule {
    type V = RuleView;

    open spec fn view(&self) -> RuleView {
        match *self {
            ValidationRule::MinMax { min, max } => RuleView::MinMax(min, max),
            ValidationRule::NonNegative => RuleView::NonNegative,
            ValidationRule::Unsupported(s) => RuleView::Unsupported(s@),
        }
    }
}

/// The validation rules of a project, by symbol path.
#[derive(Debug)]
pub struct ObjectRules {
    /// The rules.
    pub validation: TextMap<ValidationRule>,
}

/// The content of the rules.
pub open spec fn rules_view(m: Map<Seq<char>, ValidationRule>) -> Map<Seq<char>, RuleView> {
    m.map_values(|r: ValidationRule| r@)
}

/// A bound as written: a finite number, or what is wrong with it.
pub open spec fn bound_literal(name: Seq<char>, raw: Option<Seq<char>>) -> Result<F64, Seq<char>> {
    match raw {
        Some(s) => match double_literal(s) {
            Some(v) => if v.is_finite() {
                Ok(v)
            } else {
                Err(name + " must be finite"@)
            },
            None => Err(name + " is not a number"@),
        },
        None => Err("MinMax is missing "@ + name),
    }
}

/// What is wrong with bounds out of order.
pub open spec fn disorder(min: F64, max: F64) -> Seq<char> {
    "ValMin "@ + min.text() + " exceeds ValMax "@ + max.text()
}

/// The rule that a `<Props>` element states, or what is wrong with it.
pub open spec fn rule_of(props: NodeView) -> Option<Result<RuleView, Seq<char>>> {
    match attribute_of(props.2, "Validation"@) {
        None => None,
        Some(raw) => {
            let kind = trimmed(raw);
            if kind.len() == 0 || lowered(kind) == "none"@ {
                None
            } else if kind == "MinMax"@ {
                let lo = attribute_of(props.2, "ValMin"@);
                let hi = attribute_of(props.2, "ValMax"@);
                match (bound_literal("ValMin"@, lo), bound_literal("ValMax"@, hi)) {
                    (Err(detail), _) => Some(Err(detail)),
                    (Ok(_), Err(detail)) => Some(Err(detail)),
                    (Ok(min), Ok(max)) => if max.less(min) {
                        Some(Err(disorder(min, max)))
                    } else {
                        Some(Ok(RuleView::MinMax(min, max)))
                    },
                }
            } else if kind == "Positive"@ {
                Some(Ok(RuleView::NonNegative))
            } else {
                Some(Ok(RuleView::Unsupported(kind)))
            }
        },
    }
}

/// The message about the rule of a symbol.
pub open spec fn rule_error(path: Seq<char>, detail: Seq<char>) -> Seq<char> {
    "invalid validation rule on "@ + quoted_text(path) + ": "@ + detail
}

/// The rules among the first `n` nodes, or the message about the first that is malformed.
pub open spec fn rules_of(nodes: Seq<NodeView>, n: nat) -> Result<
    Map<Seq<char>, RuleView>,
    Seq<char>,
>
    decreases n,
{
    if n == 0 {
        Ok(Map::empty())
    } else {
        let i = (n - 1) as nat;
        match rules_of(nodes, i) {
            Err(message) => Err(message),
            Ok(before) => if is_element(nodes[i as int], "Component"@) {
                match (
                    attribute_of(nodes[i as int].2, "Name"@),
                    child_from(nodes, i as usize, "Props"@, 0),
                ) {
                    (Some(name), Some(props)) => match rule_of(nodes[props as int]) {
                        None => Ok(before),
                        Some(Err(detail)) => Err(rule_error(name, detail)),
                        Some(Ok(rule)) => Ok(before.insert(name, rule)),
                    },
                    _ => Ok(before),
                }
            } else {
                Ok(before)
            },
        }
    }
}

proof fn lemma_rules_fail(nodes: Seq<NodeView>, i: nat, n: nat)
    requires
        i <= n,
        rules_of(nodes, i) is Err,
    ensures
        rules_of(nodes, n) == rules_of(nodes, i),
    decreases n - i,
{
    if i < n {
        lemma_rules_fail(nodes, i + 1, n);
    }
}

/// Whether an error is one about the content of the project document.
pub open spec fn is_project_error(e: EvalError, message: Seq<char>) -> bool {
    e matches EvalError::UnsupportedConstruct { kind, at } && kind@ == message && at == 0
}

/// An error about a rule.
fn invalid_rule(path: &str, detail: &str) -> (r: EvalError)
    ensures
        is_project_error(r, rule_error(path@, detail@)),
{
    let q = quoted(path);
    EvalError::UnsupportedConstruct {
        kind: joined("invalid validation rule on ", q.as_str()).concat(": ").concat(detail),
        at: 0,
    }
}

fn parse_bound(name: &str, raw: Option<&str>) -> (r: Result<F64, String>)
    ensures
        match bound_literal(name@, str_of(raw)) {
            Ok(v) => r == Ok::<F64, String>(v),
            Err(detail) => r matches Err(d) && d@ == detail,
        },
{
    match raw {
        Some(s) => match parse_double(s) {
            Some(v) => if v.is_finite() {
                Ok(v)
            } else {
                Err(joined(name, " must be finite"))
            },
            None => Err(joined(name, " is not a number")),
        },
        None => Err(joined("MinMax is missing ", name)),
    }
}

/// The rule that a `<Props>` element states.
fn read_rule(path: &str, props: &XmlNode) -> (r: Result<Option<ValidationRule>, EvalError>)
    ensures
        match rule_of(props@) {
            None => r matches Ok(None),
            Some(Err(detail)) => r matches Err(e) && is_project_error(e, rule_error(path@, detail)),
            Some(Ok(v)) => r matches Ok(Some(rule)) && rule@ == v,
        },
{
    let kind: String = match attribute(props, "Validation") {
        Some(raw) => trim(raw),
        None => return Ok(None),
    };
    let folded = lower(kind.as_str());
    if kind.as_str().is_empty() || same(folded.as_str(), "none") {
        return Ok(None);
    }
    if same(kind.as_str(), "MinMax") {
        let lo = attribute(props, "ValMin");
        let hi = attribute(props, "ValMax");
        let min: F64 = match parse_bound("ValMin", lo) {
            Ok(v) => v,
            Err(detail) => return Err(invalid_rule(path, detail.as_str())),
        };
        let max: F64 = match parse_bound("ValMax", hi) {
            Ok(v) => v,
            Err(detail) => return Err(invalid_rule(path, detail.as_str())),
        };
        if max.less(min) {
            let detail = enclosed("ValMin ", min.to_text().as_str(), " exceeds ValMax ").concat(
                max.to_text().as_str(),
            );
            Err(invalid_rule(path, detail.as_str()))
        } else {
            Ok(Some(ValidationRule::MinMax { min, max }))
        }
    } else if same(kind.as_str(), "Positive") {
        Ok(Some(ValidationRule::NonNegative))
    } else {
        Ok(Some(ValidationRule::Unsupported(kind)))
    }
}

impl ObjectRules {
    /// No rules.
    pub fn empty() -> (r: ObjectRules)
        ensures
            r.validation@ == Map::<Seq<char>, ValidationRule>::empty(),
    {
        ObjectRules { validation: TextMap::new() }
    }

    /// Reads the rules of a parsed project document.
    pub fn from_nodes(nodes: &Vec<XmlNode>) -> (r: Result<ObjectRules, EvalError>)
        ensures
            ({
                let all = nodes_of(nodes@);
                match rules_of(all, all.len()) {
                    Ok(m) => r matches Ok(o) && rules_view(o.validation@) == m,
                    Err(message) => r matches Err(e) && is_project_error(e, message),
                }
            }),
    {
        let ghost all = nodes_of(nodes@);
        let mut validation: TextMap<ValidationRule> = TextMap::new();
        let mut i: usize = 0;
        assert(rules_view(validation@) =~= Map::<Seq<char>, RuleView>::empty());
        while i < nodes.len()
            invariant
                i <= nodes.len() == all.len(),
                all == nodes_of(nodes@),
                rules_of(all, i as nat) == Ok::<Map<Seq<char>, RuleView>, Seq<char>>(
                    rules_view(validation@),
                ),
            decreases nodes.len() - i,
        {
            let n = &nodes[i];
            assert(all[i as int] == n@);
            if has_tag_name(n, "Component") {
                match (attribute(n, "Name"), child_after(nodes, i, "Props", 0)) {
                    (Some(name), Some(props)) => {
                        let c = &nodes[props];
                        assert(all[props as int] == c@);
                        match read_rule(name, c) {
                            Ok(Some(rule)) => {
                                let ghost before = validation@;
                                let ghost view = rule@;
                                let ghost key = name@;
                                validation.insert(name.to_owned(), rule);
                                assert(rules_view(validation@) =~= rules_view(before).insert(
                                    key,
                                    view,
                                ));
                            },
                            Ok(None) => {},
                            Err(e) => {
                                proof {
                                    assert(rules_of(all, (i + 1) as nat) is Err);
                                    lemma_rules_fail(all, (i + 1) as nat, all.len());
                                }
                                return Err(e);
                            },
                        }
                    },
                    _ => {},
                }
            }
            i = i + 1;
        }
        Ok(ObjectRules { validation })
    }

    /// Reads the rules of a project document.
    pub fn from_project_xml(xml: &str) -> (r: Result<ObjectRules, EvalError>)
        ensures
            match xml_document(xml@) {
                Ok(all) => match rules_of(all, all.len()) {
                    Ok(m) => r matches Ok(o) && rules_view(o.validation@) == m,
                    Err(message) => r matches Err(e) && is_project_error(e, message),
                },
                Err(message) => r matches Err(e) && is_project_error(
                    e,
                    "project XML re-parse for object rules failed: "@ + message,
                ),
            },
    {
        match parse_document(xml) {
            Ok(nodes) => ObjectRules::from_nodes(&nodes),
            Err(message) => Err(
                EvalError::UnsupportedConstruct {
                    kind: joined(
                        "project XML re-parse for object rules failed: ",
                        message.as_str(),
                    ),
                    at: 0,
                },
            ),
        }
    }

    /// The rule of an object: its own, or that of the value it stands for.
    pub open spec fn rule(self, object: Seq<char>, value_path: Seq<char>) -> Option<RuleView> {
        if self.validation@.contains_key(object) {
            Some(self.validation@[object]@)
        } else if self.validation@.contains_key(value_path) {
            Some(self.validation@[value_path]@)
        } else {
            None
        }
    }

    /// The rule of an object: its own, or that of the value it stands for.
    pub fn rule_for(&self, object: &str, value_path: &str) -> (r: Option<&ValidationRule>)
        ensures
            match self.rule(object@, value_path@) {
                Some(v) => r matches Some(x) && x@ == v,
                None => r is None,
            },
    {
        match self.validation.get(object) {
            Some(rule) => Some(rule),
            None => self.validation.get(value_path),
        }
    }
}

/// The bounds of a rule; nothing for a rule that is not known.
pub open spec fn bounds_of(rule: RuleView) -> Option<(Option<F64>, Option<F64>)> {
    match rule {
        RuleView::MinMax(min, max) => Some((Some(min), Some(max))),
        RuleView::NonNegative => Some((Some(F64 { bits: 0 }), None)),
        RuleView::Unsupported(_) => None,
    }
}

/// What is wrong where a value meets a rule that is not known.
pub open spec fn unknown_rule(canon: Seq<char>, rule: RuleView) -> Seq<char> {
    "object "@ + quoted_text(canon) + " uses unsupported validation rule "@ + quoted_text(
        rule->Unsupported_0,
    )
}

fn rule_bounds(rule: &ValidationRule, canon: &str) -> (r: Result<
    (Option<F64>, Option<F64>),
    EvalError,
>)
    ensures
        match bounds_of(rule@) {
            Some(b) => r == Ok::<(Option<F64>, Option<F64>), EvalError>(b),
            None => r matches Err(e) && is_type_error(e, unknown_rule(canon@, rule@)),
        },
{
    match rule {
        ValidationRule::MinMax { min, max } => Ok((Some(*min), Some(*max))),
        ValidationRule::NonNegative => Ok((Some(F64::from_bits(0)), None)),
        ValidationRule::Unsupported(kind) => {
            let head = enclosed(
                "object ",
                quoted(canon).as_str(),
                " uses unsupported validation rule ",
            );
            let detail = joined(head.as_str(), quoted(kind.as_str()).as_str());
            Err(EvalError::TypeError { detail })
        },
    }
}

/// Whether a rule with the given bounds admits a number. It never admits a NaN.
pub open spec fn admits(bounds: (Option<F64>, Option<F64>), x: F64) -> bool {
    &&& !x.is_nan()
    &&& (bounds.0 matches Some(lo) ==> lo.at_most(x))
    &&& (bounds.1 matches Some(hi) ==> x.at_most(hi))
}

fn within_bounds(bounds: (Option<F64>, Option<F64>), x: F64) -> (r: bool)
    ensures
        r == admits(bounds, x),
{
    if x.is_nan() {
        return false;
    }
    let above = match bounds.0 {
        Some(lo) => lo.at_most(x),
        None => true,
    };
    let below = match bounds.1 {
        Some(hi) => x.at_most(hi),
        None => true,
    };
    above && below
}

/// Whether a rule admits a scalar; nothing for a rule that is not known and a number.
pub open spec fn accepts(rule: RuleView, scalar: M1Scalar) -> Option<bool> {
    if scalar.wide().is_nan() {
        Some(false)
    } else {
        match bounds_of(rule) {
            Some(b) => Some(admits(b, scalar.wide())),
            None => None,
        }
    }
}

fn rule_accepts(rule: &ValidationRule, scalar: M1Scalar, canon: &str) -> (r: Result<
    bool,
    EvalError,
>)
    ensures
        match accepts(rule@, scalar) {
            Some(b) => r == Ok::<bool, EvalError>(b),
            None => r matches Err(e) && is_type_error(e, unknown_rule(canon@, rule@)),
        },
{
    let x = scalar.wide();
    if x.is_nan() {
        return Ok(false);
    }
    let bounds = rule_bounds(rule, canon)?;
    Ok(within_bounds(bounds, x))
}

/// A message about what no value of a family meets.
pub open spec fn no_value_text(what: Seq<char>, canon: Seq<char>, kind: M1ScalarKind) -> Seq<char> {
    what + " on "@ + quoted_text(canon) + " has no value in M1 "@ + family_name(kind)
}

fn no_value(what: &str, canon: &str, kind: M1ScalarKind) -> (r: EvalError)
    ensures
        is_type_error(r, no_value_text(what@, canon@, kind)),
{
    let q = quoted(canon);
    let detail = joined(what, " on ").concat(q.as_str()).concat(" has no value in M1 ").concat(
        kind_name(kind),
    );
    EvalError::TypeError { detail }
}

/// A bound for a message.
pub open spec fn bound_text(bound: F64) -> Seq<char> {
    "validation bound "@ + bound.text()
}

/// A range for a message.
pub open spec fn range_text(b: (Option<F64>, Option<F64>)) -> Seq<char> {
    "validation range "@ + match b {
        (Some(min), Some(max)) => "["@ + min.text() + ", "@ + max.text() + "]"@,
        (Some(min), None) => "["@ + min.text() + ", +infinity)"@,
        (None, Some(max)) => "(-infinity, "@ + max.text() + "]"@,
        (None, None) => "unbounded"@,
    }
}

fn show_range(b: (Option<F64>, Option<F64>)) -> (r: String)
    ensures
        r@ == range_text(b),
{
    let range: String = match b {
        (Some(min), Some(max)) => enclosed(
            enclosed("[", min.to_text().as_str(), ", ").as_str(),
            max.to_text().as_str(),
            "]",
        ),
        (Some(min), None) => enclosed("[", min.to_text().as_str(), ", +infinity)"),
        (None, Some(max)) => enclosed("(-infinity, ", max.to_text().as_str(), "]"),
        (None, None) => "unbounded".to_owned(),
    };
    joined("validation range ", range.as_str())
}

/// An end of a range.
#[derive(Clone, Copy, PartialEq, Eq, Structural, Debug)]
pub enum BoundSide {
    /// The lower end.
    Lower,
    /// The upper end.
    Upper,
}

/// The fixed-point value of a stored count, in binary64.
pub open spec fn fixed_at(raw: int) -> F64 {
    (FixedPoint7dps { raw: raw as i32 }).wide()
}

/// Whether a stored count is the one next to a bound, on the inner side.
pub open spec fn next_to_bound(raw: int, bound: F64, side: BoundSide) -> bool {
    &&& i32::MIN <= raw <= i32::MAX
    &&& match side {
        BoundSide::Lower => !fixed_at(raw).less(bound) && forall|r: int|
            i32::MIN <= r < raw ==> (#[trigger] fixed_at(r)).less(bound),
        BoundSide::Upper => !bound.less(fixed_at(raw)) && forall|r: int|
            raw < r <= i32::MAX ==> bound.less(#[trigger] fixed_at(r)),
    }
}

/// The value of a family next to a bound, on the inner side; nothing where the family has none.
pub open spec fn end_of(bound: F64, kind: M1ScalarKind, side: BoundSide) -> Option<M1Scalar> {
    match kind {
        M1ScalarKind::FloatingPoint => {
            let v = bound.narrow();
            if !v.is_finite() {
                None
            } else {
                Some(
                    M1Scalar::FloatingPoint(
                        match side {
                            BoundSide::Lower => if v.widen().less(bound) {
                                v.next_up()
                            } else {
                                v
                            },
                            BoundSide::Upper => if bound.less(v.widen()) {
                                v.next_down()
                            } else {
                                v
                            },
                        },
                    ),
                )
            }
        },
        M1ScalarKind::Integer => {
            let w = bound.whole_toward(side == BoundSide::Lower);
            if bound.is_finite() && i32::MIN <= w <= i32::MAX {
                Some(M1Scalar::Integer(w as i32))
            } else {
                None
            }
        },
        M1ScalarKind::UnsignedInteger => {
            let w = bound.whole_toward(side == BoundSide::Lower);
            if bound.is_finite() && 0 <= w <= u32::MAX {
                Some(M1Scalar::UnsignedInteger(w as u32))
            } else {
                None
            }
        },
        M1ScalarKind::FixedPoint7dps => if bound.times(F64::nearest(FIXED_SCALE as int)).is_finite()
            && exists|raw: int| next_to_bound(raw, bound, side) {
            Some(
                M1Scalar::FixedPoint7dps(
                    FixedPoint7dps {
                        raw: (choose|raw: int| next_to_bound(raw, bound, side)) as i32,
                    },
                ),
            )
        } else {
            None
        },
    }
}

/// At most one stored count is next to a bound.
proof fn lemma_next_unique(a: int, b: int, bound: F64, side: BoundSide)
    requires
        next_to_bound(a, bound, side),
        next_to_bound(b, bound, side),
    ensures
        a == b,
{
    if a < b {
        assert(side is Lower ==> fixed_at(a).less(bound));
        assert(side is Upper ==> bound.less(fixed_at(b)));
    } else if b < a {
        assert(side is Lower ==> fixed_at(b).less(bound));
        assert(side is Upper ==> bound.less(fixed_at(a)));
    }
}

/// The stored count next to a bound.
fn fixed_bound(bound: F64, side: BoundSide) -> (r: Option<i32>)
    requires
        !bound.is_nan(),
    ensures
        match r {
            Some(raw) => next_to_bound(raw as int, bound, side),
            None => forall|raw: int| !next_to_bound(raw, bound, side),
        },
{
    match side {
        BoundSide::Lower => {
            let mut lo: i64 = -0x8000_0001;
            let mut hi: i64 = 0x8000_0000;
            while hi - lo > 1
                invariant
                    -0x8000_0001 <= lo < hi <= 0x8000_0000,
                    lo >= -0x8000_0000 ==> fixed_at(lo as int).less(bound),
                    hi <= 0x7fff_ffff ==> !fixed_at(hi as int).less(bound),
                decreases hi - lo,
            {
                let mid: i64 = lo + (hi - lo) / 2;
                if FixedPoint7dps::from_raw(mid as i32).wide().less(bound) {
                    lo = mid;
                } else {
                    hi = mid;
                }
            }
            proof {
                lemma_all_below(lo as int, bound);
            }
            if hi <= 0x7fff_ffff {
                Some(hi as i32)
            } else {
                None
            }
        },
        BoundSide::Upper => {
            let mut lo: i64 = -0x8000_0001;
            let mut hi: i64 = 0x8000_0000;
            while hi - lo > 1
                invariant
                    -0x8000_0001 <= lo < hi <= 0x8000_0000,
                    lo >= -0x8000_0000 ==> !bound.less(fixed_at(lo as int)),
                    hi <= 0x7fff_ffff ==> bound.less(fixed_at(hi as int)),
                decreases hi - lo,
            {
                let mid: i64 = lo + (hi - lo) / 2;
                if bound.less(FixedPoint7dps::from_raw(mid as i32).wide()) {
                    hi = mid;
                } else {
                    lo = mid;
                }
            }
            proof {
                lemma_all_above(hi as int, bound);
            }
            if lo >= -0x8000_0000 {
                Some(lo as i32)
            } else {
                None
            }
        },
    }
}

/// Below a count whose value is below the bound, all are.
proof fn lemma_all_below(lo: int, bound: F64)
    requires
        -0x8000_0001 <= lo <= i32::MAX,
        lo >= i32::MIN ==> fixed_at(lo).less(bound),
    ensures
        forall|r: int| i32::MIN <= r <= lo ==> (#[trigger] fixed_at(r)).less(bound),
{
    assert forall|r: int| i32::MIN <= r <= lo implies (#[trigger] fixed_at(r)).less(bound) by {
        lemma_fixed_ordered(r as i32, lo as i32);
    }
}

/// Above a count whose value is above the bound, all are.
proof fn lemma_all_above(hi: int, bound: F64)
    requires
        i32::MIN <= hi <= 0x8000_0000,
        hi <= i32::MAX ==> bound.less(fixed_at(hi)),
    ensures
        forall|r: int| hi <= r <= i32::MAX ==> bound.less(#[trigger] fixed_at(r)),
{
    assert forall|r: int| hi <= r <= i32::MAX implies bound.less(#[trigger] fixed_at(r)) by {
        lemma_fixed_ordered(hi as i32, r as i32);
    }
}

/// A greater stored count is a number that is no less.
pub proof fn lemma_fixed_ordered(a: i32, b: i32)
    requires
        a <= b,
    ensures
        (FixedPoint7dps { raw: a }).wide().at_most((FixedPoint7dps { raw: b }).wide()),
{
    crate::float::laws::lemma_scaled_ordered(a as int, b as int, FIXED_SCALE as int);
}

fn bound_value(bound: F64, kind: M1ScalarKind, side: BoundSide, canon: &str) -> (r: Result<
    Value,
    EvalError,
>)
    requires
        !bound.is_nan(),
    ensures
        match end_of(bound, kind, side) {
            Some(s) => r == Ok::<Value, EvalError>(Value::M1(s)),
            None => r matches Err(e) && is_type_error(
                e,
                no_value_text(bound_text(bound), canon@, kind),
            ),
        },
{
    let lower = match side {
        BoundSide::Lower => true,
        BoundSide::Upper => false,
    };
    let scalar: Option<M1Scalar> = match kind {
        M1ScalarKind::FloatingPoint => {
            let v = bound.narrow();
            if !v.is_finite() {
                None
            } else if lower {
                Some(M1Scalar::FloatingPoint(if v.widen().less(bound) { v.next_up() } else { v }))
            } else {
                Some(M1Scalar::FloatingPoint(if bound.less(v.widen()) { v.next_down() } else { v }))
            }
        },
        M1ScalarKind::Integer => {
            if !bound.is_finite() {
                None
            } else {
                match bound.whole_within(lower, -0x8000_0000, 0x7fff_ffff) {
                    Some(w) => Some(M1Scalar::Integer(w as i32)),
                    None => None,
                }
            }
        },
        M1ScalarKind::UnsignedInteger => {
            if !bound.is_finite() {
                None
            } else {
                match bound.whole_within(lower, 0, 0xffff_ffff) {
                    Some(w) => Some(M1Scalar::UnsignedInteger(w as u32)),
                    None => None,
                }
            }
        },
        M1ScalarKind::FixedPoint7dps => {
            let scaled = bound.times(F64::from_i64(FIXED_SCALE as i64));
            if !scaled.is_finite() {
                None
            } else {
                match fixed_bound(bound, side) {
                    Some(raw) => {
                        proof {
                            let c = choose|r: int| next_to_bound(r, bound, side);
                            assert(next_to_bound(raw as int, bound, side));
                            lemma_next_unique(c, raw as int, bound, side);
                        }
                        Some(M1Scalar::FixedPoint7dps(FixedPoint7dps::from_raw(raw)))
                    },
                    None => None,
                }
            }
        },
    };
    match scalar {
        Some(s) => Ok(Value::M1(s)),
        None => {
            let what: String = joined("validation bound ", bound.to_text().as_str());
            Err(no_value(what.as_str(), canon, kind))
        },
    }
}

/// A scalar held within the range of a rule, in its own family. Nothing where the
/// rule is not known or its range has no value of the family. A NaN stays.
pub open spec fn constrained(rule: RuleView, scalar: M1Scalar) -> Option<M1Scalar> {
    match bounds_of(rule) {
        None => None,
        Some(b) => {
            let x = scalar.wide();
            if x.is_nan() {
                Some(scalar)
            } else if b.0 is Some && x.less(b.0->Some_0) {
                admitted(b, end_of(b.0->Some_0, scalar.kind(), BoundSide::Lower))
            } else if b.1 is Some && b.1->Some_0.less(x) {
                admitted(b, end_of(b.1->Some_0, scalar.kind(), BoundSide::Upper))
            } else {
                Some(scalar)
            }
        },
    }
}

/// An end of a range that the range admits.
pub open spec fn admitted(b: (Option<F64>, Option<F64>), end: Option<M1Scalar>) -> Option<M1Scalar> {
    match end {
        Some(s) if admits(b, s.wide()) => Some(s),
        _ => None,
    }
}

/// What is wrong where a number cannot be held within the range of a rule: the rule is
/// not known, the bound has no value of the family, or the range has none.
pub open spec fn constrain_fault(canon: Seq<char>, rule: RuleView, scalar: M1Scalar) -> Seq<char> {
    match bounds_of(rule) {
        None => unknown_rule(canon, rule),
        Some(b) => {
            let kind = scalar.kind();
            let below = b.0 is Some && scalar.wide().less(b.0->Some_0);
            let bound = if below {
                b.0->Some_0
            } else {
                b.1->Some_0
            };
            let side = if below {
                BoundSide::Lower
            } else {
                BoundSide::Upper
            };
            match end_of(bound, kind, side) {
                None => no_value_text(bound_text(bound), canon, kind),
                Some(_) => no_value_text(range_text(b), canon, kind),
            }
        },
    }
}

/// What is wrong where a value cannot be held within the range of its rule.
pub open spec fn constrain_value_fault(
    canon: Seq<char>,
    rule: Option<RuleView>,
    value: Value,
) -> Seq<char> {
    match value.scalar() {
        None => "expected an M1 numeric value"@,
        Some(s) => constrain_fault(canon, rule->Some_0, s),
    }
}

/// A value held within the range of its rule; unchanged where there is no rule.
pub open spec fn constrained_value(rule: Option<RuleView>, value: Value) -> Option<Value> {
    match rule {
        None => Some(value),
        Some(rule) => match value.scalar() {
            Some(s) => match constrained(rule, s) {
                Some(t) => Some(Value::M1(t)),
                None => None,
            },
            None => None,
        },
    }
}

/// Holds a value within the range of its rule.
pub fn constrain_value(canon: &str, value_path: &str, value: Value, rules: &ObjectRules) -> (r: Result<Value, EvalError>)
    ensures
        match constrained_value(rules.rule(canon@, value_path@), value) {
            Some(v) => r == Ok::<Value, EvalError>(v),
            None => r matches Err(e) && is_type_error(
                e,
                constrain_value_fault(canon@, rules.rule(canon@, value_path@), value),
            ),
        },
{
    let rule: &ValidationRule = match rules.rule_for(canon, value_path) {
        Some(rule) => rule,
        None => return Ok(value),
    };
    let scalar = value.m1_scalar()?;
    let x = scalar.wide();
    let bounds = rule_bounds(rule, canon)?;
    if x.is_nan() {
        return Ok(value);
    }
    let end: Option<Value> = match bounds.0 {
        Some(lo) if x.less(lo) => Some(bound_value(lo, scalar.kind(), BoundSide::Lower, canon)?),
        _ => match bounds.1 {
            Some(hi) if hi.less(x) => Some(bound_value(hi, scalar.kind(), BoundSide::Upper, canon)?),
            _ => None,
        },
    };
    match end {
        None => Ok(value),
        Some(v) => {
            let s = v.m1_scalar()?;
            if within_bounds(bounds, s.wide()) {
                Ok(v)
            } else {
                Err(no_value(show_range(bounds).as_str(), canon, scalar.kind()))
            }
        },
    }
}

/// What an object is called on: its canonical path and the symbol that stores its number.
pub open spec fn numeric_source(ctx: EvalCtx, object: Seq<char>) -> Option<(Seq<char>, Seq<char>)> {
    match resolved(
        *ctx.project,
        object,
        text_of(ctx.group),
        text_of(ctx.fn_symbol),
        ctx.env.locals@,
    ) {
        TargetView::Symbol(canon) => match value_path_of(*ctx.project, Sought::Numeric, canon) {
            Some(path) => Some((canon, path)),
            None => None,
        },
        _ => None,
    }
}

fn resolve_numeric_source(object: &str, ctx: &EvalCtx) -> (r: Option<(String, String)>)
    ensures
        match numeric_source(*ctx, object@) {
            Some((c, p)) => r matches Some((x, y)) && x@ == c && y@ == p,
            None => r is None,
        },
{
    match classify(
        object,
        borrow_text(&ctx.group),
        borrow_text(&ctx.fn_symbol),
        ctx.project,
        &ctx.env.locals,
    ) {
        Target::Symbol(canon) => match value_path(ctx.project, Sought::Numeric, canon.as_str()) {
            Some(path) => Some((canon, path)),
            None => None,
        },
        _ => None,
    }
}

/// Whether an error says that a method lacks its argument.
pub open spec fn lacks_argument(e: EvalError, object: Seq<char>, method: Seq<char>) -> bool {
    is_bad_call(e, object + "."@ + method + " expects 1 argument(s), got 0"@)
}

fn no_argument(object: &str, method: &str) -> (r: EvalError)
    ensures
        lacks_argument(r, object@, method@),
{
    let detail: String = enclosed(object, ".", method).concat(" expects 1 argument(s), got 0");
    bad_call(detail.as_str())
}

/// Whether a result is that of `Validate`.
pub open spec fn validates(
    ctx: EvalCtx,
    object: Seq<char>,
    args: Seq<Value>,
    r: Result<Value, EvalError>,
) -> bool {
    match numeric_source(ctx, object) {
            None => r matches Err(e) && is_unsupported(e, object, "Validate"@),
            Some((canon, path)) => if args.len() == 0 {
                r matches Err(e) && lacks_argument(e, object, "Validate"@)
            } else {
                match (args[0].scalar(), ctx.object_rules.rule(canon, path)) {
                    (None, _) => r matches Err(e) && is_type_error(
                        e,
                        "expected an M1 numeric value"@,
                    ),
                    (Some(_), None) => r == Ok::<Value, EvalError>(Value::Bool(true)),
                    (Some(s), Some(rule)) => match accepts(rule, s) {
                        Some(b) => r == Ok::<Value, EvalError>(Value::Bool(b)),
                        None => r matches Err(e) && is_type_error(e, unknown_rule(canon, rule)),
                    },
                }
            },
        }
}

/// `Validate(v)`: whether the object's rule admits a number; every number where it has none.
pub fn validate(object: &str, args: &[Value], ctx: &EvalCtx) -> (r: Result<Value, EvalError>)
    ensures
        validates(*ctx, object@, args@, r),
{
    let (canon, path) = match resolve_numeric_source(object, ctx) {
        Some(p) => p,
        None => return Err(unsupported(object, "Validate")),
    };
    if args.len() == 0 {
        return Err(no_argument(object, "Validate"));
    }
    let scalar = args[0].m1_scalar()?;
    match ctx.object_rules.rule_for(canon.as_str(), path.as_str()) {
        Some(rule) => Ok(Value::Bool(rule_accepts(rule, scalar, canon.as_str())?)),
        None => Ok(Value::Bool(true)),
    }
}

/// Whether a result is that of `Constrain`.
pub open spec fn constrains(
    ctx: EvalCtx,
    object: Seq<char>,
    args: Seq<Value>,
    r: Result<Value, EvalError>,
) -> bool {
    match numeric_source(ctx, object) {
            None => r matches Err(e) && is_unsupported(e, object, "Constrain"@),
            Some((canon, path)) => if args.len() == 0 {
                r matches Err(e) && lacks_argument(e, object, "Constrain"@)
            } else {
                match constrained_value(ctx.object_rules.rule(canon, path), args[0]) {
                    Some(v) => r == Ok::<Value, EvalError>(v),
                    None => r matches Err(e) && is_type_error(
                        e,
                        constrain_value_fault(canon, ctx.object_rules.rule(canon, path), args[0]),
                    ),
                }
            },
        }
}

/// `Constrain(v)`: the number held within the object's range, in its own family.
pub fn constrain(object: &str, args: &[Value], ctx: &EvalCtx) -> (r: Result<Value, EvalError>)
    ensures
        constrains(*ctx, object@, args@, r),
{
    let (canon, path) = match resolve_numeric_source(object, ctx) {
        Some(p) => p,
        None => return Err(unsupported(object, "Constrain")),
    };
    if args.len() == 0 {
        return Err(no_argument(object, "Constrain"));
    }
    constrain_value(canon.as_str(), path.as_str(), args[0].duplicate(), ctx.object_rules)
}

/// Whether a result and a context are those of `GetUnscheduled`.
pub open spec fn gets_unscheduled(
    before: EvalCtx,
    after: EvalCtx,
    object: Seq<char>,
    r: Result<Value, EvalError>,
) -> bool {
    match unscheduled_source(before, object) {
            None => (r matches Err(e) && is_unsupported(e, object, "GetUnscheduled"@))
                && after == before,
            Some(path) => reads(before, after, path, r),
        }
}

/// `GetUnscheduled()`: the number of a channel or of a table's value, read as any read is.
pub fn get_unscheduled(object: &str, ctx: &mut EvalCtx) -> (r: Result<Value, EvalError>)
    ensures
        gets_unscheduled(*old(ctx), *final(ctx), object@, r),
{
    let path: String = match classify(
        object,
        borrow_text(&ctx.group),
        borrow_text(&ctx.fn_symbol),
        ctx.project,
        &ctx.env.locals,
    ) {
        Target::Symbol(canon) => match unscheduled_value_path(ctx.project, canon.as_str()) {
            Some(p) => p,
            None => return Err(unsupported(object, "GetUnscheduled")),
        },
        _ => return Err(unsupported(object, "GetUnscheduled")),
    };
    read_symbol(path.as_str(), ctx)
}

/// The channel that `GetUnscheduled` reads on an object.
pub open spec fn unscheduled_source(ctx: EvalCtx, object: Seq<char>) -> Option<Seq<char>> {
    match resolved(
        *ctx.project,
        object,
        text_of(ctx.group),
        text_of(ctx.fn_symbol),
        ctx.env.locals@,
    ) {
        TargetView::Symbol(canon) => unscheduled_path_of(*ctx.project, canon),
        _ => None,
    }
}

/// The channel that `Set` writes on an object, and the object's canonical path.
pub open spec fn writable_source(ctx: EvalCtx, object: Seq<char>) -> Option<(Seq<char>, Seq<char>)> {
    match resolved(
        *ctx.project,
        object,
        text_of(ctx.group),
        text_of(ctx.fn_symbol),
        ctx.env.locals@,
    ) {
        TargetView::Symbol(canon) => match value_path_of(*ctx.project, Sought::Writable, canon) {
            Some(path) => Some((canon, path)),
            None => None,
        },
        _ => None,
    }
}

/// What `Set` stores: the value in the channel's family, and a number held within the object's range.
pub open spec fn value_to_set(
    ctx: EvalCtx,
    canon: Seq<char>,
    path: Seq<char>,
    value: Value,
) -> Option<Value> {
    match to_channel(*ctx.project, path, value) {
        None => None,
        Some(v) => if v.number() is Some {
            constrained_value(ctx.object_rules.rule(canon, path), v)
        } else {
            Some(v)
        },
    }
}

/// What is wrong where `Set` stores nothing.
pub open spec fn set_fault(
    ctx: EvalCtx,
    canon: Seq<char>,
    path: Seq<char>,
    value: Value,
) -> Seq<char> {
    match to_channel(*ctx.project, path, value) {
        None => channel_fault(*ctx.project, path, value),
        Some(v) => constrain_value_fault(canon, ctx.object_rules.rule(canon, path), v),
    }
}

/// The context after a channel is written and recorded.
pub open spec fn written(before: EvalCtx, after: EvalCtx, path: Seq<char>, value: Value) -> bool {
    &&& after.env.values@ == before.env.values@.insert(path, value)
    &&& after.env == (Env { values: after.env.values, ..before.env })
    &&& after == (EvalCtx { env: after.env, trace: after.trace, ..before })
    &&& recorded(before.trace, after.trace, path, value)
}

/// The trace after an assignment is recorded.
pub open spec fn recorded(
    before: Option<Trace>,
    after: Option<Trace>,
    path: Seq<char>,
    value: Value,
) -> bool {
    match (before, after) {
        (Some(b), Some(a)) => {
            &&& a.records@.len() == b.records@.len() + 1
            &&& a.records@.drop_last() == b.records@
            &&& a.records@.last().channel@ == path
            &&& a.records@.last().tick == b.open_tick()
            &&& a.records@.last().value == value
            &&& a == (Trace { records: a.records, ..b })
        },
        (None, None) => true,
        _ => false,
    }
}

/// Whether a result and a context are those of `Set`.
pub open spec fn sets(
    before: EvalCtx,
    after: EvalCtx,
    object: Seq<char>,
    args: Seq<Value>,
    r: Result<Value, EvalError>,
) -> bool {
    match writable_source(before, object) {
            None => (r matches Err(e) && is_unsupported(e, object, "Set"@)) && after
                == before,
            Some((canon, path)) => if args.len() == 0 {
                (r matches Err(e) && lacks_argument(e, object, "Set"@)) && after == before
            } else {
                match value_to_set(before, canon, path, args[0]) {
                    None => (r matches Err(e) && is_type_error(
                        e,
                        set_fault(before, canon, path, args[0]),
                    )) && after == before,
                    Some(v) => r == Ok::<Value, EvalError>(Value::Bool(true)) && written(
                        before,
                        after,
                        path,
                        v,
                    ),
                }
            },
        }
}

/// `Set(v)`: writes a channel, after conversion to its family and within its range.
pub fn set(object: &str, args: &[Value], ctx: &mut EvalCtx) -> (r: Result<Value, EvalError>)
    ensures
        sets(*old(ctx), *final(ctx), object@, args@, r),
{
    let (canon, path): (String, String) = match classify(
        object,
        borrow_text(&ctx.group),
        borrow_text(&ctx.fn_symbol),
        ctx.project,
        &ctx.env.locals,
    ) {
        Target::Symbol(canon) => match value_path(ctx.project, Sought::Writable, canon.as_str()) {
            Some(p) => (canon, p),
            None => return Err(unsupported(object, "Set")),
        },
        _ => return Err(unsupported(object, "Set")),
    };
    if args.len() == 0 {
        return Err(no_argument(object, "Set"));
    }
    let value = coerce_for_channel(path.as_str(), args[0].duplicate(), ctx.project)?;
    let numeric = match &value {
        Value::M1(_) | Value::Int(_) | Value::Uint(_) | Value::Float(_) => true,
        _ => false,
    };
    let value = if numeric {
        constrain_value(canon.as_str(), path.as_str(), value, ctx.object_rules)?
    } else {
        value
    };
    let copy = value.duplicate();
    ctx.env.set(path.as_str(), value);
    match &mut ctx.trace {
        Some(trace) => {
            trace.record_channel(path.as_str(), copy);
        },
        None => {},
    }
    Ok(Value::Bool(true))
}

} // verus!
