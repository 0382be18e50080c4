//! What object rules, enumerations and calls of user functions hold to.

use crate::builtins::object::{constrained, end_of, fixed_at, next_to_bound, BoundSide, RuleView};
use crate::builtins::userfn::{bound_argument, bound_locals, param_kind};
use crate::coerce::{to_kind, to_type};
use crate::context::ParamKind;
use crate::float::binary32::F32;
use crate::float::binary64::F64;
use crate::float::exact::{
    fine_slack, law_conversions, law_double_order, law_neighbours, law_whole_toward,
    law_widening_is_exact, lemma_double_rounding, lemma_single_rounding, size, slack,
};
use crate::laws::methods::{law_scalars_in_double, worth};
use crate::project::{enum_index, member_value, EnumType};
use crate::value::{FixedPoint7dps, M1Scalar, Value, ValueType};
use vstd::prelude::*;

verus! {

/// A rule holds an integer that is below its range to the least integer of the range, and one
/// above it to the greatest, and keeps an integer within it.
pub proof fn law_constrained_integers(min: F64, max: F64, s: M1Scalar, t: M1Scalar)
    requires
        min.is_finite(),
        max.is_finite(),
        min.exact() <= max.exact(),
        s is Integer || s is UnsignedInteger,
        constrained(RuleView::MinMax(min, max), s) == Some(t),
    ensures
        t.kind() == s.kind(),
        s.wide().exact() < min.exact() ==> worth(t) - 1real < min.exact() <= worth(t),
        s.wide().exact() > max.exact() ==> worth(t) <= max.exact() < worth(t) + 1real,
        min.exact() <= s.wide().exact() <= max.exact() ==> t == s,
{
    law_scalars_in_double(s);
    law_double_order(s.wide(), min);
    law_double_order(max, s.wide());
    law_whole_toward(min);
    law_whole_toward(max);
}

/// A rule holds a number that is below its range to one that is not, within rounding of the bound,
/// and so from above; it keeps a number within it.
pub proof fn law_constrained_numbers(min: F64, max: F64, v: F32, t: M1Scalar)
    requires
        min.is_finite(),
        max.is_finite(),
        min.exact() <= max.exact(),
        v.is_finite(),
        constrained(RuleView::MinMax(min, max), M1Scalar::FloatingPoint(v)) == Some(t),
    ensures
        t matches M1Scalar::FloatingPoint(w) && (w.is_finite() ==> {
            &&& v.exact() < min.exact() ==> min.exact() <= w.exact() <= min.exact() + 16real * slack(
                min.exact(),
            )
            &&& v.exact() > max.exact() ==> max.exact() - 16real * slack(max.exact()) <= w.exact()
                <= max.exact()
            &&& min.exact() <= v.exact() <= max.exact() ==> w == v
        }),
{
    law_widening_is_exact(v);
    law_double_order(v.widen(), min);
    law_double_order(max, v.widen());
    lemma_single_rounding();
    lemma_number_end(min);
    lemma_number_end(max);
    let w = t->FloatingPoint_0;
    if w.is_finite() {
        law_widening_is_exact(w);
        law_double_order(min, w.widen());
        law_double_order(w.widen(), max);
    }
}

/// The number next to a bound is within rounding of it.
proof fn lemma_number_end(bound: F64)
    requires
        bound.is_finite(),
    ensures
        ({
            let v = bound.narrow();
            &&& v.is_finite() ==> size(v.exact() - bound.exact()) <= slack(bound.exact())
            &&& v.is_finite() && v.next_up().is_finite() ==> size(
                v.next_up().exact() - bound.exact(),
            ) <= 16real * slack(bound.exact())
            &&& v.is_finite() && v.next_down().is_finite() ==> size(
                v.next_down().exact() - bound.exact(),
            ) <= 16real * slack(bound.exact())
        }),
{
    lemma_single_rounding();
    let v = bound.narrow();
    if v.is_finite() {
        law_conversions(F32 { bits: 0 }, bound);
        law_neighbours(v);
    }
}

/// A rule holds a stored count to the one next to the bound within the range: within rounding, the
/// next count would be outside.
pub proof fn law_constrained_fixed_point(min: F64, max: F64, f: FixedPoint7dps, t: M1Scalar)
    requires
        min.is_finite(),
        max.is_finite(),
        min.exact() <= max.exact(),
        constrained(RuleView::MinMax(min, max), M1Scalar::FixedPoint7dps(f)) == Some(t),
    ensures
        t matches M1Scalar::FixedPoint7dps(g) && ({
            let s = M1Scalar::FixedPoint7dps(f);
            let x = worth(t);
            let play = 8real * fine_slack(1000real);
            &&& s.wide().exact() < min.exact() ==> x >= min.exact() - play && (g.raw > i32::MIN ==> x
                - 1real / 10000000real < min.exact() + play)
            &&& s.wide().exact() > max.exact() ==> x <= max.exact() + play && (g.raw < i32::MAX ==> x
                + 1real / 10000000real > max.exact() - play)
            &&& min.exact() <= s.wide().exact() <= max.exact() ==> t == s
        }),
{
    let s = M1Scalar::FixedPoint7dps(f);
    law_scalars_in_double(s);
    law_double_order(s.wide(), min);
    law_double_order(max, s.wide());
    if s.wide().exact() < min.exact() {
        assert(end_of(min, s.kind(), BoundSide::Lower) == Some(t));
        lemma_fixed_end(min, BoundSide::Lower, t);
    } else if s.wide().exact() > max.exact() {
        assert(end_of(max, s.kind(), BoundSide::Upper) == Some(t));
        lemma_fixed_end(max, BoundSide::Upper, t);
    }
}

proof fn lemma_fixed_end(bound: F64, side: BoundSide, t: M1Scalar)
    requires
        bound.is_finite(),
        end_of(bound, crate::value::M1ScalarKind::FixedPoint7dps, side) == Some(t),
    ensures
        t matches M1Scalar::FixedPoint7dps(g) && ({
            let x = worth(t);
            let play = 8real * fine_slack(1000real);
            &&& side is Lower ==> x >= bound.exact() - play && (g.raw > i32::MIN ==> x - 1real
                / 10000000real < bound.exact() + play)
            &&& side is Upper ==> x <= bound.exact() + play && (g.raw < i32::MAX ==> x + 1real
                / 10000000real > bound.exact() - play)
        }),
{
    let raw = choose|raw: int| next_to_bound(raw, bound, side);
    assert(next_to_bound(raw, bound, side));
    let g = t->FixedPoint7dps_0;
    assert(g.raw == raw);
    lemma_fixed_at(raw);
    law_double_order(fixed_at(raw), bound);
    law_double_order(bound, fixed_at(raw));
    if side is Lower && raw > i32::MIN {
        lemma_fixed_at(raw - 1);
        law_double_order(fixed_at(raw - 1), bound);
        assert(fixed_at(raw - 1).less(bound));
    }
    if side is Upper && raw < i32::MAX {
        lemma_fixed_at(raw + 1);
        law_double_order(bound, fixed_at(raw + 1));
        assert(bound.less(fixed_at(raw + 1)));
    }
}

proof fn lemma_fixed_at(raw: int)
    requires
        i32::MIN <= raw <= i32::MAX,
    ensures
        fixed_at(raw).is_finite(),
        size(fixed_at(raw).exact() - (raw as real) / 10000000real) <= 4real * fine_slack(1000real),
{
    let s = M1Scalar::FixedPoint7dps(FixedPoint7dps { raw: raw as i32 });
    law_scalars_in_double(s);
    lemma_double_rounding();
}

/// The integer of a member is that of the first entry of its name.
pub proof fn law_members_have_their_integers(members: Seq<(String, i64)>, member: Seq<char>)
    ensures
        match member_value(members, member) {
            Some(v) => exists|i: int|
                0 <= i < members.len() && (#[trigger] members[i]).0@ == member && members[i].1 == v
                    && forall|j: int| 0 <= j < i ==> (#[trigger] members[j]).0@ != member,
            None => forall|i: int| 0 <= i < members.len() ==> (#[trigger] members[i]).0@ != member,
        },
    decreases members.len(),
{
    if members.len() > 0 && members[0].0@ != member {
        let rest = members.drop_first();
        law_members_have_their_integers(rest, member);
        match member_value(rest, member) {
            Some(v) => {
                let i = choose|i: int|
                    0 <= i < rest.len() && (#[trigger] rest[i]).0@ == member && rest[i].1 == v && forall|
                        j: int,
                    | 0 <= j < i ==> (#[trigger] rest[j]).0@ != member;
                assert(members[i + 1] == rest[i]);
                assert forall|j: int| 0 <= j < i + 1 implies (#[trigger] members[j]).0@ != member by {
                    if j > 0 {
                        assert(members[j] == rest[j - 1]);
                    }
                }
            },
            None => {
                assert forall|i: int| 0 <= i < members.len() implies (#[trigger] members[i]).0@
                    != member by {
                    if i > 0 {
                        assert(members[i] == rest[i - 1]);
                    }
                }
            },
        }
    }
}

/// An enumeration is the first of its name.
pub proof fn law_first_enumeration_counts(enums: Seq<EnumType>, name: Seq<char>)
    ensures
        enum_index(enums, name) <= enums.len(),
        forall|j: int| 0 <= j < enum_index(enums, name) ==> (#[trigger] enums[j]).name@ != name,
        enum_index(enums, name) < enums.len() ==> enums[enum_index(enums, name) as int].name@ == name,
    decreases enums.len(),
{
    if enums.len() > 0 && enums[0].name@ != name {
        let rest = enums.drop_first();
        law_first_enumeration_counts(rest, name);
        assert forall|j: int| 0 <= j < enum_index(enums, name) implies (#[trigger] enums[j]).name@
            != name by {
            if j > 0 {
                assert(enums[j] == rest[j - 1]);
            }
        }
    }
}

/// The name of the local that a parameter is bound to.
pub open spec fn local_name(param: (String, ValueType)) -> Seq<char> {
    "In."@ + param.0@
}

/// Each parameter of a user function is bound to the argument in its place, converted to its
/// family or its type, and nothing else is bound.
pub proof fn law_arguments_are_bound_in_place(
    kinds: Seq<ParamKind>,
    function: Seq<char>,
    params: Seq<(String, ValueType)>,
    args: Seq<Value>,
    n: nat,
    m: Map<Seq<char>, Value>,
)
    requires
        n <= params.len(),
        n <= args.len(),
        bound_locals(kinds, function, params, args, n) == Ok::<Map<Seq<char>, Value>, Seq<char>>(m),
        forall|i: int, j: int| 0 <= i < j < n ==> (#[trigger] params[i]).0@ != (#[trigger] params[j]).0@,
    ensures
        forall|i: int|
            0 <= i < n ==> m.contains_key(local_name(#[trigger] params[i])) && Some(
                m[local_name(params[i])],
            ) == (match param_kind(kinds, function, params[i].0@) {
                Some(kind) => to_kind(args[i], kind),
                None => to_type(args[i], params[i].1),
            }),
        forall|k: Seq<char>| #[trigger]
            m.contains_key(k) ==> exists|i: int| 0 <= i < n && k == local_name(#[trigger] params[i]),
    decreases n,
{
    if n > 0 {
        let k = (n - 1) as nat;
        let before = bound_locals(kinds, function, params, args, k)->Ok_0;
        law_arguments_are_bound_in_place(kinds, function, params, args, k, before);
        let v = bound_argument(kinds, function, params[k as int], args[k as int])->Some_0;
        let name = local_name(params[k as int]);
        assert(m == before.insert(name, v));
        assert forall|i: int| 0 <= i < n implies m.contains_key(local_name(#[trigger] params[i])) && Some(
            m[local_name(params[i])],
        ) == (match param_kind(kinds, function, params[i].0@) {
            Some(kind) => to_kind(args[i], kind),
            None => to_type(args[i], params[i].1),
        }) by {
            if i < k {
                assert(params[i].0@ != params[k as int].0@);
                lemma_local_names(params[i], params[k as int]);
            }
        }
        assert forall|x: Seq<char>| #[trigger] m.contains_key(x) implies exists|i: int|
            0 <= i < n && x == local_name(#[trigger] params[i]) by {
            if before.contains_key(x) {
                let i = choose|i: int| 0 <= i < k && x == local_name(#[trigger] params[i]);
                assert(x == local_name(params[i]));
            } else {
                assert(x == local_name(params[k as int]));
            }
        }
    }
}

proof fn lemma_local_names(a: (String, ValueType), b: (String, ValueType))
    requires
        a.0@ != b.0@,
    ensures
        local_name(a) != local_name(b),
{
    let n = "In."@.len() as int;
    assert(local_name(a).skip(n) =~= a.0@);
    assert(local_name(b).skip(n) =~= b.0@);
}

} // verus!
