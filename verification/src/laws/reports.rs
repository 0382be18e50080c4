//! What the coverage report holds to.

use crate::builtins::BuiltinSupport;
use crate::coverage::{
    in_schedule_order, is_schedule, rates_ordered, schedule_entries, schedule_view, weakest,
    ItemKind, UseView,
};
use crate::float::binary64::F64;
use crate::float::exact::law_double_order;
use crate::project::Project;
use crate::syntax::ParsedScript;
use crate::text::before;
use crate::triggers::TriggerMap;
use vstd::prelude::*;

verus! {

/// Whether an item is used with a support.
pub open spec fn is_used(uses: Seq<UseView>, name: Seq<char>, kind: ItemKind, s: BuiltinSupport) -> bool {
    exists|i: int|
        0 <= i < uses.len() && (#[trigger] uses[i]).0 == name && uses[i].1 == kind && uses[i].2 == s
}

/// An item counts as not supported where one of its uses is not; else as one of the adapter where
/// one is; else as a stub, as modeled, and as direct only where all its uses are.
pub proof fn law_one_weak_use_decides(uses: Seq<UseView>, name: Seq<char>, kind: ItemKind)
    ensures
        weakest(uses, name, kind) == if is_used(uses, name, kind, BuiltinSupport::Unsupported) {
            Some(BuiltinSupport::Unsupported)
        } else if is_used(uses, name, kind, BuiltinSupport::AdapterBacked) {
            Some(BuiltinSupport::AdapterBacked)
        } else if is_used(uses, name, kind, BuiltinSupport::Stubbed) {
            Some(BuiltinSupport::Stubbed)
        } else if is_used(uses, name, kind, BuiltinSupport::Modeled) {
            Some(BuiltinSupport::Modeled)
        } else if is_used(uses, name, kind, BuiltinSupport::Direct) {
            Some(BuiltinSupport::Direct)
        } else {
            None
        },
    decreases uses.len(),
{
    if uses.len() > 0 {
        let rest = uses.drop_last();
        law_one_weak_use_decides(rest, name, kind);
        assert forall|s: BuiltinSupport| #[trigger] is_used(uses, name, kind, s) == (is_used(
            rest,
            name,
            kind,
            s,
        ) || uses.last() == (name, kind, s)) by {
            if is_used(uses, name, kind, s) {
                let i = choose|i: int|
                    0 <= i < uses.len() && (#[trigger] uses[i]).0 == name && uses[i].1 == kind && uses[i].2
                        == s;
                if i < rest.len() {
                    assert(rest[i] == uses[i]);
                }
            }
            if is_used(rest, name, kind, s) {
                let i = choose|i: int|
                    0 <= i < rest.len() && (#[trigger] rest[i]).0 == name && rest[i].1 == kind && rest[i].2
                        == s;
                assert(uses[i] == rest[i]);
            }
            if uses.last() == (name, kind, s) {
                assert(uses[uses.len() - 1].2 == s);
            }
        }
    }
}

/// The functions of a schedule stand from the fastest to the slowest, those without a rate last,
/// and functions of one rate by name.
pub proof fn law_schedules_start_with_the_fastest(
    s: Seq<(String, Option<F64>)>,
    scripts: Seq<ParsedScript>,
    project: Project,
    triggers: Option<TriggerMap>,
    i: int,
    j: int,
)
    requires
        is_schedule(s, scripts, Some(project), triggers),
        rates_ordered(schedule_entries(scripts, project, triggers, scripts.len())),
        0 <= i < j < s.len(),
    ensures
        s[i].1 is None ==> (s[j].1 matches Some(hz) ==> !hz.is_finite()),
        s[i].1 matches Some(a) ==> (s[j].1 matches Some(b) ==> (a.is_finite() && b.is_finite() ==> {
            &&& a.exact() >= b.exact()
            &&& a.exact() == b.exact() ==> !before(s[j].0@, s[i].0@)
        })),
        s[i].1 is None && s[j].1 is None ==> !before(s[j].0@, s[i].0@),
{
    let v = schedule_view(s);
    assert(in_schedule_order(v));
    assert(v[i] == (s[i].0@, s[i].1) && v[j] == (s[j].0@, s[j].1));
    assert(!crate::coverage::runs_before(v[j], v[i]));
    if let (Some(a), Some(b)) = (s[i].1, s[j].1) {
        if a.is_finite() && b.is_finite() {
            law_double_order(a, b);
            law_double_order(b, a);
        }
    }
}

} // verus!
