//! What holds of the library across its functions.

pub mod bounds;
pub mod calendar;
pub mod compare;
pub mod data;
pub mod filters;
pub mod levels;
pub mod lookup;
pub mod methods;
pub mod objects;
pub mod pure;
pub mod replay;
pub mod reports;
pub mod steps;
pub mod texts;
pub mod timing;

use crate::builtins::calculate::{self, bias_of, truncated_remainder};
use crate::builtins::convert::{self, fixed_of, nearest_within};
use crate::builtins::io_stub::{
    begins, exact_value, falls_back, needs_metadata, scenario_value, HardwareStep,
};
use crate::builtins::limit;
use crate::builtins::object::{
    accepts, constrained, rules_of, sets, value_to_set, writable_source, RuleView,
};
use crate::builtins::scalars::{
    at_least, change_size, distance, ordered, single_of, size_order,
};
use crate::builtins::stateful::{
    change_by_step, change_counts, change_edge_step, debounce_step, derivative_step, edge_counts,
    edge_delay_step, extremum_step, first_order_step, flag_of, float_value, integral_step,
    lacks_evidence, no_time, nought, operate, optional_flag, timer_step, ChangeDir,
    EdgeDir, Step,
};
use crate::builtins::userfn::{enters, user_function, UserCall, MAX_CALL_DEPTH};
use crate::builtins::{
    context_capability, dispatches, is_pure, is_stateful, library_capability, member_capability,
    project_call_capability, CapabilityScope, Dispatched, RouteView,
};
use crate::catalog::{object_counts, Intrinsics};
use crate::context::{reading, EvalCtx, ReadView};
use crate::conformance::{optional_bound, value_mismatch, ValueTolerance};
use crate::env::{CallSite, Env, OpState, SiteKey, StateStore};
use crate::error::EvalError;
use crate::float::binary32::F32;
use crate::float::binary64::F64;
use crate::float::laws::{law_difference_with_itself, lemma_finite_widens};
use crate::hardware::{HardwareCall, HardwareValueSource};
use crate::log::held;
use crate::project::{dotted, has_prefix, named, text_of, NameEntry, Project, TargetView};
use crate::trace::{value_at, TraceRecord};
use crate::value::{M1Scalar, Value};
use crate::xml::NodeView;
use vstd::prelude::*;
use vstd::string::*;

verus! {

/// The state of one call site does not depend on what happens at another.
pub proof fn law_call_sites_are_independent(
    before: StateStore,
    after: StateStore,
    here: SiteKey,
    there: SiteKey,
    next: OpState,
)
    requires
        after@ == before@.insert(here, next),
        here != there,
    ensures
        after.current(there) == before.current(there),
        after.current(here) == next,
{
}

/// A filter starts from its input, and a reset starts it again.
pub proof fn law_filters_start_at_their_input(
    args: Seq<Value>,
    prev: OpState,
    dt: F64,
    want_max: bool,
    x: F32,
)
    requires
        args.len() >= 2,
        single_of(args[0]) == Some(x),
        single_of(args[1]) is Some,
        optional_flag(args, 2) is Some,
        prev is Uninit || optional_flag(args, 2) == Some(true),
    ensures
        first_order_step(args, prev, dt) == Some((OpState::Filter { y: x }, float_value(x))),
        extremum_step(args, prev, dt, want_max) == Some((OpState::Filter { y: x }, float_value(x))),
{
}

/// An integral stays within its range, on every tick and from every state.
pub proof fn law_integral_stays_within(
    args: Seq<Value>,
    prev: OpState,
    dt: F64,
    lo: F32,
    hi: F32,
    acc: F32,
    next: OpState,
)
    requires
        args.len() >= 5,
        single_of(args[1]) == Some(lo),
        single_of(args[2]) == Some(hi),
        lo.at_most(hi),
        integral_step(args, prev, dt) == Some((next, float_value(acc))),
    ensures
        lo.at_most(acc),
        acc.at_most(hi),
{
}

/// A derivative starts at zero.
pub proof fn law_derivative_starts_at_zero(args: Seq<Value>, dt: F64, filtered: bool, x: F32)
    requires
        args.len() >= 1,
        single_of(args[0]) == Some(x),
    ensures
        derivative_step(args, OpState::Uninit, dt, filtered) == Some(
            (OpState::Derivative { prev_x: x, prev_d: nought() }, float_value(nought())),
        ),
{
}

/// The state of an edge detector without a filter time after `n` ticks at a fresh call site.
pub open spec fn edge_state(method: Seq<char>, conds: Seq<bool>, dt: F64, n: nat) -> OpState
    decreases n, 0int,
{
    if n == 0 {
        OpState::Uninit
    } else {
        edge_tick(method, conds, dt, (n - 1) as nat)->Some_0.0
    }
}

/// What `Change.<method>(cond)` comes to on tick `n` at a fresh call site.
pub open spec fn edge_tick(method: Seq<char>, conds: Seq<bool>, dt: F64, n: nat) -> Step
    decreases n, 1int,
{
    operate(
        "Change"@,
        method,
        seq![Value::Bool(conds[n as int])],
        edge_state(method, conds, dt, n),
        dt,
    )->Some_0
}

/// The methods of the change detectors by name.
pub(crate) proof fn lemma_change_methods(args: Seq<Value>, prev: OpState, dt: F64)
    ensures
        operate("Change"@, "By"@, args, prev, dt) == Some(
            change_by_step(args, prev, dt, ChangeDir::By),
        ),
        operate("Change"@, "Up"@, args, prev, dt) == Some(
            change_by_step(args, prev, dt, ChangeDir::Up),
        ),
        operate("Change"@, "Down"@, args, prev, dt) == Some(
            change_by_step(args, prev, dt, ChangeDir::Down),
        ),
        operate("Change"@, "To"@, args, prev, dt) == Some(
            change_edge_step(args, prev, dt, EdgeDir::To),
        ),
        operate("Change"@, "From"@, args, prev, dt) == Some(
            change_edge_step(args, prev, dt, EdgeDir::From),
        ),
        operate("Change"@, "Either"@, args, prev, dt) == Some(
            change_edge_step(args, prev, dt, EdgeDir::Either),
        ),
{
    reveal_strlit("Filter");
    reveal_strlit("Integral");
    reveal_strlit("Derivative");
    reveal_strlit("Delay");
    reveal_strlit("Debounce");
    reveal_strlit("Change");
    reveal_strlit("By");
    reveal_strlit("Up");
    reveal_strlit("Down");
    reveal_strlit("To");
    reveal_strlit("From");
    reveal_strlit("Either");
    assert("Change"@.len() == 6 && "Change"@[0] == 'C' && "Filter"@[0] == 'F');
    assert("Integral"@.len() == 8 && "Derivative"@.len() == 10 && "Delay"@.len() == 5);
    assert("Debounce"@.len() == 8);
    assert("By"@.len() == 2 && "By"@[0] == 'B' && "Up"@.len() == 2 && "Up"@[0] == 'U');
    assert("To"@.len() == 2 && "To"@[0] == 'T' && "Down"@.len() == 4 && "Down"@[0] == 'D');
    assert("From"@.len() == 4 && "From"@[0] == 'F' && "Either"@.len() == 6);
}

proof fn lemma_edge_tick(method: Seq<char>, dir: EdgeDir, conds: Seq<bool>, dt: F64, n: nat)
    requires
        n < conds.len(),
        method == match dir {
            EdgeDir::To => "To"@,
            EdgeDir::From => "From"@,
            EdgeDir::Either => "Either"@,
        },
    ensures
        edge_tick(method, conds, dt, n) == Some(
            (
                OpState::ChangeEdge { prev: conds[n as int], held: no_time() },
                Value::Bool(n > 0 && edge_counts(dir, conds[n - 1], conds[n as int])),
            ),
        ),
    decreases n,
{
    if n > 0 {
        lemma_edge_tick(method, dir, conds, dt, (n - 1) as nat);
    }
    lemma_change_methods(
        seq![Value::Bool(conds[n as int])],
        edge_state(method, conds, dt, n),
        dt,
    );
}

/// Without a filter time, `Change.Either` gives a pulse on a tick exactly where `Change.To` or
/// `Change.From` does, and never both of these do. It does so where the condition differs from
/// that of the tick before, so the first tick gives none.
pub proof fn law_either_edge_is_one_of_two(conds: Seq<bool>, dt: F64, n: nat)
    requires
        n < conds.len(),
    ensures
        ({
            let to = edge_tick("To"@, conds, dt, n)->Some_0.1;
            let from = edge_tick("From"@, conds, dt, n)->Some_0.1;
            let either = edge_tick("Either"@, conds, dt, n)->Some_0.1;
            &&& either == Value::Bool(n > 0 && conds[n as int] != conds[n - 1])
            &&& to == Value::Bool(n > 0 && conds[n as int] && !conds[n - 1])
            &&& from == Value::Bool(n > 0 && !conds[n as int] && conds[n - 1])
        }),
{
    lemma_edge_tick("To"@, EdgeDir::To, conds, dt, n);
    lemma_edge_tick("From"@, EdgeDir::From, conds, dt, n);
    lemma_edge_tick("Either"@, EdgeDir::Either, conds, dt, n);
}

/// The state of a change detector without a filter time after `n` ticks at a fresh call site. On
/// each tick it has a number and a threshold.
pub open spec fn change_state(
    method: Seq<char>,
    inputs: Seq<(M1Scalar, M1Scalar)>,
    dt: F64,
    n: nat,
) -> OpState
    decreases n, 0int,
{
    if n == 0 {
        OpState::Uninit
    } else {
        change_tick(method, inputs, dt, (n - 1) as nat)->Some_0.0
    }
}

/// What `Change.<method>(x, delta)` comes to on tick `n` at a fresh call site.
pub open spec fn change_tick(
    method: Seq<char>,
    inputs: Seq<(M1Scalar, M1Scalar)>,
    dt: F64,
    n: nat,
) -> Step
    decreases n, 1int,
{
    operate(
        "Change"@,
        method,
        seq![Value::M1(inputs[n as int].0), Value::M1(inputs[n as int].1)],
        change_state(method, inputs, dt, n),
        dt,
    )->Some_0
}

proof fn lemma_change_tick(
    method: Seq<char>,
    dir: ChangeDir,
    inputs: Seq<(M1Scalar, M1Scalar)>,
    dt: F64,
    n: nat,
)
    requires
        n < inputs.len(),
        method == match dir {
            ChangeDir::By => "By"@,
            ChangeDir::Up => "Up"@,
            ChangeDir::Down => "Down"@,
        },
    ensures
        change_tick(method, inputs, dt, n) == Some(
            (
                OpState::ChangeBy { prev_x: inputs[n as int].0, held: no_time(), pending: false },
                Value::Bool(
                    n > 0 && change_counts(
                        dir,
                        inputs[n - 1].0,
                        inputs[n as int].0,
                        inputs[n as int].1,
                    ),
                ),
            ),
        ),
    decreases n,
{
    if n > 0 {
        lemma_change_tick(method, dir, inputs, dt, (n - 1) as nat);
    }
    lemma_change_methods(
        seq![Value::M1(inputs[n as int].0), Value::M1(inputs[n as int].1)],
        change_state(method, inputs, dt, n),
        dt,
    );
}

/// Without a filter time, `Change.By` gives a pulse on a tick exactly where `Change.Up` or
/// `Change.Down` does, as long as the number and that of the tick before have an order. The
/// first tick gives none. `Change.By` goes by the size of the change alone.
pub proof fn law_change_is_up_or_down(inputs: Seq<(M1Scalar, M1Scalar)>, dt: F64, n: nat)
    requires
        n < inputs.len(),
        n > 0 ==> ordered(inputs[n as int].0, inputs[n - 1].0) is Some,
    ensures
        ({
            let by = change_tick("By"@, inputs, dt, n)->Some_0.1;
            let up = change_tick("Up"@, inputs, dt, n)->Some_0.1;
            let down = change_tick("Down"@, inputs, dt, n)->Some_0.1;
            &&& flag_of(by) == Some(flag_of(up)->Some_0 || flag_of(down)->Some_0)
            &&& flag_of(up) is Some && flag_of(down) is Some
            &&& flag_of(by) == Some(
                n > 0 && at_least(
                    size_order(
                        change_size(inputs[n - 1].0, inputs[n as int].0),
                        inputs[n as int].1,
                    ),
                ),
            )
        }),
{
    lemma_change_tick("By"@, ChangeDir::By, inputs, dt, n);
    lemma_change_tick("Up"@, ChangeDir::Up, inputs, dt, n);
    lemma_change_tick("Down"@, ChangeDir::Down, inputs, dt, n);
}

/// Whether a change is at least as large as a threshold, in the integers that stand for them
/// where all three are of one family without rounding.
pub open spec fn is_exact_change(from: M1Scalar, to: M1Scalar, delta: M1Scalar) -> bool {
    match (from, to, delta) {
        (M1Scalar::Integer(a), M1Scalar::Integer(b), M1Scalar::Integer(d)) => distance(
            a as int,
            b as int,
        ) >= distance(d as int, 0),
        (
            M1Scalar::UnsignedInteger(a),
            M1Scalar::UnsignedInteger(b),
            M1Scalar::UnsignedInteger(d),
        ) => distance(a as int, b as int) >= d,
        (
            M1Scalar::FixedPoint7dps(a),
            M1Scalar::FixedPoint7dps(b),
            M1Scalar::FixedPoint7dps(d),
        ) => distance(a.raw as int, b.raw as int) >= distance(d.raw as int, 0),
        _ => false,
    }
}

/// Within the signed integers, within the unsigned integers and within fixed point,
/// `Change.By` gives a pulse after the first tick exactly where the size of the change is at
/// least that of the threshold.
pub proof fn law_change_is_exact_in_one_family(
    inputs: Seq<(M1Scalar, M1Scalar)>,
    dt: F64,
    n: nat,
)
    requires
        0 < n < inputs.len(),
        inputs[n - 1].0.kind() == inputs[n as int].0.kind(),
        inputs[n as int].0.kind() == inputs[n as int].1.kind(),
        !(inputs[n as int].0 is FloatingPoint),
    ensures
        change_tick("By"@, inputs, dt, n)->Some_0.1 == Value::Bool(
            is_exact_change(inputs[n - 1].0, inputs[n as int].0, inputs[n as int].1),
        ),
{
    lemma_change_tick("By"@, ChangeDir::By, inputs, dt, n);
}

/// `Delay.Rising` gives true only while the condition is true, and `Delay.Falling` gives false
/// only while it is false, whatever the state of the call site. The first call at a fresh site
/// gives the level that needs no delay.
pub proof fn law_delays_follow_their_free_edge(
    cond: bool,
    delay: M1Scalar,
    prev: OpState,
    dt: F64,
    rising: bool,
)
    ensures
        ({
            let method = if rising {
                "Rising"@
            } else {
                "Falling"@
            };
            let args = seq![Value::Bool(cond), Value::M1(delay)];
            let output = operate("Delay"@, method, args, prev, dt)->Some_0->Some_0.1;
            &&& output == Value::Bool(true) || output == Value::Bool(false)
            &&& output == Value::Bool(rising) ==> cond == rising
            &&& cond != rising ==> output == Value::Bool(!rising)
            &&& prev is Uninit ==> output == Value::Bool(!rising)
        }),
{
    reveal_strlit("Filter");
    reveal_strlit("Integral");
    reveal_strlit("Derivative");
    reveal_strlit("Delay");
    reveal_strlit("Rising");
    reveal_strlit("Falling");
    assert("Filter"@.len() == 6 && "Integral"@.len() == 8 && "Derivative"@.len() == 10);
    assert("Delay"@.len() == 5 && "Rising"@.len() == 6 && "Falling"@.len() == 7);
    let args = seq![Value::Bool(cond), Value::M1(delay)];
    assert(edge_delay_step(args, prev, dt, rising) is Some);
}

/// A debounced output does not follow a condition on the tick on which the condition changes.
pub proof fn law_debounce_waits(
    args: Seq<Value>,
    output: bool,
    candidate: bool,
    held: F64,
    dt: F64,
)
    requires
        args.len() >= 2,
        flag_of(args[0]) == Some(!candidate),
        single_of(args[1]) is Some,
    ensures
        debounce_step(args, OpState::Timed { output, candidate, held }, dt) == Some(
            (
                OpState::Timed { output, candidate: !candidate, held: no_time() },
                Value::Bool(output),
            ),
        ),
{
}

/// A stopped timer keeps its time, however often and after whatever interval it is read.
pub proof fn law_stopped_timer_keeps_its_time(prev: OpState, dt: F64, later: F64)
    ensures
        ({
            let stopped = timer_step("Stop"@, seq![], prev, dt)->Some_0->Some_0.0;
            let read = timer_step("Remaining"@, seq![], stopped, later);
            read == Some(
                Some(
                    (
                        OpState::Timer { remaining: stopped->remaining, running: false },
                        float_value(stopped->remaining.narrow()),
                    ),
                ),
            )
        }),
{
    reveal_strlit("Start");
    reveal_strlit("Stop");
    reveal_strlit("Reset");
    reveal_strlit("Remaining");
    assert("Stop"@[2] != "Start"@[2]);
    assert("Remaining"@.len() != "Start"@.len());
    assert("Remaining"@.len() != "Stop"@.len());
    assert("Remaining"@.len() != "Reset"@.len());
}

/// No method leaves a timer with a negative time, or with none that is a number.
pub proof fn law_timer_is_never_negative(
    method: Seq<char>,
    args: Seq<Value>,
    prev: OpState,
    dt: F64,
    next: OpState,
    value: Value,
)
    requires
        timer_step(method, args, prev, dt) == Some(Some((next, value))),
        prev matches OpState::Timer { remaining, .. } ==> no_time().at_most(remaining),
    ensures
        next matches OpState::Timer { remaining, .. } && no_time().at_most(remaining),
{
}

/// The methods that are classified as stateful are those that have an update rule.
pub proof fn law_stateful_methods_are_implemented(
    object: Seq<char>,
    method: Seq<char>,
    args: Seq<Value>,
    prev: OpState,
    dt: F64,
)
    ensures
        is_stateful(object, method) == (operate(object, method, args, prev, dt) is Some),
{
    reveal_strlit("Filter");
    reveal_strlit("Integral");
    reveal_strlit("Derivative");
    reveal_strlit("Delay");
    reveal_strlit("Debounce");
    reveal_strlit("Change");
    reveal_strlit("Calculate");
    assert("Filter"@[0] == 'F');
    assert("Integral"@[0] == 'I');
    assert("Derivative"@.len() == 10);
    assert("Delay"@.len() == 5);
    assert("Debounce"@.len() == 8 && "Debounce"@[0] == 'D');
    assert("Change"@.len() == 6 && "Change"@[0] == 'C');
    assert("Calculate"@.len() == 9);
}

/// The remainder of whole numbers is smaller than the divisor, has the sign of the
/// dividend, and completes a multiple of the divisor.
pub proof fn law_remainder(a: int, b: int)
    requires
        b != 0,
    ensures
        ({
            let r = truncated_remainder(a, b);
            let m = if b < 0 { -b } else { b };
            -m < r < m && (a < 0 ==> r <= 0) && (a >= 0 ==> r >= 0) && (a - r) % m == 0
        }),
{
    let m = if b < 0 { -b } else { b };
    if a < 0 {
        vstd::arithmetic::div_mod::lemma_mod_bound(-a, m);
        vstd::arithmetic::div_mod::lemma_fundamental_div_mod(-a, m);
        let q = (-a) / m;
        assert(a - truncated_remainder(a, b) == m * (-q)) by (nonlinear_arith)
            requires
                -a == m * q + (-a) % m,
                truncated_remainder(a, b) == -((-a) % m),
        ;
        vstd::arithmetic::div_mod::lemma_mod_multiples_basic(-q, m);
        assert(m * (-q) == (-q) * m) by (nonlinear_arith);
    } else {
        vstd::arithmetic::div_mod::lemma_mod_bound(a, m);
        vstd::arithmetic::div_mod::lemma_fundamental_div_mod(a, m);
        let q = a / m;
        vstd::arithmetic::div_mod::lemma_mod_multiples_basic(q, m);
        assert(m * q == q * m) by (nonlinear_arith);
    }
}

/// A bias of minus one gives the lesser, of one the greater, and of zero the mean.
pub proof fn law_bias_ends(x: F32, y: F32)
    ensures
        ({
            let at = |bits: u32| bias_of(float_value(x), float_value(y), float_value(F32 { bits }));
            at(0xbf80_0000) == Some(float_value(x.min(y))) && at(0) == Some(float_value(x.midpoint(y)))
                && at(0x3f80_0000) == Some(float_value(x.max(y)))
        }),
{
    let a = F32 { bits: 0xbf80_0000 };
    let b = F32 { bits: 0 };
    let c = F32 { bits: 0x3f80_0000 };
    assert(a.equals(a) && b.equals(b) && c.equals(c));
    assert(!b.equals(a) && !c.equals(a) && !c.equals(b));
}

/// A whole number that fixed point holds comes back from it unchanged.
pub proof fn law_fixed_point_round_trip(v: int)
    requires
        -214 <= v <= 214,
    ensures
        ({
            let f = fixed_of(v);
            f matches Some(Value::M1(s)) && nearest_within(s, i32::MIN as int, i32::MAX as int) == Some(v)
        }),
{
    let m = if v < 0 { -v } else { v };
    vstd::arithmetic::div_mod::lemma_fundamental_div_mod_converse(
        20_000_000 * m + 10_000_000,
        20_000_000,
        m,
        10_000_000,
    );
    assert(i32::MIN <= v * 10_000_000 <= i32::MAX);
}

/// What a rule admits, holding it within the rule leaves alone.
pub proof fn law_valid_values_are_kept(rule: RuleView, s: M1Scalar)
    requires
        accepts(rule, s) == Some(true),
    ensures
        constrained(rule, s) == Some(s),
{
}

/// Whether the bounds of a rule are numbers in order.
pub open spec fn is_range(rule: RuleView) -> bool {
    rule matches RuleView::MinMax(min, max) ==> min.is_finite() && max.is_finite() && !max.less(min)
}

/// Every rule that is read from a project is a range, or has no bounds.
pub proof fn law_rules_are_ranges(nodes: Seq<NodeView>, n: nat, path: Seq<char>)
    requires
        rules_of(nodes, n) is Ok,
        rules_of(nodes, n)->Ok_0.contains_key(path),
    ensures
        is_range(rules_of(nodes, n)->Ok_0[path]),
    decreases n,
{
    if n > 0 {
        let before = rules_of(nodes, (n - 1) as nat)->Ok_0;
        if before.contains_key(path) {
            law_rules_are_ranges(nodes, (n - 1) as nat, path);
        }
    }
}

/// What is held within a rule is admitted by it, and is held without change again.
pub proof fn law_constrained_values_are_valid(rule: RuleView, s: M1Scalar, t: M1Scalar)
    requires
        is_range(rule),
        constrained(rule, s) == Some(t),
        !s.wide().is_nan(),
    ensures
        accepts(rule, t) == Some(true),
        constrained(rule, t) == Some(t),
{
}

/// What `Set` writes is what a read then gives, and a number that it writes is
/// admitted by the rule of the channel, unless it is a NaN.
pub proof fn law_set_then_read(
    before: EvalCtx,
    after: EvalCtx,
    object: Seq<char>,
    args: Seq<Value>,
    r: Result<Value, EvalError>,
)
    requires
        sets(before, after, object, args, r),
        r is Ok,
    ensures
        ({
            let (canon, path) = writable_source(before, object)->Some_0;
            let stored = value_to_set(before, canon, path, args[0])->Some_0;
            reading(after, path) == ReadView::Value(stored) && (before.object_rules.rule(
                canon,
                path,
            ) matches Some(rule) ==> (is_range(rule) && stored.number() is Some ==> stored.scalar() is Some && (
            stored.scalar()->Some_0.wide().is_nan() || accepts(rule, stored.scalar()->Some_0) == Some(
                true,
            ))))
        }),
{
}

/// A scenario value for a call site comes before one for every site.
pub proof fn law_exact_site_comes_first(env: Env, call: HardwareCall)
    requires
        exact_value(env, call.canonical(), call.site.key()) is Some,
    ensures
        scenario_value(env, call) == Some(
            (
                exact_value(env, call.canonical(), call.site.key())->Some_0,
                HardwareValueSource::ScenarioExact,
            ),
        ),
{
}

/// Required metadata is never made up: without a value from outside the call fails and
/// leaves everything as it was.
pub proof fn law_metadata_is_never_made_up(
    before: EvalCtx,
    after: EvalCtx,
    call: HardwareCall,
    r: Result<Value, EvalError>,
)
    requires
        call.library() matches Some(object) && needs_metadata(object, call.method@),
        falls_back(before, after, call, r),
    ensures
        r matches Err(e) && e is MissingHardwareMetadata,
        after == before,
{
    reveal_strlit("FlashSize");
    reveal_strlit("FlashFree");
    reveal_strlit("ElapsedTime");
    reveal_strlit("TickPeriod");
    reveal_strlit("HiResTickPeriod");
    reveal_strlit("Ticks");
    reveal_strlit("HiResTicks");
    reveal_strlit("TicksSince");
    reveal_strlit("HiResTicksSince");
    reveal_strlit("TicksBetween");
    reveal_strlit("TicksRemaining");
    assert("FlashSize"@.len() == 9 && "FlashFree"@.len() == 9);
    assert("ElapsedTime"@.len() == 11);
    assert("TickPeriod"@.len() == 10);
    assert("HiResTickPeriod"@.len() == 15);
    assert("Ticks"@.len() == 5);
    assert("HiResTicks"@.len() == 10);
    assert("TicksSince"@.len() == 10);
    assert("HiResTicksSince"@.len() == 15);
    assert("TicksBetween"@.len() == 12);
    assert("TicksRemaining"@.len() == 14);
}

/// A call is classified as unsupported exactly where it has no route to run on, where its
/// behavior is not known, or where only an adapter can answer it.
pub proof fn law_support_follows_the_route(scope: CapabilityScope, object: Seq<char>, method: Seq<char>)
    ensures
        ({
            let (support, route) = member_capability(scope, object, method);
            (support is Unsupported) == (route is Unsupported || (
            route matches RouteView::StatefulLibrary(o) && lacks_evidence(o, method)) || (
            route matches RouteView::IoLibrary(o) && scope.catalog.counts(o, method).len() == 0))
        }),
{
    lemma_gated_names();
}

/// The operators whose behavior is not known are none of the known ones.
proof fn lemma_gated_names()
    ensures
        forall|o: Seq<char>, m: Seq<char>| lacks_evidence(o, m) ==> !(#[trigger] is_stateful(o, m)),
{
    reveal_strlit("Debounce");
    reveal_strlit("Calculate");
    reveal_strlit("Filter");
    reveal_strlit("Integral");
    reveal_strlit("Derivative");
    reveal_strlit("Delay");
    reveal_strlit("Change");
    reveal_strlit("Fast");
    reveal_strlit("Verify");
    reveal_strlit("Stable");
    assert("Debounce"@.len() == 8 && "Debounce"@[0] == 'D');
    assert("Calculate"@.len() == 9 && "Filter"@.len() == 6 && "Integral"@[0] == 'I');
    assert("Derivative"@.len() == 10 && "Delay"@.len() == 5 && "Change"@.len() == 6);
    assert("Fast"@.len() == 4 && "Stable"@.len() == 6 && "Stable"@[0] == 'S');
    assert("Verify"@.len() == 6 && "Verify"@[0] == 'V' && "Filter"@[0] == 'F');
}

/// A value that was recorded last for a channel on a tick is the one that counts.
pub proof fn law_last_assignment_counts(records: Seq<TraceRecord>, record: TraceRecord)
    ensures
        value_at(records.push(record), record.channel@, record.tick) == Some(record.value),
{
    assert(records.push(record).drop_last() =~= records);
}

/// A series holds each value until the next point.
pub proof fn law_values_hold_between_points(points: Seq<(F64, Value)>, i: int, t: F64)
    requires
        0 <= i < points.len(),
        points[i].0.at_most(t),
        forall|j: int| i < j < points.len() ==> !(#[trigger] points[j]).0.at_most(t),
    ensures
        held(points, t) == Some(points[i].1),
    decreases points.len(),
{
    if i < points.len() - 1 {
        let rest = points.drop_last();
        assert(!points[points.len() - 1].0.at_most(t));
        assert forall|j: int| i < j < rest.len() implies !(#[trigger] rest[j]).0.at_most(t) by {
            assert(points[j] == rest[j]);
        }
        law_values_hold_between_points(rest, i, t);
    }
}

/// Leaving a user function gives its caller the frame back that it had on entering.
pub proof fn law_calls_keep_the_frame(before: EvalCtx, after: EvalCtx, call: UserCall)
    requires
        call.holds_frame_of(before),
        call.holds_frame_of(after),
    ensures
        after.env.locals@ == before.env.locals@,
        after.env.out == before.env.out,
        after.group == before.group,
        after.fn_symbol == before.fn_symbol,
        after.script_name@ == before.script_name@,
        after.depth == before.depth,
{
}

/// User functions never nest deeper than the limit.
pub proof fn law_nesting_is_bounded(
    before: EvalCtx,
    after: EvalCtx,
    callee: Seq<char>,
    args: Seq<Value>,
    r: Result<Option<UserCall>, EvalError>,
)
    requires
        before.depth <= MAX_CALL_DEPTH,
        enters(before, after, callee, args, r),
    ensures
        after.depth <= MAX_CALL_DEPTH,
        before.depth == MAX_CALL_DEPTH ==> !(r matches Ok(Some(_))),
{
}

/// The methods that are classified as pure are those that have an answer.
pub proof fn law_pure_methods_are_implemented(method: Seq<char>, args: Seq<Value>)
    ensures
        is_pure("Convert"@, method) == (convert::answer(method, args) is Some),
        is_pure("Limit"@, method) == (limit::answer(method, args) is Some),
        is_pure("Calculate"@, method) ==> calculate::answer(method, args) is Some,
{
    reveal_strlit("Calculate");
    reveal_strlit("Convert");
    reveal_strlit("Limit");
    reveal_strlit("UnixTime");
    assert("Calculate"@.len() == 9);
    assert("Convert"@.len() == 7);
    assert("Limit"@.len() == 5);
    assert("UnixTime"@.len() == 8);
}

/// A value meets its own expectation: exactly where its family compares exactly, and
/// within every tolerance of its family otherwise.
pub proof fn law_value_meets_itself(v: Value, tolerance: Option<ValueTolerance>)
    requires
        !(v is Int || v is Uint || v is Float),
        v matches Value::M1(M1Scalar::FixedPoint7dps(_)) ==> (tolerance matches Some(t)
            && t is FixedPoint7dps),
        v matches Value::M1(M1Scalar::FloatingPoint(x)) ==> (tolerance matches Some(
            ValueTolerance::FloatingPoint { absolute, relative },
        ) && optional_bound(absolute) is Some && optional_bound(relative) is Some),
    ensures
        value_mismatch(v, v, tolerance) is Ok,
{
    if let Value::M1(M1Scalar::FloatingPoint(x)) = v {
        if x.is_finite() {
            lemma_finite_widens(x);
            law_difference_with_itself(x.widen());
            if let Some(ValueTolerance::FloatingPoint { absolute, relative }) = tolerance {
                let a = optional_bound(absolute)->Some_0;
                assert(!a.is_nan() && !a.less(F64 { bits: 0 }));
            }
        }
    }
}

/// Whether what a route needs is there: a signature in the catalog, or a user function that
/// is found under its own path.
pub open spec fn route_is_ready(ctx: EvalCtx, route: RouteView, method: Seq<char>) -> bool {
    match route {
        RouteView::PureLibrary(o)
        | RouteView::StatefulLibrary(o)
        | RouteView::MathAssumption(o) => ctx.catalog.counts(o, method).len() > 0,
        RouteView::EnumAsInteger
        | RouteView::EnumAsString
        | RouteView::ObjectValidate
        | RouteView::ObjectConstrain
        | RouteView::ObjectGetUnscheduled
        | RouteView::ChannelSet
        | RouteView::Timer => object_counts(ctx.catalog.object_methods@, method).len() > 0,
        RouteView::UserFunction(canon) => user_function(
            *ctx.project,
            ctx.scripts@,
            text_of(ctx.group),
            text_of(ctx.fn_symbol),
            ctx.env.locals@,
            canon,
        ) is Some,
        _ => true,
    }
}

/// A call that is classified as supported is never refused as an unsupported builtin when
/// it is dispatched.
pub proof fn law_supported_calls_are_not_refused(
    before: EvalCtx,
    after: EvalCtx,
    object: Seq<char>,
    method: Seq<char>,
    args: Seq<Value>,
    site: CallSite,
    r: Result<Dispatched, EvalError>,
)
    requires
        dispatches(before, after, object, method, args, site, r),
        !(context_capability(before, object, method).0 is Unsupported),
        route_is_ready(before, context_capability(before, object, method).1, method),
    ensures
        !(r matches Err(e) && e is UnsupportedBuiltin),
{
    let route = context_capability(before, object, method).1;
    match route {
        RouteView::StatefulLibrary(library) => {
            law_stateful_methods_are_implemented(
                library,
                method,
                args,
                before.state.current(site.key()),
                before.dt,
            );
        },
        RouteView::PureLibrary(library) => {
            law_pure_methods_are_implemented(method, args);
        },
        _ => {},
    }
}

/// A call with a scenario value is not handed to the adapter.
pub proof fn law_scenario_comes_before_the_adapter(
    before: EvalCtx,
    after: EvalCtx,
    call: HardwareCall,
    r: Result<HardwareStep, EvalError>,
)
    requires
        begins(before, after, call, r),
        scenario_value(before.env, call) is Some,
    ensures
        !(r matches Ok(HardwareStep::Ask(_))),
{
}

/// A value that was set is read before a calibration and before a startup value.
pub proof fn law_set_values_come_first(ctx: EvalCtx, path: Seq<char>)
    requires
        ctx.env.values@.contains_key(path),
    ensures
        reading(ctx, path) == ReadView::Value(ctx.env.values@[path]),
{
}

/// The anchored spelling of a library object.
pub open spec fn anchored(object: Seq<char>) -> Seq<char> {
    "Library."@ + object
}

/// Whether both spellings of a library method are names of one library object.
pub open spec fn names_library(
    names: Seq<NameEntry>,
    group: Option<Seq<char>>,
    function: Option<Seq<char>>,
    object: Seq<char>,
    method: Seq<char>,
    library: Seq<char>,
) -> bool {
    &&& named(names, group, function, dotted(object, method)) == TargetView::Builtin(library)
    &&& named(names, group, function, dotted(anchored(object), method)) == TargetView::Builtin(
        library,
    )
    &&& !has_prefix(dotted(object, method), "In."@)
}

/// Neither the `Library.` anchor nor a local, of whatever name, changes how a call of a library
/// method is classified.
pub proof fn law_anchor_keeps_the_route(
    project: Project,
    scripts: Seq<String>,
    catalog: Intrinsics,
    group: Option<Seq<char>>,
    function: Option<Seq<char>>,
    locals: Map<Seq<char>, Value>,
    object: Seq<char>,
    method: Seq<char>,
    library: Seq<char>,
)
    requires
        names_library(project.names@, group, function, object, method, library),
    ensures
        project_call_capability(
            project,
            scripts,
            catalog,
            group,
            function,
            locals,
            object,
            method,
        ) == library_capability(catalog, library, method),
        project_call_capability(
            project,
            scripts,
            catalog,
            group,
            function,
            locals,
            anchored(object),
            method,
        ) == library_capability(catalog, library, method),
{
    reveal_strlit("Library.");
    reveal_strlit("In.");
    reveal_strlit(".");
    let full = dotted(object, method);
    let long = dotted(anchored(object), method);
    assert(full[object.len() as int] == '.');
    assert(long[anchored(object).len() as int] == '.');
    assert(long[0] == 'L');
    assert("In."@[0] == 'I');
    assert(!has_prefix(long, "In."@)) by {
        if has_prefix(long, "In."@) {
            assert(long.subrange(0, 3)[0] == long[0]);
        }
    }
}

/// Neither the `Library.` anchor nor a local, of whatever name, changes what a call of a library
/// method without hardware comes to: its value, the question to the host, and the state that it
/// leaves.
pub proof fn law_anchor_keeps_the_result(
    before: EvalCtx,
    after: EvalCtx,
    before2: EvalCtx,
    after2: EvalCtx,
    object: Seq<char>,
    method: Seq<char>,
    library: Seq<char>,
    args: Seq<Value>,
    site: CallSite,
    r: Result<Dispatched, EvalError>,
    r2: Result<Dispatched, EvalError>,
)
    requires
        names_library(
            before.project.names@,
            text_of(before.group),
            text_of(before.fn_symbol),
            object,
            method,
            library,
        ),
        before2 == (EvalCtx {
            env: Env { locals: before2.env.locals, ..before.env },
            ..before
        }),
        !(library_capability(*before.catalog, library, method).1 is IoLibrary),
        dispatches(before, after, object, method, args, site, r),
        dispatches(before2, after2, anchored(object), method, args, site, r2),
    ensures
        (r is Ok) == (r2 is Ok),
        r matches Ok(Dispatched::Done(v)) ==> r2 matches Ok(Dispatched::Done(w)) && w == v,
        r matches Ok(Dispatched::Host(h)) ==> r2 matches Ok(Dispatched::Host(k)) && k == h,
        after.state@ == after2.state@,
        after2.env == (Env { locals: before2.env.locals, ..after.env }),
{
    law_anchor_keeps_the_route(
        *before.project,
        before.scripts@,
        *before.catalog,
        text_of(before.group),
        text_of(before.fn_symbol),
        before.env.locals@,
        object,
        method,
        library,
    );
    law_anchor_keeps_the_route(
        *before.project,
        before.scripts@,
        *before.catalog,
        text_of(before.group),
        text_of(before.fn_symbol),
        before2.env.locals@,
        object,
        method,
        library,
    );
}

} // verus!
