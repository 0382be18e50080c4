//! What the operators that hold a number against levels hold to.

use crate::builtins::scalars::{at_least, change_size, ordered, pattern, size_order, Order};
use crate::builtins::stateful::operate;
use crate::env::OpState;
use crate::float::binary64::F64;
use crate::float::exact::{
    law_single_arithmetic, law_single_order, lemma_single_rounding, size, slack,
};
use crate::laws::methods::worth;
use crate::laws::timing::{
    elapsed, lemma_one_more_step, lemma_timed_methods, output_at, state_after,
};
use crate::value::{M1Scalar, Value};
use vstd::prelude::*;

verus! {

/// What a scalar counts as beside another: itself among its own family, its pattern where a signed
/// integer meets an unsigned one, and its binary32 number otherwise.
pub open spec fn beside(a: M1Scalar, b: M1Scalar) -> real {
    match (a, b) {
        (M1Scalar::Integer(v), M1Scalar::UnsignedInteger(_)) => if v < 0 {
            (v + 0x1_0000_0000) as real
        } else {
            v as int as real
        },
        (M1Scalar::UnsignedInteger(v), M1Scalar::Integer(_)) => v as int as real,
        _ => if a.kind() == b.kind() {
            worth(a)
        } else {
            a.single().exact()
        },
    }
}

/// Two scalars that are numbers are ordered by what they count as beside each other.
pub proof fn law_order_of_scalars(a: M1Scalar, b: M1Scalar)
    requires
        a.single().is_finite(),
        b.single().is_finite(),
    ensures
        ordered(a, b) == Some(
            if beside(a, b) < beside(b, a) {
                Order::Less
            } else if beside(a, b) == beside(b, a) {
                Order::Equal
            } else {
                Order::Greater
            },
        ),
{
    law_single_order(a.single(), b.single());
}

/// The size of a change between two scalars against a threshold: exact among one family of
/// integers, and in binary32 within rounding where a number is floating.
pub proof fn law_size_of_change(from: M1Scalar, to: M1Scalar, delta: M1Scalar)
    requires
        from.single().is_finite(),
        to.single().is_finite(),
        delta.single().is_finite(),
    ensures
        from.kind() == to.kind() && to.kind() == delta.kind() && !(from is FloatingPoint)
            ==> at_least(size_order(change_size(from, to), delta)) == (size(worth(to) - worth(from))
            >= size(worth(delta))),
        (from is FloatingPoint || to is FloatingPoint) && to.single().minus(from.single()).is_finite()
            ==> {
            let moved = to.single().exact() - from.single().exact();
            let large = at_least(size_order(change_size(from, to), delta));
            &&& large ==> size(delta.single().exact()) <= size(moved) + slack(moved)
            &&& !large ==> size(delta.single().exact()) >= size(moved) - slack(moved)
        },
{
    let d = delta.single();
    law_single_order(d, d);
    let m = to.single().minus(from.single());
    if m.is_finite() {
        law_single_order(m, m);
        law_single_arithmetic(to.single(), from.single());
        law_single_order(m.abs(), d.abs());
        lemma_single_rounding();
    }
    if let (
        M1Scalar::FixedPoint7dps(x),
        M1Scalar::FixedPoint7dps(y),
        M1Scalar::FixedPoint7dps(z),
    ) = (from, to, delta) {
        let (p, q, r) = (x.raw as int as real, y.raw as int as real, z.raw as int as real);
        assert(q / 10000000real - p / 10000000real == (q - p) / 10000000real);
    }
}

/// Whether a number is within two others.
pub open spec fn is_between(x: M1Scalar, lo: M1Scalar, hi: M1Scalar) -> bool {
    beside(x, lo) >= beside(lo, x) && beside(x, hi) <= beside(hi, x)
}

/// The calls of an operator that holds numbers against two levels for a time.
pub open spec fn level_calls(xs: Seq<M1Scalar>, lo: M1Scalar, hi: M1Scalar, time: M1Scalar) -> Seq<
    Seq<Value>,
> {
    Seq::new(
        xs.len(),
        |i: int| seq![Value::M1(xs[i]), Value::M1(lo), Value::M1(hi), Value::M1(time)],
    )
}

/// The name of the operator that asks for numbers within two levels, or beyond them.
pub open spec fn between_name(beyond: bool) -> Seq<char> {
    if beyond {
        "Beyond"@
    } else {
        "Between"@
    }
}

/// What one call of `Calculate.Between` or `Calculate.Beyond` comes to.
proof fn lemma_between_call(
    x: M1Scalar,
    lo: M1Scalar,
    hi: M1Scalar,
    time: M1Scalar,
    beyond: bool,
    prev: OpState,
    dt: F64,
)
    requires
        x.single().is_finite(),
        lo.single().is_finite(),
        hi.single().is_finite(),
    ensures
        operate(
            "Calculate"@,
            between_name(beyond),
            seq![Value::M1(x), Value::M1(lo), Value::M1(hi), Value::M1(time)],
            prev,
            dt,
        ) matches Some(Some((OpState::Timed { output, candidate, held }, v))) && v == Value::Bool(
            output,
        ) && candidate == (is_between(x, lo, hi) != beyond) && ({
            let (c, h) = match prev {
                OpState::Timed { candidate: c, held: h, .. } => (c, h),
                _ => (false, elapsed(dt, 0)),
            };
            if candidate != c {
                !output && held == elapsed(dt, 0)
            } else {
                held == h.plus(dt) && output == (candidate && time.single().widen().at_most(held))
            }
        }),
{
    lemma_timed_methods(
        seq![Value::M1(x), Value::M1(lo), Value::M1(hi), Value::M1(time)],
        prev,
        dt,
    );
    law_order_of_scalars(x, lo);
    law_order_of_scalars(x, hi);
}

proof fn lemma_between_run(
    xs: Seq<M1Scalar>,
    lo: M1Scalar,
    hi: M1Scalar,
    time: M1Scalar,
    beyond: bool,
    dt: F64,
    m: nat,
    n: nat,
)
    requires
        m <= n < xs.len(),
        forall|i: int| 0 <= i < xs.len() ==> (#[trigger] xs[i]).single().is_finite(),
        lo.single().is_finite(),
        hi.single().is_finite(),
        m > 0 ==> is_between(xs[m - 1], lo, hi) == beyond,
        forall|i: int| m <= i <= n ==> is_between(#[trigger] xs[i], lo, hi) != beyond,
    ensures
        state_after(
            "Calculate"@,
            between_name(beyond),
            level_calls(xs, lo, hi, time),
            dt,
            n + 1,
        ) matches OpState::Timed { output, candidate, held } && candidate && held == elapsed(
            dt,
            (n - m) as nat,
        ) && output == (n > m && time.single().widen().at_most(held)) && output_at(
            "Calculate"@,
            between_name(beyond),
            level_calls(xs, lo, hi, time),
            dt,
            n,
        ) == Some(Value::Bool(output)),
    decreases n,
{
    let calls = level_calls(xs, lo, hi, time);
    let name = between_name(beyond);
    let before = state_after("Calculate"@, name, calls, dt, n);
    assert(calls[n as int] == seq![
        Value::M1(xs[n as int]),
        Value::M1(lo),
        Value::M1(hi),
        Value::M1(time),
    ]);
    lemma_between_call(xs[n as int], lo, hi, time, beyond, before, dt);
    assert(is_between(xs[n as int], lo, hi) != beyond);
    if n > m {
        lemma_between_run(xs, lo, hi, time, beyond, dt, m, (n - 1) as nat);
        lemma_one_more_step(time.single().widen(), dt, n - m);
    } else if m > 0 {
        let earlier = state_after("Calculate"@, name, calls, dt, (m - 1) as nat);
        assert(calls[m - 1] == seq![
            Value::M1(xs[m - 1]),
            Value::M1(lo),
            Value::M1(hi),
            Value::M1(time),
        ]);
        lemma_between_call(xs[m - 1], lo, hi, time, beyond, earlier, dt);
    }
}

/// `Calculate.Between` gives true just where its number has been within the levels since an earlier
/// tick and for no less than the filter time, and `Calculate.Beyond` where it has been outside
/// them. The tick `m` is the first of those.
pub proof fn law_levels_hold_for_a_time(
    xs: Seq<M1Scalar>,
    lo: M1Scalar,
    hi: M1Scalar,
    time: M1Scalar,
    beyond: bool,
    dt: F64,
    m: nat,
    n: nat,
)
    requires
        m <= n < xs.len(),
        forall|i: int| 0 <= i < xs.len() ==> (#[trigger] xs[i]).single().is_finite(),
        lo.single().is_finite(),
        hi.single().is_finite(),
        m > 0 ==> is_between(xs[m - 1], lo, hi) == beyond,
        forall|i: int| m <= i <= n ==> is_between(#[trigger] xs[i], lo, hi) != beyond,
    ensures
        output_at("Calculate"@, between_name(beyond), level_calls(xs, lo, hi, time), dt, n) == Some(
            Value::Bool(n > m && time.single().widen().at_most(elapsed(dt, (n - m) as nat))),
        ),
{
    lemma_between_run(xs, lo, hi, time, beyond, dt, m, n);
}

/// A number that is not where `Calculate.Between` or `Calculate.Beyond` asks for it gives false.
pub proof fn law_levels_fail_at_once(
    x: M1Scalar,
    lo: M1Scalar,
    hi: M1Scalar,
    time: M1Scalar,
    beyond: bool,
    prev: OpState,
    dt: F64,
)
    requires
        x.single().is_finite(),
        lo.single().is_finite(),
        hi.single().is_finite(),
        is_between(x, lo, hi) == beyond,
    ensures
        operate(
            "Calculate"@,
            between_name(beyond),
            seq![Value::M1(x), Value::M1(lo), Value::M1(hi), Value::M1(time)],
            prev,
            dt,
        ) matches Some(Some((_, v))) && v == Value::Bool(false),
{
    lemma_between_call(x, lo, hi, time, beyond, prev, dt);
}

/// The calls of an operator that waits for a number to keep still.
pub open spec fn still_calls(xs: Seq<M1Scalar>, time: M1Scalar) -> Seq<Seq<Value>> {
    Seq::new(xs.len(), |i: int| seq![Value::M1(xs[i]), Value::M1(time)])
}

proof fn lemma_still_call(object: Seq<char>, x: M1Scalar, time: M1Scalar, prev: OpState, dt: F64)
    requires
        object == "Calculate"@ || object == "Delay"@,
        x.single().is_finite(),
        prev matches OpState::ChangeBy { prev_x, .. } ==> prev_x.single().is_finite(),
    ensures
        operate(object, "Stable"@, seq![Value::M1(x), Value::M1(time)], prev, dt) matches Some(
            Some((OpState::ChangeBy { prev_x: kept, held, .. }, v)),
        ) && match prev {
            OpState::ChangeBy { prev_x, held: h, .. } if beside(x, prev_x) == beside(prev_x, x) => kept
                == prev_x && held == h.plus(dt) && v == Value::Bool(
                time.single().widen().at_most(held),
            ),
            _ => kept == x && held == elapsed(dt, 0) && v == Value::Bool(false),
        },
{
    lemma_timed_methods(seq![Value::M1(x), Value::M1(time)], prev, dt);
    if let OpState::ChangeBy { prev_x, .. } = prev {
        law_order_of_scalars(x, prev_x);
        law_order_of_scalars(prev_x, x);
    }
}

proof fn lemma_still_run(object: Seq<char>, xs: Seq<M1Scalar>, time: M1Scalar, dt: F64, m: nat, n: nat)
    requires
        object == "Calculate"@ || object == "Delay"@,
        m <= n < xs.len(),
        forall|i: int| 0 <= i < xs.len() ==> (#[trigger] xs[i]).single().is_finite(),
        forall|i: int, j: int|
            0 <= i < xs.len() && 0 <= j < xs.len() ==> (#[trigger] xs[i]).kind() == (
            #[trigger] xs[j]).kind(),
        m > 0 ==> worth(xs[m - 1]) != worth(xs[m as int]),
        forall|i: int| m <= i <= n ==> worth(#[trigger] xs[i]) == worth(xs[m as int]),
    ensures
        state_after(object, "Stable"@, still_calls(xs, time), dt, n + 1) matches OpState::ChangeBy {
            prev_x,
            held,
            ..
        } && prev_x.kind() == xs[n as int].kind() && worth(prev_x) == worth(xs[n as int])
            && prev_x.single().is_finite() && held == elapsed(dt, (n - m) as nat) && output_at(
            object,
            "Stable"@,
            still_calls(xs, time),
            dt,
            n,
        ) == Some(Value::Bool(n > m && time.single().widen().at_most(held))),
    decreases n,
{
    let calls = still_calls(xs, time);
    let before = state_after(object, "Stable"@, calls, dt, n);
    assert(calls[n as int] == seq![Value::M1(xs[n as int]), Value::M1(time)]);
    assert(xs[n as int].kind() == xs[m as int].kind());
    if n > m {
        lemma_still_run(object, xs, time, dt, m, (n - 1) as nat);
        lemma_one_more_step(time.single().widen(), dt, n - m);
        assert(xs[n as int].kind() == xs[n - 1].kind());
        assert(worth(xs[n as int]) == worth(xs[n - 1]));
        lemma_still_call(object, xs[n as int], time, before, dt);
    } else if m > 0 {
        let j = (m - 1) as nat;
        assert(xs[n as int].kind() == xs[j as int].kind());
        lemma_last_move(xs, j);
        lemma_still_run(object, xs, time, dt, last_move(xs, j), j);
        lemma_still_call(object, xs[n as int], time, before, dt);
    } else {
        lemma_still_call(object, xs[n as int], time, before, dt);
    }
}

/// The tick since which a number has had its value on a tick.
pub open spec fn last_move(xs: Seq<M1Scalar>, n: nat) -> nat
    decreases n,
{
    if n == 0 || worth(xs[n as int]) != worth(xs[n - 1]) {
        n
    } else {
        last_move(xs, (n - 1) as nat)
    }
}

proof fn lemma_last_move(xs: Seq<M1Scalar>, n: nat)
    requires
        n < xs.len(),
    ensures
        ({
            let m = last_move(xs, n);
            &&& m <= n
            &&& m > 0 ==> worth(xs[m - 1]) != worth(xs[m as int])
            &&& forall|i: int| m <= i <= n ==> worth(#[trigger] xs[i]) == worth(xs[m as int])
        }),
    decreases n,
{
    if n > 0 && worth(xs[n as int]) == worth(xs[n - 1]) {
        lemma_last_move(xs, (n - 1) as nat);
    }
}

/// `Calculate.Stable`, and `Delay.Stable` without a tolerance, give true just where a number has
/// kept its value since an earlier tick and for no less than the filter time. The tick `m` is the
/// first of those.
pub proof fn law_still_for_a_time(
    object: Seq<char>,
    xs: Seq<M1Scalar>,
    time: M1Scalar,
    dt: F64,
    m: nat,
    n: nat,
)
    requires
        object == "Calculate"@ || object == "Delay"@,
        m <= n < xs.len(),
        forall|i: int| 0 <= i < xs.len() ==> (#[trigger] xs[i]).single().is_finite(),
        forall|i: int, j: int|
            0 <= i < xs.len() && 0 <= j < xs.len() ==> (#[trigger] xs[i]).kind() == (
            #[trigger] xs[j]).kind(),
        m > 0 ==> worth(xs[m - 1]) != worth(xs[m as int]),
        forall|i: int| m <= i <= n ==> worth(#[trigger] xs[i]) == worth(xs[m as int]),
    ensures
        output_at(object, "Stable"@, still_calls(xs, time), dt, n) == Some(
            Value::Bool(n > m && time.single().widen().at_most(elapsed(dt, (n - m) as nat))),
        ),
{
    lemma_still_run(object, xs, time, dt, m, n);
}

} // verus!
