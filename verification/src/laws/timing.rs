//! What the timed operators hold to over runs of ticks.

use crate::builtins::stateful::{
    calc_between_step, calc_stable_step, debounce_filter_step, debounce_step, delay_stable_step,
    edge_delay_step, hysteresis_step, operate,
};
use crate::env::OpState;
use crate::float::binary64::F64;
use crate::float::exact::{
    law_double_arithmetic, law_double_order, lemma_constants, lemma_double_rounding,
    lemma_double_within_reach, lemma_reach, size,
};
use crate::value::{M1Scalar, Value};
use vstd::prelude::*;

verus! {

/// The state of a call site after `n` calls from a fresh one.
pub open spec fn state_after(
    object: Seq<char>,
    method: Seq<char>,
    calls: Seq<Seq<Value>>,
    dt: F64,
    n: nat,
) -> OpState
    decreases n,
{
    if n == 0 {
        OpState::Uninit
    } else {
        let before = state_after(object, method, calls, dt, (n - 1) as nat);
        match operate(object, method, calls[n - 1], before, dt) {
            Some(Some((next, _))) => next,
            _ => before,
        }
    }
}

/// What call `n` at a call site gives, after the calls before it.
pub open spec fn output_at(
    object: Seq<char>,
    method: Seq<char>,
    calls: Seq<Seq<Value>>,
    dt: F64,
    n: nat,
) -> Option<Value> {
    match operate(object, method, calls[n as int], state_after(object, method, calls, dt, n), dt) {
        Some(Some((_, value))) => Some(value),
        _ => None,
    }
}

/// The time of `k` steps, as it adds up in binary64.
pub open spec fn elapsed(dt: F64, k: nat) -> F64
    decreases k,
{
    if k == 0 {
        F64 { bits: 0 }
    } else {
        elapsed(dt, (k - 1) as nat).plus(dt)
    }
}

/// The time of `k` steps is `k` times the step, within rounding.
pub proof fn law_elapsed_time(dt: F64, k: nat)
    requires
        dt.is_finite(),
        0real <= dt.exact() <= 1000000real,
        k <= 1000000,
    ensures
        elapsed(dt, k).is_finite(),
        size(elapsed(dt, k).exact() - (k as int as real) * dt.exact()) <= (k as int as real) * (
        k as int as real) * dt.exact() / 4503599627370496real,
    decreases k,
{
    lemma_constants();
    lemma_double_rounding();
    let h = dt.exact();
    let n = k as int as real;
    if k == 0 {
        assert(n * h == 0real && n * n * h == 0real) by (nonlinear_arith)
            requires
                n == 0real,
        ;
    } else {
        let j = (k - 1) as nat;
        law_elapsed_time(dt, j);
        let e = elapsed(dt, j);
        let m = j as int as real;
        assert(n == m + 1real);
        let x = e.exact();
        let v = m * h;
        let w = m * m * h;
        assert(0real <= v <= 1000000000000real && 0real <= w <= 1000000real * v && n * h == v + h && n
            * n * h == w + 2real * v + h) by (nonlinear_arith)
            requires
                0real <= m <= 1000000real,
                0real <= h <= 1000000real,
                n == m + 1real,
                v == m * h,
                w == m * m * h,
        {
            assert(m * m * h == m * (m * h));
            assert(n * n * h == m * m * h + 2real * (m * h) + h);
        }
        lemma_reach();
        lemma_double_within_reach(e, dt);
        law_double_arithmetic(e, dt);
        assert(size(x - v) <= w / 4503599627370496real);
        assert(size(x + h) <= 2real * v + h);
        assert(size(elapsed(dt, k).exact() - (x + h)) <= (2real * v + h) / 9007199254740992real);
    }
}

/// Whether a time has run out within `k` steps.
pub open spec fn runs_out(time: F64, dt: F64, k: int) -> bool {
    exists|i: int| 1 <= i <= k && time.at_most(#[trigger] elapsed(dt, i as nat))
}

/// A time runs out within `k` steps or at the last of them.
pub(crate) proof fn lemma_one_more_step(time: F64, dt: F64, k: int)
    requires
        k >= 1,
    ensures
        elapsed(dt, k as nat) == elapsed(dt, (k - 1) as nat).plus(dt),
        runs_out(time, dt, k) == (runs_out(time, dt, k - 1) || time.at_most(elapsed(dt, k as nat))),
{
    if runs_out(time, dt, k - 1) {
        let i = choose|i: int| 1 <= i <= k - 1 && time.at_most(#[trigger] elapsed(dt, i as nat));
        assert(time.at_most(elapsed(dt, i as nat)));
    }
}

/// A time that is not a whole number of steps runs out after as many steps as reach it.
pub proof fn law_time_runs_out(time: F64, dt: F64, k: int)
    requires
        time.is_finite(),
        dt.is_finite(),
        0real <= dt.exact() <= 1000000real,
        1 <= k <= 1000000,
    ensures
        ({
            let (t, span) = (time.exact(), (k as real) * dt.exact());
            let play = (k as real) * span / 4503599627370496real;
            &&& t <= span - play ==> runs_out(time, dt, k)
            &&& t > span + play ==> !runs_out(time, dt, k)
        }),
{
    let h = dt.exact();
    let n = k as real;
    let span = n * h;
    law_elapsed_time(dt, k as nat);
    law_double_order(time, elapsed(dt, k as nat));
    assert(n * n * h == n * span) by (nonlinear_arith)
        requires
            span == n * h,
    ;
    if time.exact() > span + n * span / 4503599627370496real {
        assert forall|i: int| 1 <= i <= k implies !time.at_most(#[trigger] elapsed(dt, i as nat)) by {
            law_elapsed_time(dt, i as nat);
            law_double_order(time, elapsed(dt, i as nat));
            let m = i as real;
            assert(m * h <= span && m * m * h <= n * n * h) by (nonlinear_arith)
                requires
                    0real <= m <= n,
                    h >= 0real,
                    span == n * h,
            {
                assert(m * m <= n * n);
            }
        }
    }
}

/// The calls of an operator that takes a condition and a time.
pub open spec fn timed_calls(conds: Seq<bool>, time: M1Scalar) -> Seq<Seq<Value>> {
    Seq::new(conds.len(), |i: int| seq![Value::Bool(conds[i]), Value::M1(time)])
}

/// The names of the timed operators tell them apart.
pub(crate) proof fn lemma_timed_methods(args: Seq<Value>, prev: OpState, dt: F64)
    ensures
        operate("Delay"@, "Rising"@, args, prev, dt) == Some(edge_delay_step(args, prev, dt, true)),
        operate("Delay"@, "Falling"@, args, prev, dt) == Some(edge_delay_step(args, prev, dt, false)),
        operate("Delay"@, "Stable"@, args, prev, dt) == Some(delay_stable_step(args, prev, dt)),
        operate("Debounce"@, "Stable"@, args, prev, dt) == Some(debounce_step(args, prev, dt)),
        operate("Debounce"@, "Filter"@, args, prev, dt) == Some(debounce_filter_step(args, prev, dt)),
        operate("Calculate"@, "Stable"@, args, prev, dt) == Some(calc_stable_step(args, prev, dt)),
        operate("Calculate"@, "Between"@, args, prev, dt) == Some(
            calc_between_step(args, prev, dt, false),
        ),
        operate("Calculate"@, "Beyond"@, args, prev, dt) == Some(
            calc_between_step(args, prev, dt, true),
        ),
        operate("Calculate"@, "Hysteresis"@, args, prev, dt) == Some(hysteresis_step(args, prev, dt)),
{
    reveal_strlit("Filter");
    reveal_strlit("Integral");
    reveal_strlit("Derivative");
    reveal_strlit("Delay");
    reveal_strlit("Debounce");
    reveal_strlit("Change");
    reveal_strlit("Calculate");
    reveal_strlit("Rising");
    reveal_strlit("Falling");
    reveal_strlit("Stable");
    reveal_strlit("Between");
    reveal_strlit("Beyond");
    reveal_strlit("Hysteresis");
    assert("Filter"@.len() == 6 && "Integral"@.len() == 8 && "Derivative"@.len() == 10);
    assert("Delay"@.len() == 5 && "Debounce"@.len() == 8 && "Debounce"@[0] == 'D');
    assert("Integral"@[0] == 'I' && "Change"@.len() == 6 && "Calculate"@.len() == 9);
    assert("Rising"@.len() == 6 && "Falling"@.len() == 7 && "Stable"@.len() == 6);
    assert("Rising"@[0] == 'R' && "Stable"@[0] == 'S' && "Filter"@[0] == 'F');
    assert("Between"@.len() == 7 && "Beyond"@.len() == 6 && "Beyond"@[0] == 'B');
    assert("Hysteresis"@.len() == 10);
}

/// The name of an edge delay.
pub open spec fn delay_name(rising: bool) -> Seq<char> {
    if rising {
        "Rising"@
    } else {
        "Falling"@
    }
}

proof fn lemma_delay_run(conds: Seq<bool>, delay: M1Scalar, dt: F64, rising: bool, m: nat, n: nat)
    requires
        m <= n < conds.len(),
        m == 0 || conds[m as int] != rising,
        forall|i: int| m < i <= n ==> conds[i] == rising,
    ensures
        state_after("Delay"@, delay_name(rising), timed_calls(conds, delay), dt, n + 1) matches
            OpState::Timed { output, held, .. } && held == elapsed(dt, (n - m) as nat) && output == (
        runs_out(delay.single().widen(), dt, n - m) == rising) && output_at(
            "Delay"@,
            delay_name(rising),
            timed_calls(conds, delay),
            dt,
            n,
        ) == Some(Value::Bool(output)),
    decreases n - m,
{
    let calls = timed_calls(conds, delay);
    let before = state_after("Delay"@, delay_name(rising), calls, dt, n);
    lemma_timed_methods(calls[n as int], before, dt);
    let time = delay.single().widen();
    if n > m {
        lemma_delay_run(conds, delay, dt, rising, m, (n - 1) as nat);
        lemma_one_more_step(time, dt, n - m);
    } else {
        assert(!runs_out(time, dt, 0));
        if m > 0 {
            lemma_delay_state(conds, delay, dt, rising, n);
        }
    }
}

/// After a call the state of a delay is a timed one.
proof fn lemma_delay_state(conds: Seq<bool>, delay: M1Scalar, dt: F64, rising: bool, n: nat)
    requires
        0 < n <= conds.len(),
    ensures
        state_after("Delay"@, delay_name(rising), timed_calls(conds, delay), dt, n) is Timed,
{
    let calls = timed_calls(conds, delay);
    let before = state_after("Delay"@, delay_name(rising), calls, dt, (n - 1) as nat);
    lemma_timed_methods(calls[n - 1], before, dt);
}

/// A rising delay gives true just where its condition has been true on each of the last ticks, and
/// the delay has run out in their time; a falling delay gives false just where it has been false
/// for so long. The tick `m` is the last on which the condition was otherwise, or the first of all.
pub proof fn law_delay_runs_out(conds: Seq<bool>, delay: M1Scalar, dt: F64, rising: bool, m: nat, n: nat)
    requires
        m <= n < conds.len(),
        m == 0 || conds[m as int] != rising,
        forall|i: int| m < i <= n ==> conds[i] == rising,
    ensures
        output_at("Delay"@, delay_name(rising), timed_calls(conds, delay), dt, n) == Some(
            Value::Bool(
                if runs_out(delay.single().widen(), dt, n - m) {
                    rising
                } else {
                    !rising
                },
            ),
        ),
{
    lemma_delay_run(conds, delay, dt, rising, m, n);
}

/// What a debounced condition was before tick `m`: its first value where there is none.
pub open spec fn settled(conds: Seq<bool>, time: M1Scalar, dt: F64, m: nat) -> Option<Value> {
    if m == 0 {
        Some(Value::Bool(conds[0]))
    } else {
        output_at("Debounce"@, "Stable"@, timed_calls(conds, time), dt, (m - 1) as nat)
    }
}

/// What one call of a debounce comes to.
proof fn lemma_debounce_call(cond: bool, time: M1Scalar, prev: OpState, dt: F64)
    ensures
        operate("Debounce"@, "Stable"@, seq![Value::Bool(cond), Value::M1(time)], prev, dt) matches Some(
            Some((OpState::Timed { output, candidate, held }, v)),
        ) && v == Value::Bool(output) && candidate == cond && match prev {
            OpState::Timed { output: o, candidate: c, held: h } => if cond != c {
                output == o && held == elapsed(dt, 0)
            } else {
                held == h.plus(dt) && output == if time.single().widen().at_most(held) {
                    cond
                } else {
                    o
                }
            },
            _ => output == cond && held == elapsed(dt, 0),
        },
{
    lemma_timed_methods(seq![Value::Bool(cond), Value::M1(time)], prev, dt);
}

proof fn lemma_debounce_run(conds: Seq<bool>, time: M1Scalar, dt: F64, m: nat, n: nat)
    requires
        m <= n < conds.len(),
        m > 0 ==> conds[m as int] != conds[m - 1],
        forall|i: int| m <= i <= n ==> conds[i] == conds[m as int],
    ensures
        state_after("Debounce"@, "Stable"@, timed_calls(conds, time), dt, n + 1) matches
            OpState::Timed { output, candidate, held } && held == elapsed(dt, (n - m) as nat)
            && candidate == conds[n as int] && Some(Value::Bool(output)) == (if runs_out(
            time.single().widen(),
            dt,
            n - m,
        ) {
            Some(Value::Bool(conds[n as int]))
        } else {
            settled(conds, time, dt, m)
        }) && output_at("Debounce"@, "Stable"@, timed_calls(conds, time), dt, n) == Some(
            Value::Bool(output),
        ),
    decreases n,
{
    let calls = timed_calls(conds, time);
    let before = state_after("Debounce"@, "Stable"@, calls, dt, n);
    lemma_debounce_call(conds[n as int], time, before, dt);
    assert(calls[n as int] == seq![Value::Bool(conds[n as int]), Value::M1(time)]);
    let t = time.single().widen();
    if n > m {
        lemma_debounce_run(conds, time, dt, m, (n - 1) as nat);
        lemma_one_more_step(t, dt, n - m);
    } else {
        assert(!runs_out(t, dt, 0));
        if m > 0 {
            let j = (m - 1) as nat;
            lemma_last_change(conds, j);
            let l = last_change(conds, j);
            lemma_debounce_run(conds, time, dt, l, j);
        }
    }
}

/// The tick since which a condition has had its value on a tick.
pub open spec fn last_change(conds: Seq<bool>, n: nat) -> nat
    decreases n,
{
    if n == 0 || conds[n as int] != conds[n - 1] {
        n
    } else {
        last_change(conds, (n - 1) as nat)
    }
}

proof fn lemma_last_change(conds: Seq<bool>, n: nat)
    requires
        n < conds.len(),
    ensures
        ({
            let m = last_change(conds, n);
            &&& m <= n
            &&& m > 0 ==> conds[m as int] != conds[m - 1]
            &&& forall|i: int| m <= i <= n ==> conds[i] == conds[m as int]
        }),
    decreases n,
{
    if n > 0 && conds[n as int] == conds[n - 1] {
        lemma_last_change(conds, (n - 1) as nat);
    }
}

/// A debounced condition takes a new value when the condition has kept it for the filter time, and
/// until that keeps the one it had. The tick `m` is the first of those that have the value.
pub proof fn law_debounce_runs_out(conds: Seq<bool>, time: M1Scalar, dt: F64, m: nat, n: nat)
    requires
        m <= n < conds.len(),
        m > 0 ==> conds[m as int] != conds[m - 1],
        forall|i: int| m <= i <= n ==> conds[i] == conds[m as int],
    ensures
        output_at("Debounce"@, "Stable"@, timed_calls(conds, time), dt, n) == if runs_out(
            time.single().widen(),
            dt,
            n - m,
        ) {
            Some(Value::Bool(conds[n as int]))
        } else {
            settled(conds, time, dt, m)
        },
{
    lemma_debounce_run(conds, time, dt, m, n);
}

} // verus!
