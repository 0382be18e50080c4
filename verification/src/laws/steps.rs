//! What single steps of the stateful operators hold to, in exact values.

use crate::builtins::scalars::{at_least, change_size, size_order};
use crate::builtins::stateful::{
    debounce_filter_step, float_value, operate, timer_step, ChangeDir, EdgeDir,
};
use crate::env::OpState;
use crate::float::binary32::F32;
use crate::float::binary64::F64;
use crate::float::exact::{
    fine_slack, law_conversions, law_double_arithmetic, law_double_order, law_single_order,
    law_widening_is_exact, lemma_constants, lemma_decimal_constants, lemma_double_rounding,
    lemma_double_within_reach, lemma_single_within_reach, reach, size, slack,
};
use crate::float::num::Format;
use crate::laws::bounds::{lemma_blended, play};
use crate::laws::filters::{at_work, lemma_filter_methods, lemma_rate, lemma_weighted, weighted};
use crate::laws::levels::{beside, law_order_of_scalars};
use crate::laws::timing::lemma_timed_methods;
use crate::value::{M1Scalar, Value};
use vstd::prelude::*;

verus! {

/// Whether times are those of an operator at work: neither is negative, and their sum is within reach.
pub open spec fn times_add(held: F64, dt: F64) -> bool {
    &&& held.is_finite() && dt.is_finite()
    &&& held.exact() >= 0real && dt.exact() >= 0real
    &&& held.exact() + dt.exact() < reach(Format::Binary64)
}

/// One more step of time, within rounding.
proof fn lemma_times_add(held: F64, dt: F64, time: F64)
    requires
        times_add(held, dt),
        time.is_finite(),
    ensures
        held.plus(dt).is_finite(),
        size(held.plus(dt).exact() - (held.exact() + dt.exact())) <= fine_slack(
            held.exact() + dt.exact(),
        ),
        time.at_most(held.plus(dt)) == (time.exact() <= held.plus(dt).exact()),
{
    lemma_double_within_reach(held, dt);
    law_double_arithmetic(held, dt);
    lemma_double_rounding();
    law_double_order(time, held.plus(dt));
}

/// Whether three scalars are numbers.
pub open spec fn are_numbers(x: M1Scalar, low: M1Scalar, high: M1Scalar) -> bool {
    x.single().is_finite() && low.single().is_finite() && high.single().is_finite()
}

/// A hysteresis keeps its output while its number is between the levels. It turns true only where
/// the number is no less than the upper level and false only where it is no more than the lower
/// one, and then only when the number was on that side for no less than the filter time.
pub proof fn law_hysteresis(
    x: M1Scalar,
    low: M1Scalar,
    high: M1Scalar,
    time: M1Scalar,
    output: bool,
    candidate: bool,
    held: F64,
    dt: F64,
)
    requires
        are_numbers(x, low, high),
        time.single().is_finite(),
        times_add(held, dt),
    ensures
        operate(
            "Calculate"@,
            "Hysteresis"@,
            seq![Value::M1(x), Value::M1(low), Value::M1(high), Value::M1(time)],
            OpState::Timed { output, candidate, held },
            dt,
        ) matches Some(Some((OpState::Timed { output: next, candidate: side, held: passed }, v))) && ({
            let above = beside(x, high) >= beside(high, x);
            let below = !above && beside(x, low) <= beside(low, x);
            let total = held.exact() + dt.exact();
            let waited = size(passed.exact() - total) <= fine_slack(total);
            &&& v == Value::Bool(next) && passed.is_finite()
            &&& next && !output ==> above
            &&& !next && output ==> below
            &&& next != output ==> candidate == next && waited && time.single().exact()
                <= passed.exact()
            &&& above && !output && candidate ==> waited && next == (time.single().exact()
                <= passed.exact())
            &&& below && output && !candidate ==> waited && next == (time.single().exact()
                > passed.exact())
            &&& above && !output && !candidate ==> side && !next && passed == dt
            &&& below && output && candidate ==> !side && next && passed == dt
            &&& (above && output || below && !output || !above && !below) ==> next == output
                && passed.exact() == 0real
        }),
{
    lemma_timed_methods(
        seq![Value::M1(x), Value::M1(low), Value::M1(high), Value::M1(time)],
        OpState::Timed { output, candidate, held },
        dt,
    );
    law_order_of_scalars(x, high);
    law_order_of_scalars(x, low);
    law_widening_is_exact(time.single());
    lemma_times_add(held, dt, time.single().widen());
    lemma_constants();
}

/// A delay that waits for a number to keep within a tolerance of a reference starts anew from a
/// number that is further away, and otherwise counts the time; it gives true just where the time
/// is no less than the delay.
pub proof fn law_delay_within_a_tolerance(
    x: M1Scalar,
    delay: M1Scalar,
    tolerance: M1Scalar,
    reference: M1Scalar,
    held: F64,
    pending: bool,
    dt: F64,
)
    requires
        are_numbers(x, delay, tolerance),
        reference is FloatingPoint,
        x is FloatingPoint,
        reference.single().is_finite(),
        x.single().minus(reference.single()).is_finite(),
        times_add(held, dt),
    ensures
        operate(
            "Delay"@,
            "Stable"@,
            seq![Value::M1(x), Value::M1(delay), Value::M1(tolerance)],
            OpState::ChangeBy { prev_x: reference, held, pending },
            dt,
        ) matches Some(Some((OpState::ChangeBy { prev_x: kept, held: passed, .. }, v))) && ({
            let moved = x.single().exact() - reference.single().exact();
            let total = held.exact() + dt.exact();
            let far = size(moved) - slack(moved) > size(tolerance.single().exact());
            let near = size(moved) + slack(moved) < size(tolerance.single().exact());
            let anew = kept == x && passed.exact() == 0real && v == Value::Bool(false);
            let counts = kept == reference && size(passed.exact() - total) <= fine_slack(total) && v
                == Value::Bool(delay.single().exact() <= passed.exact());
            &&& anew || counts
            &&& far ==> anew
            &&& near ==> counts
        }),
{
    lemma_timed_methods(
        seq![Value::M1(x), Value::M1(delay), Value::M1(tolerance)],
        OpState::ChangeBy { prev_x: reference, held, pending },
        dt,
    );
    law_widening_is_exact(delay.single());
    lemma_times_add(held, dt, delay.single().widen());
    lemma_constants();
    let m = x.single().minus(reference.single());
    crate::float::exact::law_single_arithmetic(x.single(), reference.single());
    law_single_order(m, m);
    law_single_order(tolerance.single(), tolerance.single());
    law_single_order(m.abs(), tolerance.single().abs());
    crate::float::exact::lemma_single_rounding();
}

/// Whether a change is an upward one, a downward one or either.
pub open spec fn goes(dir: ChangeDir, from: M1Scalar, to: M1Scalar) -> bool {
    match dir {
        ChangeDir::By => true,
        ChangeDir::Up => beside(to, from) >= beside(from, to),
        ChangeDir::Down => beside(to, from) <= beside(from, to),
    }
}

/// The name of a change detector on numbers.
pub open spec fn change_name(dir: ChangeDir) -> Seq<char> {
    match dir {
        ChangeDir::By => "By"@,
        ChangeDir::Up => "Up"@,
        ChangeDir::Down => "Down"@,
    }
}

/// The name of a change detector on conditions.
pub open spec fn edge_name(dir: EdgeDir) -> Seq<char> {
    match dir {
        EdgeDir::To => "To"@,
        EdgeDir::From => "From"@,
        EdgeDir::Either => "Either"@,
    }
}

/// A change detector with a filter time measures against the number that it had before the change.
/// While the number stays changed by enough, in the wanted direction, it counts the time, and
/// gives one pulse when that is no less than the filter time. Otherwise it starts anew.
pub proof fn law_filtered_change(
    dir: ChangeDir,
    x: M1Scalar,
    delta: M1Scalar,
    time: M1Scalar,
    reference: M1Scalar,
    held: F64,
    pending: bool,
    dt: F64,
)
    requires
        are_numbers(x, delta, reference),
        time.single().is_finite(),
        times_add(held, dt),
    ensures
        operate(
            "Change"@,
            change_name(dir),
            seq![Value::M1(x), Value::M1(delta), Value::M1(time)],
            OpState::ChangeBy { prev_x: reference, held, pending },
            dt,
        ) matches Some(Some((OpState::ChangeBy { prev_x: kept, held: passed, pending: spent }, v))) && ({
            let total = held.exact() + dt.exact();
            let large = at_least(size_order(change_size(reference, x), delta));
            let ripe = time.single().exact() <= passed.exact();
            if large && goes(dir, reference, x) {
                &&& kept == reference && size(passed.exact() - total) <= fine_slack(total)
                &&& v == Value::Bool(ripe && !pending)
                &&& spent == (pending || ripe)
            } else {
                kept == x && passed.exact() == 0real && !spent && v == Value::Bool(false)
            }
        }),
{
    let args = seq![Value::M1(x), Value::M1(delta), Value::M1(time)];
    let prev = OpState::ChangeBy { prev_x: reference, held, pending };
    crate::laws::lemma_change_methods(args, prev, dt);
    law_order_of_scalars(x, reference);
    law_widening_is_exact(time.single());
    lemma_times_add(held, dt, time.single().widen());
    lemma_constants();
}

/// An edge detector with a filter time waits from the edge on while the condition keeps its new
/// value, and gives one pulse when it has done so for no less than the filter time.
pub proof fn law_filtered_edge(dir: EdgeDir, cond: bool, time: M1Scalar, before: bool, held: F64, dt: F64)
    requires
        time.single().is_finite(),
        times_add(held, dt),
    ensures
        operate(
            "Change"@,
            edge_name(dir),
            seq![Value::Bool(cond), Value::M1(time)],
            OpState::ChangeEdge { prev: before, held },
            dt,
        ) matches Some(Some((OpState::ChangeEdge { prev: kept, held: passed }, v))) && ({
            let edge = match dir {
                EdgeDir::To => cond && !before,
                EdgeDir::From => before && !cond,
                EdgeDir::Either => cond != before,
            };
            let total = held.exact() + dt.exact();
            &&& kept == cond && passed.is_finite()
            &&& edge ==> passed == dt && v == Value::Bool(false)
            &&& !edge && held.exact() > 0real && cond == before ==> {
                ||| v == Value::Bool(true) && passed.exact() == 0real && time.single().exact() <= total
                    + fine_slack(total)
                ||| v == Value::Bool(false) && size(passed.exact() - total) <= fine_slack(total)
                    && time.single().exact() > passed.exact()
            }
            &&& !edge && !(held.exact() > 0real && cond == before) ==> passed.exact() == 0real && v
                == Value::Bool(false)
        }),
{
    let args = seq![Value::Bool(cond), Value::M1(time)];
    let prev = OpState::ChangeEdge { prev: before, held };
    crate::laws::lemma_change_methods(args, prev, dt);
    law_widening_is_exact(time.single());
    lemma_times_add(held, dt, time.single().widen());
    lemma_constants();
    law_double_order(F64 { bits: 0 }, held);
}

/// An adaptive derivative takes a new value where its input has moved by its threshold since the
/// last one, or where the longest interval has passed: the change for each second since then,
/// within rounding. Until that it keeps the last.
pub proof fn law_adaptive_derivative(
    x: M1Scalar,
    delta: M1Scalar,
    longest: M1Scalar,
    last_x: F32,
    prev_d: F32,
    since: F64,
    dt: F64,
)
    requires
        are_numbers(x, delta, longest),
        last_x.is_finite(),
        x.single().minus(last_x).is_finite(),
        times_add(since, dt),
        since.plus(dt).narrow().is_finite(),
        since.plus(dt).narrow().exact() > 0real,
    ensures
        operate(
            "Derivative"@,
            "Adaptive"@,
            seq![Value::M1(x), Value::M1(delta), Value::M1(longest)],
            OpState::DerivativeAdaptive { last_x, prev_d, elapsed: since },
            dt,
        ) matches Some(Some((OpState::DerivativeAdaptive { last_x: kept, prev_d: d, elapsed: e }, v))) && ({
            let moved = x.single().exact() - last_x.exact();
            let total = since.exact() + dt.exact();
            let far = size(moved) - slack(moved) >= size(delta.single().exact());
            let near = size(moved) + slack(moved) < size(delta.single().exact());
            let long = 0real < longest.single().exact() <= total - fine_slack(total);
            let short = longest.single().exact() <= 0real || longest.single().exact() > total
                + fine_slack(total);
            let taken = kept == x.single() && e.exact() == 0real && (d.is_finite() ==> {
                let rate = moved / since.plus(dt).narrow().exact();
                size(d.exact() - rate) <= 4real * slack(rate)
            });
            let waits = kept == last_x && d == prev_d && size(e.exact() - total) <= fine_slack(total);
            &&& v == float_value(d)
            &&& taken || waits
            &&& far || long ==> taken
            &&& near && short ==> waits
        }),
{
    let args = seq![Value::M1(x), Value::M1(delta), Value::M1(longest)];
    lemma_filter_methods(args, OpState::DerivativeAdaptive { last_x, prev_d, elapsed: since }, dt);
    law_widening_is_exact(longest.single());
    lemma_times_add(since, dt, longest.single().widen());
    lemma_constants();
    law_double_order(F64 { bits: 0 }, longest.single().widen());
    let t = since.plus(dt);
    law_double_order(F64 { bits: 0 }, t);
    assert(t.exact() > 0real) by {
        lemma_positive(t);
    }
    let m = x.single().minus(last_x);
    crate::float::exact::law_single_arithmetic(x.single(), last_x);
    law_single_order(m, m);
    law_single_order(delta.single(), delta.single());
    law_single_order(delta.single().abs(), m.abs());
    crate::float::exact::lemma_single_rounding();
    if m.over(t.narrow()).is_finite() {
        lemma_rate(x.single(), last_x, t.narrow());
    }
}

/// What narrows to a positive number is positive.
proof fn lemma_positive(t: F64)
    requires
        t.is_finite(),
        t.narrow().is_finite(),
        t.narrow().exact() > 0real,
    ensures
        t.exact() > 0real,
{
    crate::float::exact::lemma_narrow_sign(t);
}

/// A filtered debounce lets a level follow its condition as a first-order filter does, from one
/// for true and nought for false. It turns true where the level is no less than four fifths and
/// false where it is no more than a fifth, and in between keeps what it gave.
pub proof fn law_filtered_debounce(cond: bool, response: M1Scalar, output: bool, level: F32, dt: F64)
    requires
        at_work(F32 { bits: 0 }, level, response.single(), dt.narrow()),
    ensures
        operate(
            "Debounce"@,
            "Filter"@,
            seq![Value::Bool(cond), Value::M1(response)],
            OpState::DebounceFilter { output, level },
            dt,
        ) matches Some(Some((OpState::DebounceFilter { output: next, level: reached }, v))) && v
            == Value::Bool(next) && (reached.is_finite() ==> {
            let target = if cond {
                1real
            } else {
                0real
            };
            let y = reached.exact();
            &&& size(
                y - weighted(target, level.exact(), response.single().exact(), dt.narrow().exact()),
            ) <= play(target, level.exact())
            &&& y >= 4real / 5real + 1real / 10000000real ==> next
            &&& y <= 1real / 5real - 1real / 10000000real ==> !next
            &&& 1real / 5real + 1real / 10000000real < y < 4real / 5real - 1real / 10000000real ==> next
                == output
        }),
{
    let args = seq![Value::Bool(cond), Value::M1(response)];
    let prev = OpState::DebounceFilter { output, level };
    lemma_timed_methods(args, prev, dt);
    lemma_constants();
    lemma_decimal_constants();
    let step = dt.narrow();
    let tc = response.single();
    lemma_single_within_reach(tc, step);
    let target = if cond { F32 { bits: 0x3f80_0000 } } else { F32 { bits: 0 } };
    let y = debounce_filter_step(args, prev, dt)->Some_0.0->level;
    if y.is_finite() {
        lemma_blended(target, level, tc, step);
        lemma_weighted(target.exact(), level.exact(), tc.exact(), step.exact());
        law_single_order(F32 { bits: 0x3f4c_cccd }, y);
        law_single_order(y, F32 { bits: 0x3e4c_cccd });
    }
}

/// The names of the timer's methods are distinct.
proof fn lemma_timer_names()
    ensures
        "Start"@ != "Stop"@ && "Start"@ != "Reset"@ && "Start"@ != "Remaining"@ && "Stop"@
            != "Reset"@ && "Stop"@ != "Remaining"@ && "Reset"@ != "Remaining"@,
{
    reveal_strlit("Start");
    reveal_strlit("Stop");
    reveal_strlit("Reset");
    reveal_strlit("Remaining");
    assert("Start"@.len() == 5 && "Stop"@.len() == 4 && "Reset"@.len() == 5 && "Remaining"@.len() == 9);
    assert("Start"@[0] == 'S' && "Reset"@[0] == 'R');
}

/// A started timer has its time, or none where that is negative, and runs; a reset one has none and
/// does not run; a stopped one keeps its time and does not run.
pub proof fn law_timer_starts_and_stops(time: M1Scalar, prev: OpState, dt: F64, remaining: F64, running: bool)
    requires
        time.single().is_finite(),
    ensures
        timer_step("Start"@, seq![Value::M1(time)], prev, dt) matches Some(
            Some((OpState::Timer { remaining: r, running: true }, Value::Bool(true))),
        ) && r.is_finite() && r.exact() == (if time.single().exact() < 0real {
            0real
        } else {
            time.single().exact()
        }),
        timer_step("Reset"@, seq![], prev, dt) matches Some(
            Some((OpState::Timer { remaining: r, running: false }, Value::Bool(true))),
        ) && r.is_finite() && r.exact() == 0real,
        timer_step("Stop"@, seq![], OpState::Timer { remaining, running }, dt) == Some(
            Some((OpState::Timer { remaining, running: false }, Value::Bool(true))),
        ),
{
    lemma_timer_names();
    lemma_constants();
    law_widening_is_exact(time.single());
    law_double_order(time.single().widen(), F64 { bits: 0 });
}

/// A running timer loses the step on each reading until it has none left, within rounding, and
/// then stops. One that does not run keeps its time. The reading is the time that is left.
pub proof fn law_timer_counts_down(remaining: F64, running: bool, dt: F64, args: Seq<Value>)
    requires
        remaining.is_finite(),
        remaining.exact() >= 0real,
        dt.is_finite(),
        dt.exact() >= 0real,
        remaining.minus(dt).is_finite(),
    ensures
        timer_step("Remaining"@, args, OpState::Timer { remaining, running }, dt) matches Some(
            Some((OpState::Timer { remaining: left, running: goes_on }, Value::M1(v))),
        ) && left.is_finite() && ({
            let rest = remaining.exact() - dt.exact();
            &&& v matches M1Scalar::FloatingPoint(shown) && (shown.is_finite() ==> size(
                shown.exact() - left.exact(),
            ) <= slack(left.exact()))
            &&& !running ==> left == remaining && !goes_on
            &&& running ==> size(left.exact() - if rest < 0real {
                0real
            } else {
                rest
            }) <= fine_slack(rest)
            &&& running ==> goes_on == (left.exact() > 0real)
            &&& running && rest <= 0real ==> left.exact() == 0real
        }),
{
    lemma_timer_names();
    lemma_constants();
    lemma_double_rounding();
    law_double_arithmetic(remaining, dt);
    let d = remaining.minus(dt);
    let zero = F64 { bits: 0 };
    law_double_order(d, zero);
    law_double_order(d.max(zero), zero);
    law_double_order(zero, zero);
    let left = if running { d.max(zero) } else { remaining };
    law_conversions(F32 { bits: 0 }, left);
    lemma_difference_sign(remaining, dt);
}

/// The sign of a difference is kept by rounding.
proof fn lemma_difference_sign(a: F64, b: F64)
    requires
        a.is_finite(),
        b.is_finite(),
        a.minus(b).is_finite(),
    ensures
        a.exact() - b.exact() <= 0real ==> a.minus(b).exact() <= 0real,
{
    law_double_arithmetic(a, b);
    lemma_double_rounding();
}

/// At a fresh call site the operators that wait give false, and take what they are given as what
/// they had: a number that they compare with, a level and a condition.
pub proof fn law_fresh_sites(x: M1Scalar, time: M1Scalar, delta: M1Scalar, cond: bool, dt: F64, dir: ChangeDir)
    ensures
        operate(
            "Change"@,
            change_name(dir),
            seq![Value::M1(x), Value::M1(delta), Value::M1(time)],
            OpState::Uninit,
            dt,
        ) matches Some(Some((OpState::ChangeBy { prev_x, held, pending }, v))) && prev_x == x
            && held.exact() == 0real && !pending && v == Value::Bool(false),
        operate(
            "Derivative"@,
            "Adaptive"@,
            seq![Value::M1(x), Value::M1(delta), Value::M1(time)],
            OpState::Uninit,
            dt,
        ) matches Some(Some((OpState::DerivativeAdaptive { last_x, prev_d, elapsed }, v))) && last_x
            == x.single() && prev_d.exact() == 0real && elapsed.exact() == 0real && v == float_value(
            prev_d,
        ),
        operate(
            "Delay"@,
            "Stable"@,
            seq![Value::M1(x), Value::M1(time), Value::M1(delta)],
            OpState::Uninit,
            dt,
        ) matches Some(Some((OpState::ChangeBy { prev_x, held, .. }, v))) && prev_x == x
            && held.exact() == 0real && v == Value::Bool(false),
        operate("Debounce"@, "Stable"@, seq![Value::Bool(cond), Value::M1(time)], OpState::Uninit, dt)
            matches Some(Some((_, v))) && v == Value::Bool(cond),
{
    let changes = seq![Value::M1(x), Value::M1(delta), Value::M1(time)];
    crate::laws::lemma_change_methods(changes, OpState::Uninit, dt);
    lemma_filter_methods(changes, OpState::Uninit, dt);
    lemma_timed_methods(seq![Value::M1(x), Value::M1(time), Value::M1(delta)], OpState::Uninit, dt);
    lemma_timed_methods(seq![Value::Bool(cond), Value::M1(time)], OpState::Uninit, dt);
    lemma_constants();
}

/// A fresh hysteresis is one whose output is false and that waits for nothing.
pub proof fn law_fresh_hysteresis(x: M1Scalar, low: M1Scalar, high: M1Scalar, time: M1Scalar, dt: F64)
    ensures
        ({
            let args = seq![Value::M1(x), Value::M1(low), Value::M1(high), Value::M1(time)];
            operate("Calculate"@, "Hysteresis"@, args, OpState::Uninit, dt) == operate(
                "Calculate"@,
                "Hysteresis"@,
                args,
                OpState::Timed { output: false, candidate: false, held: F64 { bits: 0 } },
                dt,
            )
        }),
{
    let args = seq![Value::M1(x), Value::M1(low), Value::M1(high), Value::M1(time)];
    lemma_timed_methods(args, OpState::Uninit, dt);
    lemma_timed_methods(
        args,
        OpState::Timed { output: false, candidate: false, held: F64 { bits: 0 } },
        dt,
    );
}

} // verus!
