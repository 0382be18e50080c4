//! The stateful, time-domain builtins.
//!
//! Each operator is a small state machine that advances by one time step per
//! execution. A fresh call site starts at [`OpState::Uninit`], and the operator
//! seeds itself on its first tick.
//!
//! The filters discretise a single pole as
//!
//! ```text
//! a = dt / (tc + dt)
//! y[n] = a * x[n] + (1 - a) * y[n-1]
//! ```
//!
//! Timing is kept in binary64; script numbers cross into it through binary32.

use crate::builtins::scalars::{
    at_least, change_size, is_at_least, is_no_more, no_more, not_numeric, numeric_single,
    ordered, scalar_change_order, scalar_equal, scalar_order, single_of, size_order, Order,
};
use crate::env::{CallSite, OpState, StateStore};
use crate::error::{is_type_error, EvalError};
use crate::float::binary32::F32;
use crate::float::binary64::F64;
use crate::text::same;
use crate::value::{M1Scalar, Value};
use vstd::prelude::*;

verus! {

/// What a step comes to: the next state and the result, or nothing on a type mismatch.
pub type Step = Option<(OpState, Value)>;

/// What is wrong with the operands of an operator, by the place of the one that is wanted as a
/// Boolean. Operands are read in order: the first that is not what is wanted is named.
pub open spec fn operand_fault(args: Seq<Value>, flag: Option<int>) -> Seq<char> {
    match flag {
        Some(k) => if k < args.len() && flag_of(args[k]) is None && forall|i: int|
            0 <= i < k ==> single_of(#[trigger] args[i]) is Some {
            not_boolean()
        } else {
            not_numeric()
        },
        None => not_numeric(),
    }
}

/// What is wrong with a value that is no Boolean.
pub open spec fn not_boolean() -> Seq<char> {
    "expected a Boolean"@
}

/// Whether a computed step is the one that is specified.
pub open spec fn agrees(
    r: Result<(OpState, Value), EvalError>,
    s: Step,
    fault: Seq<char>,
) -> bool {
    match s {
        Some(p) => r == Ok::<(OpState, Value), EvalError>(p),
        None => r matches Err(e) && is_type_error(e, fault),
    }
}

/// A Boolean argument.
pub open spec fn flag_of(value: Value) -> Option<bool> {
    match value {
        Value::Bool(b) => Some(b),
        _ => None,
    }
}

/// A Boolean argument that may be left out.
pub open spec fn optional_flag(args: Seq<Value>, i: int) -> Option<bool> {
    if i < args.len() {
        flag_of(args[i])
    } else {
        Some(false)
    }
}

/// A number of seconds: the binary32 value, widened.
pub open spec fn seconds_of(value: Value) -> Option<F64> {
    match single_of(value) {
        Some(v) => Some(v.widen()),
        None => None,
    }
}

/// A number of seconds that may be left out.
pub open spec fn optional_seconds(args: Seq<Value>, i: int) -> Option<Option<F64>> {
    if i < args.len() {
        match seconds_of(args[i]) {
            Some(t) => Some(Some(t)),
            None => None,
        }
    } else {
        Some(None)
    }
}

fn flag_arg(args: &[Value], i: usize) -> (r: Result<bool, EvalError>)
    ensures
        match optional_flag(args@, i as int) {
            Some(b) => r == Ok::<bool, EvalError>(b),
            None => r matches Err(e) && is_type_error(e, not_boolean()),
        },
{
    if i < args.len() {
        args[i].as_bool()
    } else {
        Ok(false)
    }
}

fn seconds(value: &Value) -> (r: Result<F64, EvalError>)
    ensures
        match seconds_of(*value) {
            Some(t) => r == Ok::<F64, EvalError>(t),
            None => r matches Err(e) && is_type_error(e, not_numeric()),
        },
{
    match numeric_single(value) {
        Ok(v) => Ok(v.widen()),
        Err(e) => Err(e),
    }
}

fn seconds_arg(args: &[Value], i: usize) -> (r: Result<Option<F64>, EvalError>)
    ensures
        match optional_seconds(args@, i as int) {
            Some(t) => r == Ok::<Option<F64>, EvalError>(t),
            None => r matches Err(e) && is_type_error(e, not_numeric()),
        },
{
    if i < args.len() {
        match seconds(&args[i]) {
            Ok(t) => Ok(Some(t)),
            Err(e) => Err(e),
        }
    } else {
        Ok(None)
    }
}

/// Zero seconds.
pub open spec fn no_time() -> F64 {
    F64 { bits: 0 }
}

/// Zero in binary32.
pub open spec fn nought() -> F32 {
    F32 { bits: 0 }
}

/// One in binary32.
pub open spec fn one() -> F32 {
    F32 { bits: 0x3f80_0000 }
}

/// A floating-point result.
pub open spec fn float_value(v: F32) -> Value {
    Value::M1(M1Scalar::FloatingPoint(v))
}

/// A value limited to `[lo, hi]`; a reversed range comes to `hi`.
pub open spec fn limited(v: F32, lo: F32, hi: F32) -> F32 {
    v.max(lo).min(hi)
}

/// The blend factor `dt / (tc + dt)`, held within `[0, 1]`, and one where `tc + dt` is not positive.
pub open spec fn blend(tc: F32, dt: F32) -> F32 {
    let denom = tc.plus(dt);
    if denom.at_most(nought()) {
        one()
    } else {
        let a = dt.over(denom);
        if a.less(nought()) {
            nought()
        } else if one().less(a) {
            one()
        } else {
            a
        }
    }
}

/// The blend of an input and a previous output.
pub open spec fn blended(a: F32, x: F32, y: F32) -> F32 {
    a.times(x).plus(one().minus(a).times(y))
}

fn first_order_alpha(tc: F32, dt: F32) -> (r: F32)
    ensures
        r == blend(tc, dt),
{
    let zero = F32::from_bits(0);
    let unit = F32::from_bits(0x3f80_0000);
    let denom = tc.plus(dt);
    if denom.at_most(zero) {
        return unit;
    }
    let a = dt.over(denom);
    if a.less(zero) {
        zero
    } else if unit.less(a) {
        unit
    } else {
        a
    }
}

fn blend_step(a: F32, x: F32, y: F32) -> (r: F32)
    ensures
        r == blended(a, x, y),
{
    a.times(x).plus(F32::from_bits(0x3f80_0000).minus(a).times(y))
}

/// `Filter.FirstOrder(x, tc [, reset])`: the first input, or the input on reset,
/// and the blend of input and previous output otherwise.
pub open spec fn first_order_step(args: Seq<Value>, prev: OpState, dt: F64) -> Step {
    match (single_of(args[0]), single_of(args[1]), optional_flag(args, 2)) {
        (Some(x), Some(tc), Some(reset)) => {
            let y = match prev {
                OpState::Filter { y: p } if !reset => blended(blend(tc, dt.narrow()), x, p),
                _ => x,
            };
            Some((OpState::Filter { y }, float_value(y)))
        },
        _ => None,
    }
}

fn first_order(args: &[Value], prev: OpState, dt: F64) -> (r: Result<(OpState, Value), EvalError>)
    requires
        args.len() >= 2,
    ensures
        agrees(r, first_order_step(args@, prev, dt), operand_fault(args@, Some(2))),
{
    let x = numeric_single(&args[0])?;
    let tc = numeric_single(&args[1])?;
    let reset = flag_arg(args, 2)?;
    let a = first_order_alpha(tc, dt.narrow());
    let y = match prev {
        OpState::Filter { y: p } if !reset => blend_step(a, x, p),
        _ => x,
    };
    Ok((OpState::Filter { y }, Value::m1_float(y)))
}

/// `Filter.Maximum` and `Filter.Minimum`: the input at once when it is at or
/// beyond the held extremum, and the blend toward it otherwise.
pub open spec fn extremum_step(args: Seq<Value>, prev: OpState, dt: F64, want_max: bool) -> Step {
    match (single_of(args[0]), single_of(args[1]), optional_flag(args, 2)) {
        (Some(x), Some(tc), Some(reset)) => {
            let y = match prev {
                OpState::Filter { y: p } if !reset => {
                    let attack = if want_max {
                        p.at_most(x)
                    } else {
                        x.at_most(p)
                    };
                    if attack {
                        x
                    } else {
                        blended(blend(tc, dt.narrow()), x, p)
                    }
                },
                _ => x,
            };
            Some((OpState::Filter { y }, float_value(y)))
        },
        _ => None,
    }
}

fn extremum(args: &[Value], prev: OpState, dt: F64, want_max: bool) -> (r: Result<
    (OpState, Value),
    EvalError,
>)
    requires
        args.len() >= 2,
    ensures
        agrees(r, extremum_step(args@, prev, dt, want_max), operand_fault(args@, Some(2))),
{
    let x = numeric_single(&args[0])?;
    let tc = numeric_single(&args[1])?;
    let reset = flag_arg(args, 2)?;
    let a = first_order_alpha(tc, dt.narrow());
    let y = match prev {
        OpState::Filter { y: p } if !reset => {
            let attack = if want_max {
                p.at_most(x)
            } else {
                x.at_most(p)
            };
            if attack {
                x
            } else {
                blend_step(a, x, p)
            }
        },
        _ => x,
    };
    Ok((OpState::Filter { y }, Value::m1_float(y)))
}

/// `Integral.Normal(x, min, max, reset, preset)`: the area so far by the
/// trapezoidal rule, limited to `[min, max]` as it is stored. The first tick
/// gives the limited zero, and a reset the limited preset.
pub open spec fn integral_step(args: Seq<Value>, prev: OpState, dt: F64) -> Step {
    match (
        single_of(args[0]),
        single_of(args[1]),
        single_of(args[2]),
        flag_of(args[3]),
        single_of(args[4]),
    ) {
        (Some(x), Some(lo), Some(hi), Some(reset), Some(preset)) => {
            let acc = if reset {
                limited(preset, lo, hi)
            } else {
                match prev {
                    OpState::Integral { acc, prev_x } => {
                        let half = F32 { bits: 0x3f00_0000 };
                        let area = x.plus(prev_x).times(half).times(dt.narrow());
                        limited(acc.plus(area), lo, hi)
                    },
                    _ => limited(nought(), lo, hi),
                }
            };
            Some((OpState::Integral { acc, prev_x: x }, float_value(acc)))
        },
        _ => None,
    }
}

fn clamp(v: F32, lo: F32, hi: F32) -> (r: F32)
    ensures
        r == limited(v, lo, hi),
{
    v.max(lo).min(hi)
}

fn integral_normal(args: &[Value], prev: OpState, dt: F64) -> (r: Result<
    (OpState, Value),
    EvalError,
>)
    requires
        args.len() >= 5,
    ensures
        agrees(r, integral_step(args@, prev, dt), operand_fault(args@, Some(3))),
{
    let x = numeric_single(&args[0])?;
    let lo = numeric_single(&args[1])?;
    let hi = numeric_single(&args[2])?;
    let reset = args[3].as_bool()?;
    let preset = numeric_single(&args[4])?;
    let acc = if reset {
        clamp(preset, lo, hi)
    } else {
        match prev {
            OpState::Integral { acc, prev_x } => {
                let half = F32::from_bits(0x3f00_0000);
                let area = x.plus(prev_x).times(half).times(dt.narrow());
                clamp(acc.plus(area), lo, hi)
            },
            _ => clamp(F32::from_bits(0), lo, hi),
        }
    };
    Ok((OpState::Integral { acc, prev_x: x }, Value::m1_float(acc)))
}

/// The time constant of `Derivative.Filtered`: a tenth of a second in binary32.
pub open spec fn filtered_derivative_tc() -> F32 {
    F32 { bits: 0x3dcc_cccd }
}

/// `Derivative.Normal` and `Derivative.Filtered`: the backward difference per
/// second, and its blend with the previous output where `filtered`. The first
/// tick gives zero.
pub open spec fn derivative_step(args: Seq<Value>, prev: OpState, dt: F64, filtered: bool) -> Step {
    match single_of(args[0]) {
        Some(x) => {
            let d = match prev {
                OpState::Derivative { prev_x, prev_d } => {
                    let step = dt.narrow();
                    let raw = if nought().less(step) {
                        x.minus(prev_x).over(step)
                    } else {
                        nought()
                    };
                    if filtered {
                        blended(blend(filtered_derivative_tc(), step), raw, prev_d)
                    } else {
                        raw
                    }
                },
                _ => nought(),
            };
            Some((OpState::Derivative { prev_x: x, prev_d: d }, float_value(d)))
        },
        None => None,
    }
}

fn derivative_normal(args: &[Value], prev: OpState, dt: F64, filtered: bool) -> (r: Result<
    (OpState, Value),
    EvalError,
>)
    requires
        args.len() >= 1,
    ensures
        agrees(r, derivative_step(args@, prev, dt, filtered), operand_fault(args@, None)),
{
    let x = numeric_single(&args[0])?;
    let zero = F32::from_bits(0);
    let d = match prev {
        OpState::Derivative { prev_x, prev_d } => {
            let step = dt.narrow();
            let raw = if zero.less(step) {
                x.minus(prev_x).over(step)
            } else {
                zero
            };
            if filtered {
                let a = first_order_alpha(F32::from_bits(0x3dcc_cccd), step);
                blend_step(a, raw, prev_d)
            } else {
                raw
            }
        },
        _ => zero,
    };
    Ok((OpState::Derivative { prev_x: x, prev_d: d }, Value::m1_float(d)))
}

/// `Derivative.Adaptive(x, delta, max_dt)`: the slope since the last accepted
/// update, taken anew when the input has moved by `|delta|` or `max_dt` seconds
/// have passed, and held otherwise.
pub open spec fn adaptive_step(args: Seq<Value>, prev: OpState, dt: F64) -> Step {
    match (single_of(args[0]), single_of(args[1]), seconds_of(args[2])) {
        (Some(x), Some(delta), Some(max_dt)) => {
            let (d, last_x, elapsed) = match prev {
                OpState::DerivativeAdaptive { last_x, prev_d, elapsed } => {
                    let elapsed = elapsed.plus(dt);
                    let moved = delta.abs().at_most(x.minus(last_x).abs());
                    let timed_out = no_time().less(max_dt) && max_dt.at_most(elapsed);
                    if moved || timed_out {
                        let d = if no_time().less(elapsed) {
                            x.minus(last_x).over(elapsed.narrow())
                        } else {
                            prev_d
                        };
                        (d, x, no_time())
                    } else {
                        (prev_d, last_x, elapsed)
                    }
                },
                _ => (nought(), x, no_time()),
            };
            Some((OpState::DerivativeAdaptive { last_x, prev_d: d, elapsed }, float_value(d)))
        },
        _ => None,
    }
}

fn derivative_adaptive(args: &[Value], prev: OpState, dt: F64) -> (r: Result<
    (OpState, Value),
    EvalError,
>)
    requires
        args.len() >= 3,
    ensures
        agrees(r, adaptive_step(args@, prev, dt), operand_fault(args@, None)),
{
    let x = numeric_single(&args[0])?;
    let delta = numeric_single(&args[1])?;
    let max_dt = seconds(&args[2])?;
    let zero = F64::from_bits(0);
    let (d, last_x, elapsed) = match prev {
        OpState::DerivativeAdaptive { last_x, prev_d, elapsed } => {
            let elapsed = elapsed.plus(dt);
            let moved = delta.abs().at_most(x.minus(last_x).abs());
            let timed_out = zero.less(max_dt) && max_dt.at_most(elapsed);
            if moved || timed_out {
                let d = if zero.less(elapsed) {
                    x.minus(last_x).over(elapsed.narrow())
                } else {
                    prev_d
                };
                (d, x, zero)
            } else {
                (prev_d, last_x, elapsed)
            }
        },
        _ => (F32::from_bits(0), x, zero),
    };
    Ok((OpState::DerivativeAdaptive { last_x, prev_d: d, elapsed }, Value::m1_float(d)))
}

/// `Delay.Rising` and `Delay.Falling`: the delayed edge takes effect once its
/// level has held for `delay` seconds, the other edge at once. The first tick
/// gives the level that needs no delay.
pub open spec fn edge_delay_step(args: Seq<Value>, prev: OpState, dt: F64, rising: bool) -> Step {
    match (flag_of(args[0]), seconds_of(args[1])) {
        (Some(cond), Some(delay)) => {
            let (output, held) = match prev {
                OpState::Timed { output, held, .. } if cond == rising => {
                    let held = held.plus(dt);
                    if delay.at_most(held) {
                        (rising, held)
                    } else {
                        (output, held)
                    }
                },
                _ => (!rising, no_time()),
            };
            Some((OpState::Timed { output, candidate: cond, held }, Value::Bool(output)))
        },
        _ => None,
    }
}

/// A step of `Delay.Rising` or `Delay.Falling`.
pub fn edge_delay(args: &[Value], prev: OpState, dt: F64, rising: bool) -> (r: Result<
    (OpState, Value),
    EvalError,
>)
    requires
        args.len() >= 2,
    ensures
        agrees(r, edge_delay_step(args@, prev, dt, rising), operand_fault(args@, Some(0))),
{
    let cond = args[0].as_bool()?;
    let delay = seconds(&args[1])?;
    let (output, held) = match prev {
        OpState::Timed { output, held, .. } if cond == rising => {
            let held = held.plus(dt);
            if delay.at_most(held) {
                (rising, held)
            } else {
                (output, held)
            }
        },
        _ => (!rising, F64::from_bits(0)),
    };
    Ok((OpState::Timed { output, candidate: cond, held }, Value::Bool(output)))
}

/// A tolerance argument that may be left out.
pub open spec fn optional_single(args: Seq<Value>, i: int) -> Option<Option<F32>> {
    if i < args.len() {
        match single_of(args[i]) {
            Some(v) => Some(Some(v)),
            None => None,
        }
    } else {
        Some(None)
    }
}

/// `Delay.Stable(x, delay [, delta])`: true once `x` has stayed within `delta`
/// of its reference for `delay` seconds. A greater move starts anew from it.
pub open spec fn delay_stable_step(args: Seq<Value>, prev: OpState, dt: F64) -> Step {
    match (args[0].scalar(), seconds_of(args[1]), optional_single(args, 2)) {
        (Some(x), Some(delay), Some(delta)) => {
            let (reference, held, output) = match prev {
                OpState::ChangeBy { prev_x, held, .. } => {
                    let moved = match delta {
                        Some(d) => size_order(
                            change_size(prev_x, x),
                            M1Scalar::FloatingPoint(d),
                        ) == Some(Order::Greater),
                        None => ordered(prev_x, x) != Some(Order::Equal),
                    };
                    if moved {
                        (x, no_time(), false)
                    } else {
                        (prev_x, held.plus(dt), delay.at_most(held.plus(dt)))
                    }
                },
                _ => (x, no_time(), false),
            };
            Some(
                (
                    OpState::ChangeBy { prev_x: reference, held, pending: output },
                    Value::Bool(output),
                ),
            )
        },
        _ => None,
    }
}

fn delay_stable(args: &[Value], prev: OpState, dt: F64) -> (r: Result<(OpState, Value), EvalError>)
    requires
        args.len() >= 2,
    ensures
        agrees(r, delay_stable_step(args@, prev, dt), operand_fault(args@, None)),
{
    let x = args[0].m1_scalar()?;
    let delay = seconds(&args[1])?;
    let delta: Option<F32> = if args.len() > 2 {
        Some(numeric_single(&args[2])?)
    } else {
        None
    };
    let zero = F64::from_bits(0);
    let (reference, held, output) = match prev {
        OpState::ChangeBy { prev_x, held, .. } => {
            let moved = match delta {
                Some(d) => {
                    let (_, size) = scalar_change_order(prev_x, x, M1Scalar::FloatingPoint(d));
                    matches!(size, Some(Order::Greater))
                },
                None => !scalar_equal(prev_x, x),
            };
            if moved {
                (x, zero, false)
            } else {
                let held = held.plus(dt);
                (prev_x, held, delay.at_most(held))
            }
        },
        _ => (x, zero, false),
    };
    Ok((OpState::ChangeBy { prev_x: reference, held, pending: output }, Value::Bool(output)))
}

/// `Debounce.Stable`: the output takes a new value once
/// it has held for `filter` seconds. The first tick takes it at once.
pub open spec fn debounce_step(args: Seq<Value>, prev: OpState, dt: F64) -> Step {
    match (flag_of(args[0]), seconds_of(args[1])) {
        (Some(cond), Some(filter)) => {
            let (output, held) = match prev {
                OpState::Timed { output, candidate, held } => {
                    if cond != candidate {
                        (output, no_time())
                    } else if filter.at_most(held.plus(dt)) {
                        (cond, held.plus(dt))
                    } else {
                        (output, held.plus(dt))
                    }
                },
                _ => (cond, no_time()),
            };
            Some((OpState::Timed { output, candidate: cond, held }, Value::Bool(output)))
        },
        _ => None,
    }
}

fn debounce_stable(args: &[Value], prev: OpState, dt: F64) -> (r: Result<
    (OpState, Value),
    EvalError,
>)
    requires
        args.len() >= 2,
    ensures
        agrees(r, debounce_step(args@, prev, dt), operand_fault(args@, Some(0))),
{
    let cond = args[0].as_bool()?;
    let filter = seconds(&args[1])?;
    let zero = F64::from_bits(0);
    let (output, held) = match prev {
        OpState::Timed { output, candidate, held } => {
            if cond != candidate {
                (output, zero)
            } else {
                let held = held.plus(dt);
                if filter.at_most(held) {
                    (cond, held)
                } else {
                    (output, held)
                }
            }
        },
        _ => (cond, zero),
    };
    Ok((OpState::Timed { output, candidate: cond, held }, Value::Bool(output)))
}

/// `Debounce.Filter(cond, response)`: the condition as a level, filtered, and
/// switched on at 0.8 and off at 0.2.
pub open spec fn debounce_filter_step(args: Seq<Value>, prev: OpState, dt: F64) -> Step {
    match (flag_of(args[0]), single_of(args[1])) {
        (Some(cond), Some(response)) => {
            let target = if cond {
                one()
            } else {
                nought()
            };
            let (prev_level, prev_out) = match prev {
                OpState::DebounceFilter { output, level } => (level, output),
                _ => (target, cond),
            };
            let level = blended(blend(response, dt.narrow()), target, prev_level);
            let output = if (F32 { bits: 0x3f4c_cccd }).at_most(level) {
                true
            } else if level.at_most(F32 { bits: 0x3e4c_cccd }) {
                false
            } else {
                prev_out
            };
            Some((OpState::DebounceFilter { output, level }, Value::Bool(output)))
        },
        _ => None,
    }
}

fn debounce_filter(args: &[Value], prev: OpState, dt: F64) -> (r: Result<
    (OpState, Value),
    EvalError,
>)
    requires
        args.len() >= 2,
    ensures
        agrees(r, debounce_filter_step(args@, prev, dt), operand_fault(args@, Some(0))),
{
    let cond = args[0].as_bool()?;
    let response = numeric_single(&args[1])?;
    let a = first_order_alpha(response, dt.narrow());
    let target = if cond {
        F32::from_bits(0x3f80_0000)
    } else {
        F32::from_bits(0)
    };
    let (prev_level, prev_out) = match prev {
        OpState::DebounceFilter { output, level } => (level, output),
        _ => (target, cond),
    };
    let level = blend_step(a, target, prev_level);
    let output = if F32::from_bits(0x3f4c_cccd).at_most(level) {
        true
    } else if level.at_most(F32::from_bits(0x3e4c_cccd)) {
        false
    } else {
        prev_out
    };
    Ok((OpState::DebounceFilter { output, level }, Value::Bool(output)))
}

/// Which changes of a number count.
#[derive(Clone, Copy, PartialEq, Eq, Structural, Debug)]
pub enum ChangeDir {
    /// Either way.
    By,
    /// Upward.
    Up,
    /// Downward.
    Down,
}

/// Whether a change is large enough and goes the right way.
pub open spec fn change_counts(dir: ChangeDir, from: M1Scalar, to: M1Scalar, delta: M1Scalar) -> bool {
    let large = at_least(size_order(change_size(from, to), delta));
    match dir {
        ChangeDir::By => large,
        ChangeDir::Up => at_least(ordered(to, from)) && large,
        ChangeDir::Down => no_more(ordered(to, from)) && large,
    }
}

fn qualifies(dir: ChangeDir, from: M1Scalar, to: M1Scalar, delta: M1Scalar) -> (r: bool)
    ensures
        r == change_counts(dir, from, to, delta),
{
    let (direction, size) = scalar_change_order(from, to, delta);
    let large = is_at_least(size);
    match dir {
        ChangeDir::By => large,
        ChangeDir::Up => is_at_least(direction) && large,
        ChangeDir::Down => is_no_more(direction) && large,
    }
}

/// `Change.By`, `.Up` and `.Down`(x, delta [, filter]): a pulse of one tick on a
/// change against the previous tick, or, with `filter`, once the change has
/// lasted that long against the value before it. The first tick gives none.
pub open spec fn change_by_step(args: Seq<Value>, prev: OpState, dt: F64, dir: ChangeDir) -> Step {
    match (args[0].scalar(), args[1].scalar(), optional_seconds(args, 2)) {
        (Some(x), Some(delta), Some(filter)) => {
            let (pulse, prev_x, held, pending) = match prev {
                OpState::ChangeBy { prev_x, held, pending } => {
                    let counts = change_counts(dir, prev_x, x, delta);
                    match filter {
                        None => (counts, x, no_time(), false),
                        Some(filter) => if counts {
                            let held = held.plus(dt);
                            let ripe = !pending && filter.at_most(held);
                            (ripe, prev_x, held, pending || ripe)
                        } else {
                            (false, x, no_time(), false)
                        },
                    }
                },
                _ => (false, x, no_time(), false),
            };
            Some((OpState::ChangeBy { prev_x, held, pending }, Value::Bool(pulse)))
        },
        _ => None,
    }
}

/// A step of `Change.By`, `.Up` or `.Down`.
pub fn change_by(args: &[Value], prev: OpState, dt: F64, dir: ChangeDir) -> (r: Result<
    (OpState, Value),
    EvalError,
>)
    requires
        args.len() >= 2,
    ensures
        agrees(r, change_by_step(args@, prev, dt, dir), operand_fault(args@, None)),
{
    let x = args[0].m1_scalar()?;
    let delta = args[1].m1_scalar()?;
    let filter = seconds_arg(args, 2)?;
    let zero = F64::from_bits(0);
    let (pulse, prev_x, held, pending) = match prev {
        OpState::ChangeBy { prev_x, held, pending } => {
            let counts = qualifies(dir, prev_x, x, delta);
            match filter {
                None => (counts, x, zero, false),
                Some(filter) => {
                    if counts {
                        let held = held.plus(dt);
                        let ripe = !pending && filter.at_most(held);
                        (ripe, prev_x, held, pending || ripe)
                    } else {
                        (false, x, zero, false)
                    }
                },
            }
        },
        _ => (false, x, zero, false),
    };
    Ok((OpState::ChangeBy { prev_x, held, pending }, Value::Bool(pulse)))
}

/// Which edges of a Boolean count.
#[derive(Clone, Copy, PartialEq, Eq, Structural, Debug)]
pub enum EdgeDir {
    /// Rising.
    To,
    /// Falling.
    From,
    /// Both.
    Either,
}

/// Whether an edge counts.
pub open spec fn edge_counts(dir: EdgeDir, from: bool, to: bool) -> bool {
    match dir {
        EdgeDir::To => !from && to,
        EdgeDir::From => from && !to,
        EdgeDir::Either => from != to,
    }
}

fn edge_matches(dir: EdgeDir, from: bool, to: bool) -> (r: bool)
    ensures
        r == edge_counts(dir, from, to),
{
    match dir {
        EdgeDir::To => !from && to,
        EdgeDir::From => from && !to,
        EdgeDir::Either => from != to,
    }
}

/// `Change.To`, `.From` and `.Either`(cond [, filter]): a pulse of one tick on a
/// matching edge, or, with `filter`, once the new level has held that long.
pub open spec fn change_edge_step(args: Seq<Value>, prev: OpState, dt: F64, dir: EdgeDir) -> Step {
    match (flag_of(args[0]), optional_seconds(args, 1)) {
        (Some(cond), Some(filter)) => {
            let (pulse, held) = match prev {
                OpState::ChangeEdge { prev, held } => match filter {
                    None => (edge_counts(dir, prev, cond), no_time()),
                    Some(filter) => if edge_counts(dir, prev, cond) {
                        (false, dt)
                    } else if no_time().less(held) && cond == prev {
                        if filter.at_most(held.plus(dt)) {
                            (true, no_time())
                        } else {
                            (false, held.plus(dt))
                        }
                    } else {
                        (false, no_time())
                    },
                },
                _ => (false, no_time()),
            };
            Some((OpState::ChangeEdge { prev: cond, held }, Value::Bool(pulse)))
        },
        _ => None,
    }
}

/// A step of `Change.To`, `.From` or `.Either`.
pub fn change_edge(args: &[Value], state: OpState, dt: F64, dir: EdgeDir) -> (r: Result<
    (OpState, Value),
    EvalError,
>)
    requires
        args.len() >= 1,
    ensures
        agrees(r, change_edge_step(args@, state, dt, dir), operand_fault(args@, Some(0))),
{
    let cond = args[0].as_bool()?;
    let filter = seconds_arg(args, 1)?;
    let zero = F64::from_bits(0);
    let (pulse, held) = match state {
        OpState::ChangeEdge { prev, held } => {
            let counts = edge_matches(dir, prev, cond);
            match filter {
                None => (counts, zero),
                Some(filter) => {
                    if counts {
                        (false, dt)
                    } else if zero.less(held) && cond == prev {
                        let held = held.plus(dt);
                        if filter.at_most(held) {
                            (true, zero)
                        } else {
                            (false, held)
                        }
                    } else {
                        (false, zero)
                    }
                },
            }
        },
        _ => (false, zero),
    };
    Ok((OpState::ChangeEdge { prev: cond, held }, Value::Bool(pulse)))
}

/// `Calculate.Stable(x, filter)`: true once `x` has not changed for `filter` seconds.
pub open spec fn calc_stable_step(args: Seq<Value>, prev: OpState, dt: F64) -> Step {
    match (args[0].scalar(), seconds_of(args[1])) {
        (Some(x), Some(filter)) => {
            let (reference, held, output) = match prev {
                OpState::ChangeBy { prev_x, held, .. } => if ordered(x, prev_x) != Some(
                    Order::Equal,
                ) {
                    (x, no_time(), false)
                } else {
                    (prev_x, held.plus(dt), filter.at_most(held.plus(dt)))
                },
                _ => (x, no_time(), false),
            };
            Some(
                (
                    OpState::ChangeBy { prev_x: reference, held, pending: output },
                    Value::Bool(output),
                ),
            )
        },
        _ => None,
    }
}

fn calc_stable(args: &[Value], prev: OpState, dt: F64) -> (r: Result<(OpState, Value), EvalError>)
    requires
        args.len() >= 2,
    ensures
        agrees(r, calc_stable_step(args@, prev, dt), operand_fault(args@, None)),
{
    let x = args[0].m1_scalar()?;
    let filter = seconds(&args[1])?;
    let zero = F64::from_bits(0);
    let (reference, held, output) = match prev {
        OpState::ChangeBy { prev_x, held, .. } => {
            if !scalar_equal(x, prev_x) {
                (x, zero, false)
            } else {
                let held = held.plus(dt);
                (prev_x, held, filter.at_most(held))
            }
        },
        _ => (x, zero, false),
    };
    Ok((OpState::ChangeBy { prev_x: reference, held, pending: output }, Value::Bool(output)))
}

/// A condition that must hold for `filter` seconds; any lapse starts anew.
pub open spec fn timed_step(cond: bool, filter: F64, dt: F64, prev: OpState) -> (OpState, Value) {
    let (candidate, held) = match prev {
        OpState::Timed { candidate, held, .. } => (candidate, held),
        _ => (false, no_time()),
    };
    let (output, held) = if cond != candidate {
        (false, no_time())
    } else {
        (cond && filter.at_most(held.plus(dt)), held.plus(dt))
    };
    (OpState::Timed { output, candidate: cond, held }, Value::Bool(output))
}

fn timed_predicate(cond: bool, filter: F64, dt: F64, prev: OpState) -> (r: (OpState, Value))
    ensures
        r == timed_step(cond, filter, dt, prev),
{
    let (candidate, held) = match prev {
        OpState::Timed { candidate, held, .. } => (candidate, held),
        _ => (false, F64::from_bits(0)),
    };
    let (output, held) = if cond != candidate {
        (false, F64::from_bits(0))
    } else {
        let held = held.plus(dt);
        (cond && filter.at_most(held), held)
    };
    (OpState::Timed { output, candidate: cond, held }, Value::Bool(output))
}

/// `Calculate.Between` and `.Beyond`(x, min, max, filter): true once `x` has been
/// inside, or outside, `[min, max]` for `filter` seconds.
pub open spec fn calc_between_step(args: Seq<Value>, prev: OpState, dt: F64, beyond: bool) -> Step {
    match (args[0].scalar(), args[1].scalar(), args[2].scalar(), seconds_of(args[3])) {
        (Some(x), Some(lo), Some(hi), Some(filter)) => {
            let inside = at_least(ordered(x, lo)) && no_more(ordered(x, hi));
            Some(timed_step(inside != beyond, filter, dt, prev))
        },
        _ => None,
    }
}

fn calc_between(args: &[Value], prev: OpState, dt: F64, beyond: bool) -> (r: Result<
    (OpState, Value),
    EvalError,
>)
    requires
        args.len() >= 4,
    ensures
        agrees(r, calc_between_step(args@, prev, dt, beyond), operand_fault(args@, None)),
{
    let x = args[0].m1_scalar()?;
    let lo = args[1].m1_scalar()?;
    let hi = args[2].m1_scalar()?;
    let filter = seconds(&args[3])?;
    let inside = is_at_least(scalar_order(x, lo)) && is_no_more(scalar_order(x, hi));
    Ok(timed_predicate(inside != beyond, filter, dt, prev))
}

/// `Calculate.Hysteresis(x, low, high, filter)`: true once `x` has been at or
/// above `high` for `filter` seconds, false once at or below `low` for as long,
/// and unchanged between.
pub open spec fn hysteresis_step(args: Seq<Value>, prev: OpState, dt: F64) -> Step {
    match (args[0].scalar(), args[1].scalar(), args[2].scalar(), seconds_of(args[3])) {
        (Some(x), Some(low), Some(high), Some(filter)) => {
            let (output, candidate, held) = match prev {
                OpState::Timed { output, candidate, held } => (output, candidate, held),
                _ => (false, false, no_time()),
            };
            let want = if at_least(ordered(x, high)) {
                Some(true)
            } else if no_more(ordered(x, low)) {
                Some(false)
            } else {
                None
            };
            let (output, candidate, held) = match want {
                None => (output, candidate, no_time()),
                Some(target) => if target == output {
                    (output, target, no_time())
                } else if target == candidate {
                    if filter.at_most(held.plus(dt)) {
                        (target, candidate, held.plus(dt))
                    } else {
                        (output, candidate, held.plus(dt))
                    }
                } else {
                    (output, target, dt)
                },
            };
            Some((OpState::Timed { output, candidate, held }, Value::Bool(output)))
        },
        _ => None,
    }
}

fn calc_hysteresis(args: &[Value], prev: OpState, dt: F64) -> (r: Result<
    (OpState, Value),
    EvalError,
>)
    requires
        args.len() >= 4,
    ensures
        agrees(r, hysteresis_step(args@, prev, dt), operand_fault(args@, None)),
{
    let x = args[0].m1_scalar()?;
    let low = args[1].m1_scalar()?;
    let high = args[2].m1_scalar()?;
    let filter = seconds(&args[3])?;
    let zero = F64::from_bits(0);
    let (output, candidate, held) = match prev {
        OpState::Timed { output, candidate, held } => (output, candidate, held),
        _ => (false, false, zero),
    };
    let want: Option<bool> = if is_at_least(scalar_order(x, high)) {
        Some(true)
    } else if is_no_more(scalar_order(x, low)) {
        Some(false)
    } else {
        None
    };
    let (output, candidate, held) = match want {
        None => (output, candidate, zero),
        Some(target) => {
            if target == output {
                (output, target, zero)
            } else if target == candidate {
                let held = held.plus(dt);
                if filter.at_most(held) {
                    (target, candidate, held)
                } else {
                    (output, candidate, held)
                }
            } else {
                (output, target, dt)
            }
        },
    };
    Ok((OpState::Timed { output, candidate, held }, Value::Bool(output)))
}

/// Whether a computed outcome is the one that is specified.
pub open spec fn settles(
    r: Result<Option<(OpState, Value)>, EvalError>,
    s: Option<Step>,
    fault: Seq<char>,
) -> bool {
    match s {
        None => r == Ok::<Option<(OpState, Value)>, EvalError>(None),
        Some(None) => r matches Err(e) && is_type_error(e, fault),
        Some(Some(p)) => r == Ok::<Option<(OpState, Value)>, EvalError>(Some(p)),
    }
}

/// A step of the filters by method name, or nothing for another name.
pub open spec fn filter_family(method: Seq<char>, args: Seq<Value>, prev: OpState, dt: F64) -> Option<Step> {
    if method == "FirstOrder"@ {
        Some(first_order_step(args, prev, dt))
    } else if method == "Maximum"@ {
        Some(extremum_step(args, prev, dt, true))
    } else if method == "Minimum"@ {
        Some(extremum_step(args, prev, dt, false))
    } else {
        None
    }
}

/// The least number of arguments by method name.
pub open spec fn filter_arity(method: Seq<char>) -> nat {
    if method == "FirstOrder"@ {
        2
    } else if method == "Maximum"@ {
        2
    } else if method == "Minimum"@ {
        2
    } else {
        0
    }
}

fn filter_needs(method: &str) -> (r: usize)
    ensures
        r == filter_arity(method@),
{
    if same(method, "FirstOrder") {
        2
    } else if same(method, "Maximum") {
        2
    } else if same(method, "Minimum") {
        2
    } else {
        0
    }
}

fn filter(method: &str, args: &[Value], prev: OpState, dt: F64) -> (r: Result<Option<(OpState, Value)>, EvalError>)
    requires
        args.len() >= filter_arity(method@),
    ensures
        settles(
            r,
            filter_family(method@, args@, prev, dt),
            operand_fault(args@, Some(2)),
        ),
{
    if same(method, "FirstOrder") {
        Ok(Some(first_order(args, prev, dt)?))
    } else if same(method, "Maximum") {
        Ok(Some(extremum(args, prev, dt, true)?))
    } else if same(method, "Minimum") {
        Ok(Some(extremum(args, prev, dt, false)?))
    } else {
        Ok(None)
    }
}

/// A step of the integral by method name, or nothing for another name.
pub open spec fn integral_family(
    method: Seq<char>,
    args: Seq<Value>,
    prev: OpState,
    dt: F64,
) -> Option<Step> {
    if method == "Normal"@ {
        Some(integral_step(args, prev, dt))
    } else {
        None
    }
}

/// The least number of arguments by method name.
pub open spec fn integral_arity(method: Seq<char>) -> nat {
    if method == "Normal"@ {
        5
    } else {
        0
    }
}

fn integral_needs(method: &str) -> (r: usize)
    ensures
        r == integral_arity(method@),
{
    if same(method, "Normal") {
        5
    } else {
        0
    }
}

fn integral(method: &str, args: &[Value], prev: OpState, dt: F64) -> (r: Result<Option<(OpState, Value)>, EvalError>)
    requires
        args.len() >= integral_arity(method@),
    ensures
        settles(
            r,
            integral_family(method@, args@, prev, dt),
            operand_fault(args@, Some(3)),
        ),
{
    if same(method, "Normal") {
        Ok(Some(integral_normal(args, prev, dt)?))
    } else {
        Ok(None)
    }
}

/// A step of the derivatives by method name, or nothing for another name.
pub open spec fn derivative_family(
    method: Seq<char>,
    args: Seq<Value>,
    prev: OpState,
    dt: F64,
) -> Option<Step> {
    if method == "Normal"@ {
        Some(derivative_step(args, prev, dt, false))
    } else if method == "Filtered"@ {
        Some(derivative_step(args, prev, dt, true))
    } else if method == "Adaptive"@ {
        Some(adaptive_step(args, prev, dt))
    } else {
        None
    }
}

/// The least number of arguments by method name.
pub open spec fn derivative_arity(method: Seq<char>) -> nat {
    if method == "Normal"@ {
        1
    } else if method == "Filtered"@ {
        1
    } else if method == "Adaptive"@ {
        3
    } else {
        0
    }
}

fn derivative_needs(method: &str) -> (r: usize)
    ensures
        r == derivative_arity(method@),
{
    if same(method, "Normal") {
        1
    } else if same(method, "Filtered") {
        1
    } else if same(method, "Adaptive") {
        3
    } else {
        0
    }
}

fn derivative(method: &str, args: &[Value], prev: OpState, dt: F64) -> (r: Result<Option<(OpState, Value)>, EvalError>)
    requires
        args.len() >= derivative_arity(method@),
    ensures
        settles(
            r,
            derivative_family(method@, args@, prev, dt),
            operand_fault(args@, None),
        ),
{
    if same(method, "Normal") {
        Ok(Some(derivative_normal(args, prev, dt, false)?))
    } else if same(method, "Filtered") {
        Ok(Some(derivative_normal(args, prev, dt, true)?))
    } else if same(method, "Adaptive") {
        Ok(Some(derivative_adaptive(args, prev, dt)?))
    } else {
        Ok(None)
    }
}

/// A step of the delays by method name, or nothing for another name.
pub open spec fn delay_family(method: Seq<char>, args: Seq<Value>, prev: OpState, dt: F64) -> Option<Step> {
    if method == "Rising"@ {
        Some(edge_delay_step(args, prev, dt, true))
    } else if method == "Falling"@ {
        Some(edge_delay_step(args, prev, dt, false))
    } else if method == "Stable"@ {
        Some(delay_stable_step(args, prev, dt))
    } else {
        None
    }
}

/// The least number of arguments by method name.
pub open spec fn delay_arity(method: Seq<char>) -> nat {
    if method == "Rising"@ {
        2
    } else if method == "Falling"@ {
        2
    } else if method == "Stable"@ {
        2
    } else {
        0
    }
}

fn delay_needs(method: &str) -> (r: usize)
    ensures
        r == delay_arity(method@),
{
    if same(method, "Rising") {
        2
    } else if same(method, "Falling") {
        2
    } else if same(method, "Stable") {
        2
    } else {
        0
    }
}

fn delay(method: &str, args: &[Value], prev: OpState, dt: F64) -> (r: Result<Option<(OpState, Value)>, EvalError>)
    requires
        args.len() >= delay_arity(method@),
    ensures
        settles(
            r,
            delay_family(method@, args@, prev, dt),
            operand_fault(args@, delay_flag(method@)),
        ),
{
    if same(method, "Rising") {
        Ok(Some(edge_delay(args, prev, dt, true)?))
    } else if same(method, "Falling") {
        Ok(Some(edge_delay(args, prev, dt, false)?))
    } else if same(method, "Stable") {
        Ok(Some(delay_stable(args, prev, dt)?))
    } else {
        Ok(None)
    }
}

/// Whether the signature of an operator is known, but not the behavior that sets it apart.
pub open spec fn lacks_evidence(object: Seq<char>, method: Seq<char>) -> bool {
    object == "Debounce"@ && (method == "Fast"@ || method == "Verify"@)
}

/// Whether the signature of an operator is known, but not the behavior that sets it apart.
pub fn is_evidence_gated(object: &str, method: &str) -> (r: bool)
    ensures
        r == lacks_evidence(object@, method@),
{
    same(object, "Debounce") && (same(method, "Fast") || same(method, "Verify"))
}

/// What is not known of the debounces that stay unsupported.
pub open spec fn missing_evidence() -> Seq<char> {
    "the catalogue does not define the transitions that set this method apart from Debounce.Stable"@
}

/// Whether a result is that of a debounce that stays unsupported: a condition and a time are
/// wanted, and then the missing evidence is named.
pub open spec fn names_gap<T>(r: Result<T, EvalError>, method: Seq<char>, args: Seq<Value>) -> bool {
    if flag_of(args[0]) is Some && seconds_of(args[1]) is Some {
        r matches Err(EvalError::UnsupportedBuiltinBehavior { object: o, method: m, reason }) && o@
            == "Debounce"@ && m@ == method && reason@ == missing_evidence()
    } else {
        r matches Err(e) && is_type_error(e, operand_fault(args, Some(0)))
    }
}

/// Refuses a debounce whose transitions are not known.
fn debounce_gap(method: &str, args: &[Value]) -> (r: Result<Option<(OpState, Value)>, EvalError>)
    requires
        args.len() >= 2,
    ensures
        names_gap(r, method@, args@),
{
    args[0].as_bool()?;
    seconds(&args[1])?;
    Err(
        EvalError::UnsupportedBuiltinBehavior {
            object: "Debounce".to_owned(),
            method: method.to_owned(),
            reason: "the catalogue does not define the transitions that set this method apart from Debounce.Stable".to_owned(),
        },
    )
}

/// A step of the debounces by method name, or nothing for another name.
pub open spec fn debounce_family(
    method: Seq<char>,
    args: Seq<Value>,
    prev: OpState,
    dt: F64,
) -> Option<Step> {
    if method == "Stable"@ {
        Some(debounce_step(args, prev, dt))
    } else if method == "Filter"@ {
        Some(debounce_filter_step(args, prev, dt))
    } else {
        None
    }
}

/// The least number of arguments by method name.
pub open spec fn debounce_arity(method: Seq<char>) -> nat {
    if method == "Stable"@ || method == "Filter"@ || method == "Fast"@ || method == "Verify"@ {
        2
    } else {
        0
    }
}

fn debounce_needs(method: &str) -> (r: usize)
    ensures
        r == debounce_arity(method@),
{
    if same(method, "Stable") || same(method, "Filter") || same(method, "Fast") || same(
        method,
        "Verify",
    ) {
        2
    } else {
        0
    }
}

fn debounce(method: &str, args: &[Value], prev: OpState, dt: F64) -> (r: Result<Option<(OpState, Value)>, EvalError>)
    requires
        args.len() >= debounce_arity(method@),
    ensures
        if lacks_evidence("Debounce"@, method@) {
            names_gap(r, method@, args@)
        } else {
            settles(
            r,
            debounce_family(method@, args@, prev, dt),
            operand_fault(args@, Some(0)),
        )
        },
{
    if is_evidence_gated("Debounce", method) {
        debounce_gap(method, args)
    } else if same(method, "Stable") {
        Ok(Some(debounce_stable(args, prev, dt)?))
    } else if same(method, "Filter") {
        Ok(Some(debounce_filter(args, prev, dt)?))
    } else {
        Ok(None)
    }
}

/// A step of the change detectors by method name, or nothing for another name.
pub open spec fn change_family(method: Seq<char>, args: Seq<Value>, prev: OpState, dt: F64) -> Option<Step> {
    if method == "By"@ {
        Some(change_by_step(args, prev, dt, ChangeDir::By))
    } else if method == "Up"@ {
        Some(change_by_step(args, prev, dt, ChangeDir::Up))
    } else if method == "Down"@ {
        Some(change_by_step(args, prev, dt, ChangeDir::Down))
    } else if method == "To"@ {
        Some(change_edge_step(args, prev, dt, EdgeDir::To))
    } else if method == "From"@ {
        Some(change_edge_step(args, prev, dt, EdgeDir::From))
    } else if method == "Either"@ {
        Some(change_edge_step(args, prev, dt, EdgeDir::Either))
    } else {
        None
    }
}

/// The least number of arguments by method name.
pub open spec fn change_arity(method: Seq<char>) -> nat {
    if method == "By"@ {
        2
    } else if method == "Up"@ {
        2
    } else if method == "Down"@ {
        2
    } else if method == "To"@ {
        1
    } else if method == "From"@ {
        1
    } else if method == "Either"@ {
        1
    } else {
        0
    }
}

fn change_needs(method: &str) -> (r: usize)
    ensures
        r == change_arity(method@),
{
    if same(method, "By") {
        2
    } else if same(method, "Up") {
        2
    } else if same(method, "Down") {
        2
    } else if same(method, "To") {
        1
    } else if same(method, "From") {
        1
    } else if same(method, "Either") {
        1
    } else {
        0
    }
}

fn change(method: &str, args: &[Value], prev: OpState, dt: F64) -> (r: Result<Option<(OpState, Value)>, EvalError>)
    requires
        args.len() >= change_arity(method@),
    ensures
        settles(
            r,
            change_family(method@, args@, prev, dt),
            operand_fault(args@, change_flag(method@)),
        ),
{
    if same(method, "By") {
        Ok(Some(change_by(args, prev, dt, ChangeDir::By)?))
    } else if same(method, "Up") {
        Ok(Some(change_by(args, prev, dt, ChangeDir::Up)?))
    } else if same(method, "Down") {
        Ok(Some(change_by(args, prev, dt, ChangeDir::Down)?))
    } else if same(method, "To") {
        Ok(Some(change_edge(args, prev, dt, EdgeDir::To)?))
    } else if same(method, "From") {
        Ok(Some(change_edge(args, prev, dt, EdgeDir::From)?))
    } else if same(method, "Either") {
        Ok(Some(change_edge(args, prev, dt, EdgeDir::Either)?))
    } else {
        Ok(None)
    }
}

/// A step of the timed predicates by method name, or nothing for another name.
pub open spec fn calculate_family(
    method: Seq<char>,
    args: Seq<Value>,
    prev: OpState,
    dt: F64,
) -> Option<Step> {
    if method == "Stable"@ {
        Some(calc_stable_step(args, prev, dt))
    } else if method == "Between"@ {
        Some(calc_between_step(args, prev, dt, false))
    } else if method == "Beyond"@ {
        Some(calc_between_step(args, prev, dt, true))
    } else if method == "Hysteresis"@ {
        Some(hysteresis_step(args, prev, dt))
    } else {
        None
    }
}

/// The least number of arguments by method name.
pub open spec fn calculate_arity(method: Seq<char>) -> nat {
    if method == "Stable"@ {
        2
    } else if method == "Between"@ {
        4
    } else if method == "Beyond"@ {
        4
    } else if method == "Hysteresis"@ {
        4
    } else {
        0
    }
}

fn calculate_needs(method: &str) -> (r: usize)
    ensures
        r == calculate_arity(method@),
{
    if same(method, "Stable") {
        2
    } else if same(method, "Between") {
        4
    } else if same(method, "Beyond") {
        4
    } else if same(method, "Hysteresis") {
        4
    } else {
        0
    }
}

fn calculate(method: &str, args: &[Value], prev: OpState, dt: F64) -> (r: Result<Option<(OpState, Value)>, EvalError>)
    requires
        args.len() >= calculate_arity(method@),
    ensures
        settles(
            r,
            calculate_family(method@, args@, prev, dt),
            operand_fault(args@, None),
        ),
{
    if same(method, "Stable") {
        Ok(Some(calc_stable(args, prev, dt)?))
    } else if same(method, "Between") {
        Ok(Some(calc_between(args, prev, dt, false)?))
    } else if same(method, "Beyond") {
        Ok(Some(calc_between(args, prev, dt, true)?))
    } else if same(method, "Hysteresis") {
        Ok(Some(calc_hysteresis(args, prev, dt)?))
    } else {
        Ok(None)
    }
}

/// One step of the operator `object.method`, or nothing where it is none of these.
pub open spec fn operate(
    object: Seq<char>,
    method: Seq<char>,
    args: Seq<Value>,
    prev: OpState,
    dt: F64,
) -> Option<Step> {
    if object == "Filter"@ {
        filter_family(method, args, prev, dt)
    } else if object == "Integral"@ {
        integral_family(method, args, prev, dt)
    } else if object == "Derivative"@ {
        derivative_family(method, args, prev, dt)
    } else if object == "Delay"@ {
        delay_family(method, args, prev, dt)
    } else if object == "Debounce"@ {
        debounce_family(method, args, prev, dt)
    } else if object == "Change"@ {
        change_family(method, args, prev, dt)
    } else if object == "Calculate"@ {
        calculate_family(method, args, prev, dt)
    } else {
        None
    }
}

/// The place of the operand of a delay that is wanted as a Boolean.
pub open spec fn delay_flag(method: Seq<char>) -> Option<int> {
    if method == "Rising"@ || method == "Falling"@ {
        Some(0)
    } else {
        None
    }
}

/// The place of the operand of a change detector that is wanted as a Boolean.
pub open spec fn change_flag(method: Seq<char>) -> Option<int> {
    if method == "By"@ || method == "Up"@ || method == "Down"@ {
        None
    } else {
        Some(0)
    }
}

/// The place of the operand of `object.method` that is wanted as a Boolean.
pub open spec fn flag_place(object: Seq<char>, method: Seq<char>) -> Option<int> {
    if object == "Filter"@ {
        Some(2)
    } else if object == "Integral"@ {
        Some(3)
    } else if object == "Derivative"@ {
        None
    } else if object == "Delay"@ {
        delay_flag(method)
    } else if object == "Debounce"@ {
        Some(0)
    } else if object == "Change"@ {
        change_flag(method)
    } else {
        None
    }
}

/// The least number of arguments of `object.method`.
pub open spec fn least_arity(object: Seq<char>, method: Seq<char>) -> nat {
    if object == "Filter"@ {
        filter_arity(method)
    } else if object == "Integral"@ {
        integral_arity(method)
    } else if object == "Derivative"@ {
        derivative_arity(method)
    } else if object == "Delay"@ {
        delay_arity(method)
    } else if object == "Debounce"@ {
        debounce_arity(method)
    } else if object == "Change"@ {
        change_arity(method)
    } else if object == "Calculate"@ {
        calculate_arity(method)
    } else {
        0
    }
}

/// The least number of arguments of `object.method`.
pub fn arity_of(object: &str, method: &str) -> (r: usize)
    ensures
        r == least_arity(object@, method@),
{
    if same(object, "Filter") {
        filter_needs(method)
    } else if same(object, "Integral") {
        integral_needs(method)
    } else if same(object, "Derivative") {
        derivative_needs(method)
    } else if same(object, "Delay") {
        delay_needs(method)
    } else if same(object, "Debounce") {
        debounce_needs(method)
    } else if same(object, "Change") {
        change_needs(method)
    } else if same(object, "Calculate") {
        calculate_needs(method)
    } else {
        0
    }
}

fn advance(object: &str, method: &str, args: &[Value], prev: OpState, dt: F64) -> (r: Result<Option<(OpState, Value)>, EvalError>)
    requires
        args.len() >= least_arity(object@, method@),
    ensures
        if lacks_evidence(object@, method@) {
            names_gap(r, method@, args@)
        } else {
            settles(
                r,
                operate(object@, method@, args@, prev, dt),
                operand_fault(args@, flag_place(object@, method@)),
            )
        },
{
    proof {
        reveal_strlit("Debounce");
        reveal_strlit("Filter");
        reveal_strlit("Integral");
        reveal_strlit("Derivative");
        reveal_strlit("Delay");
        assert("Debounce"@.len() == 8 && "Debounce"@[0] == 'D' && "Integral"@[0] == 'I');
        assert("Filter"@.len() == 6 && "Derivative"@.len() == 10 && "Delay"@.len() == 5);
    }
    if same(object, "Filter") {
        filter(method, args, prev, dt)
    } else if same(object, "Integral") {
        integral(method, args, prev, dt)
    } else if same(object, "Derivative") {
        derivative(method, args, prev, dt)
    } else if same(object, "Delay") {
        delay(method, args, prev, dt)
    } else if same(object, "Debounce") {
        debounce(method, args, prev, dt)
    } else if same(object, "Change") {
        change(method, args, prev, dt)
    } else if same(object, "Calculate") {
        calculate(method, args, prev, dt)
    } else {
        Ok(None)
    }
}

/// Evaluates one stateful builtin call at a call site. Gives `None` where
/// `object.method` is no operator of this module; the state is then untouched. An operator
/// whose behavior is not known is refused after its arguments are looked at.
pub fn call(
    object: &str,
    method: &str,
    args: &[Value],
    site: CallSite,
    state: &mut StateStore,
    dt: F64,
) -> (r: Result<Option<Value>, EvalError>)
    requires
        args.len() >= least_arity(object@, method@),
    ensures
        lacks_evidence(object@, method@) ==> names_gap(r, method@, args@) && *final(state)
            == *old(state),
        !lacks_evidence(object@, method@) ==> match operate(
            object@,
            method@,
            args@,
            old(state).current(site.key()),
            dt,
        ) {
            None => r == Ok::<Option<Value>, EvalError>(None) && *final(state) == *old(state),
            Some(None) => (r matches Err(e) && is_type_error(
                e,
                operand_fault(args@, flag_place(object@, method@)),
            )) && *final(state) == *old(state),
            Some(Some((next, value))) => r == Ok::<Option<Value>, EvalError>(Some(value))
                && final(state)@ == old(state)@.insert(site.key(), next),
        },
{
    let prev: OpState = match state.get(&site) {
        Some(s) => *s,
        None => OpState::Uninit,
    };
    match advance(object, method, args, prev, dt) {
        Ok(Some((next, value))) => {
            let slot = state.entry(site);
            *slot = next;
            Ok(Some(value))
        },
        Ok(None) => Ok(None),
        Err(e) => Err(e),
    }
}

/// One step of a countdown: `Start` loads it, `Stop` halts it, `Reset` clears it,
/// and `Remaining` takes one time step off a running one and reads it.
pub open spec fn timer_step(method: Seq<char>, args: Seq<Value>, prev: OpState, dt: F64) -> Option<Step> {
    let (remaining, running) = match prev {
        OpState::Timer { remaining, running } => (remaining, running),
        _ => (no_time(), false),
    };
    if method == "Start"@ {
        match seconds_of(args[0]) {
            Some(t) => Some(
                Some((OpState::Timer { remaining: t.max(no_time()), running: true }, Value::Bool(true))),
            ),
            None => Some(None),
        }
    } else if method == "Stop"@ {
        Some(Some((OpState::Timer { remaining, running: false }, Value::Bool(true))))
    } else if method == "Reset"@ {
        Some(Some((OpState::Timer { remaining: no_time(), running: false }, Value::Bool(true))))
    } else if method == "Remaining"@ {
        let left = if running {
            remaining.minus(dt).max(no_time())
        } else {
            remaining
        };
        Some(
            Some(
                (
                    OpState::Timer { remaining: left, running: running && !left.equals(no_time()) },
                    float_value(left.narrow()),
                ),
            ),
        )
    } else {
        None
    }
}

/// Evaluates a `Timer` method. All methods of one timer share one countdown, so
/// the state is keyed by the object. Gives `None` for any other method.
pub fn timer(
    method: &str,
    args: &[Value],
    object_key: CallSite,
    state: &mut StateStore,
    dt: F64,
) -> (r: Result<Option<Value>, EvalError>)
    requires
        method@ == "Start"@ ==> args.len() >= 1,
    ensures
        match timer_step(method@, args@, old(state).current(object_key.key()), dt) {
            None => r == Ok::<Option<Value>, EvalError>(None) && *final(state) == *old(state),
            Some(None) => (r matches Err(e) && is_type_error(e, not_numeric())) && final(state)@ == old(
                state,
            )@.insert(
                object_key.key(),
                old(state).current(object_key.key()),
            ),
            Some(Some((next, value))) => r == Ok::<Option<Value>, EvalError>(Some(value))
                && final(state)@ == old(state)@.insert(object_key.key(), next),
        },
{
    let start = same(method, "Start");
    let stop = same(method, "Stop");
    let reset = same(method, "Reset");
    let read = same(method, "Remaining");
    if !(start || stop || reset || read) {
        return Ok(None);
    }
    let zero = F64::from_bits(0);
    let slot = state.entry(object_key);
    let (remaining, running) = match *slot {
        OpState::Timer { remaining, running } => (remaining, running),
        _ => (zero, false),
    };
    if start {
        match seconds(&args[0]) {
            Ok(t) => {
                *slot = OpState::Timer { remaining: t.max(zero), running: true };
                Ok(Some(Value::Bool(true)))
            },
            Err(e) => Err(e),
        }
    } else if stop {
        *slot = OpState::Timer { remaining, running: false };
        Ok(Some(Value::Bool(true)))
    } else if reset {
        *slot = OpState::Timer { remaining: zero, running: false };
        Ok(Some(Value::Bool(true)))
    } else {
        let left = if running {
            remaining.minus(dt).max(zero)
        } else {
            remaining
        };
        *slot = OpState::Timer { remaining: left, running: running && !left.equals(zero) };
        Ok(Some(Value::m1_float(left.narrow())))
    }
}

} // verus!
