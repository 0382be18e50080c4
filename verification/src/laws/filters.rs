//! What the filters, integrals and derivatives hold to, in exact values.

use crate::builtins::scalars::single_of;
use crate::builtins::stateful::{
    derivative_step, extremum_step, first_order_step, float_value, integral_step, operate,
};
use crate::env::OpState;
use crate::float::binary32::F32;
use crate::float::binary64::F64;
use crate::float::exact::{
    law_single_arithmetic, law_single_order, lemma_constants, lemma_decimal_constants,
    lemma_single_operands, lemma_single_rounding, lemma_single_within_reach, reach, size, slack,
    smallest,
};
use crate::float::num::Format;
use crate::laws::bounds::{lemma_blended, lemma_scaled, play, share};
use crate::value::Value;
use vstd::prelude::*;

verus! {

/// The names of the filters and derivatives tell them apart.
pub(crate) proof fn lemma_filter_methods(args: Seq<Value>, prev: OpState, dt: F64)
    ensures
        operate("Filter"@, "FirstOrder"@, args, prev, dt) == Some(first_order_step(args, prev, dt)),
        operate("Filter"@, "Maximum"@, args, prev, dt) == Some(extremum_step(args, prev, dt, true)),
        operate("Filter"@, "Minimum"@, args, prev, dt) == Some(extremum_step(args, prev, dt, false)),
        operate("Integral"@, "Normal"@, args, prev, dt) == Some(integral_step(args, prev, dt)),
        operate("Derivative"@, "Normal"@, args, prev, dt) == Some(
            derivative_step(args, prev, dt, false),
        ),
        operate("Derivative"@, "Filtered"@, args, prev, dt) == Some(
            derivative_step(args, prev, dt, true),
        ),
        operate("Derivative"@, "Adaptive"@, args, prev, dt) == Some(
            crate::builtins::stateful::adaptive_step(args, prev, dt),
        ),
{
    reveal_strlit("Filter");
    reveal_strlit("Integral");
    reveal_strlit("Derivative");
    reveal_strlit("FirstOrder");
    reveal_strlit("Maximum");
    reveal_strlit("Minimum");
    reveal_strlit("Normal");
    reveal_strlit("Filtered");
    reveal_strlit("Adaptive");
    assert("Filter"@.len() == 6 && "Integral"@.len() == 8 && "Derivative"@.len() == 10);
    assert("FirstOrder"@.len() == 10 && "Maximum"@.len() == 7 && "Minimum"@.len() == 7);
    assert("Maximum"@[1] == 'a' && "Minimum"@[1] == 'i');
    assert("Normal"@.len() == 6 && "Filtered"@.len() == 8 && "Adaptive"@.len() == 8);
    assert("Filtered"@[0] == 'F' && "Adaptive"@[0] == 'A');
}

/// Whether a filter takes an input and a time constant and is not reset.
pub open spec fn takes(args: Seq<Value>, x: F32, tc: F32) -> bool {
    &&& args.len() == 2 || args.len() == 3 && args[2] == Value::Bool(false)
    &&& single_of(args[0]) == Some(x)
    &&& single_of(args[1]) == Some(tc)
}

/// Whether numbers are those of a filter at work: a previous output, a time constant that is not
/// negative and a step that is positive.
pub open spec fn at_work(x: F32, p: F32, tc: F32, step: F32) -> bool {
    &&& x.is_finite() && p.is_finite() && tc.is_finite() && step.is_finite()
    &&& tc.exact() >= 0real && step.exact() > 0real
    &&& tc.exact() + step.exact() < reach(Format::Binary32)
}

/// The weighted mean of an input and a previous output: the input has the weight of the step,
/// and the previous output that of the time constant.
pub open spec fn weighted(x: real, p: real, tc: real, step: real) -> real {
    (step * x + tc * p) / (tc + step)
}

pub(crate) proof fn lemma_weighted(x: real, p: real, tc: real, step: real)
    requires
        tc >= 0real,
        step > 0real,
    ensures
        ({
            let s = share(step, 0real, tc + step);
            &&& 0real < s <= 1real
            &&& s * x + (1real - s) * p == weighted(x, p, tc, step)
            &&& weighted(x, p, tc, step) - p == s * (x - p)
            &&& tc >= step ==> s <= 1real / 2real
            &&& size(weighted(x, p, tc, step) - p) <= size(x - p)
        }),
{
    let d = tc + step;
    let s = step / d;
    assert(share(step, 0real, d) == s);
    assert(0real < s <= 1real && s * d == step && (tc >= step ==> s <= 1real / 2real))
        by (nonlinear_arith)
        requires
            tc >= 0real,
            step > 0real,
            d == tc + step,
            s == step / d,
    ;
    let v = s * x + (1real - s) * p;
    let w = step * x + tc * p;
    assert(v * d == w) by (nonlinear_arith)
        requires
            s * d == step,
            d == tc + step,
            v == s * x + (1real - s) * p,
            w == step * x + tc * p,
    {
        assert(v * d == (s * d) * x + (d - s * d) * p);
    }
    assert(v == w / d) by (nonlinear_arith)
        requires
            v * d == w,
            d > 0real,
    ;
    assert(v - p == s * (x - p)) by (nonlinear_arith)
        requires
            v == s * x + (1real - s) * p,
    ;
    lemma_scaled(s, x - p, 1real);
}

/// A first-order filter at work gives the weighted mean of its input and its previous output,
/// within rounding. Where the time constant is no less than the step, the output is no nearer to
/// the input than to the previous output.
pub proof fn law_first_order_is_a_weighted_mean(args: Seq<Value>, x: F32, p: F32, tc: F32, dt: F64)
    requires
        takes(args, x, tc),
        at_work(x, p, tc, dt.narrow()),
    ensures
        operate("Filter"@, "FirstOrder"@, args, OpState::Filter { y: p }, dt) matches Some(
            Some((OpState::Filter { y }, v)),
        ) && v == float_value(y) && (y.is_finite() ==> {
            let t = play(x.exact(), p.exact());
            &&& size(
                y.exact() - weighted(x.exact(), p.exact(), tc.exact(), dt.narrow().exact()),
            ) <= t
            &&& tc.exact() >= dt.narrow().exact() ==> size(y.exact() - p.exact()) <= size(
                y.exact() - x.exact(),
            ) + 2real * t
        }),
{
    lemma_filter_methods(args, OpState::Filter { y: p }, dt);
    let step = dt.narrow();
    lemma_single_within_reach(tc, step);
    lemma_weighted(x.exact(), p.exact(), tc.exact(), step.exact());
    let y = first_order_step(args, OpState::Filter { y: p }, dt)->Some_0.0->Filter_y;
    if y.is_finite() {
        lemma_blended(x, p, tc, step);
        let s = share(step.exact(), 0real, tc.exact() + step.exact());
        let m = x.exact() - p.exact();
        assert((m >= 0real ==> 0real <= s * m) && (m <= 0real ==> s * m <= 0real) && (s <= 1real
            / 2real ==> size(s * m) <= size(m) / 2real)) by (nonlinear_arith)
            requires
                0real <= s,
        ;
    }
}

/// Of two first-order filters with the same input and previous output, the one with the greater
/// time constant stays no further from the previous output, within rounding.
pub proof fn law_slower_filters_lag(
    slow: Seq<Value>,
    fast: Seq<Value>,
    x: F32,
    p: F32,
    tc_slow: F32,
    tc_fast: F32,
    dt: F64,
)
    requires
        takes(slow, x, tc_slow),
        takes(fast, x, tc_fast),
        at_work(x, p, tc_slow, dt.narrow()),
        at_work(x, p, tc_fast, dt.narrow()),
        tc_slow.exact() >= tc_fast.exact(),
    ensures
        (operate("Filter"@, "FirstOrder"@, slow, OpState::Filter { y: p }, dt), operate(
            "Filter"@,
            "FirstOrder"@,
            fast,
            OpState::Filter { y: p },
            dt,
        )) matches (
            Some(Some((OpState::Filter { y: a }, _))),
            Some(Some((OpState::Filter { y: b }, _))),
        ) && (a.is_finite() && b.is_finite() ==> size(a.exact() - p.exact()) <= size(
            b.exact() - p.exact(),
        ) + 2real * play(x.exact(), p.exact())),
{
    law_first_order_is_a_weighted_mean(slow, x, p, tc_slow, dt);
    law_first_order_is_a_weighted_mean(fast, x, p, tc_fast, dt);
    let h = dt.narrow().exact();
    let (c, d) = (tc_slow.exact(), tc_fast.exact());
    lemma_weighted(x.exact(), p.exact(), c, h);
    lemma_weighted(x.exact(), p.exact(), d, h);
    let (s, f) = (share(h, 0real, c + h), share(h, 0real, d + h));
    assert(s <= f) by (nonlinear_arith)
        requires
            s == h / (c + h),
            f == h / (d + h),
            c >= d,
            d >= 0real,
            h > 0real,
    ;
    let m = x.exact() - p.exact();
    assert(size(s * m) <= size(f * m)) by (nonlinear_arith)
        requires
            0real <= s <= f,
    ;
}

/// A maximum filter at work follows an input that is no less than its previous output at once,
/// and falls toward a lesser one as a first-order filter does; a minimum filter does the
/// contrary.
pub proof fn law_extremum_filters(args: Seq<Value>, x: F32, p: F32, tc: F32, dt: F64, maximum: bool)
    requires
        takes(args, x, tc),
        at_work(x, p, tc, dt.narrow()),
    ensures
        operate(
            "Filter"@,
            if maximum {
                "Maximum"@
            } else {
                "Minimum"@
            },
            args,
            OpState::Filter { y: p },
            dt,
        ) matches Some(Some((OpState::Filter { y }, v))) && v == float_value(y) && {
            let follows = if maximum {
                x.exact() >= p.exact()
            } else {
                x.exact() <= p.exact()
            };
            &&& follows ==> y == x
            &&& !follows && y.is_finite() ==> size(
                y.exact() - weighted(x.exact(), p.exact(), tc.exact(), dt.narrow().exact()),
            ) <= play(x.exact(), p.exact())
        },
{
    lemma_filter_methods(args, OpState::Filter { y: p }, dt);
    let step = dt.narrow();
    lemma_single_within_reach(tc, step);
    law_single_order(p, x);
    law_single_order(x, p);
    lemma_weighted(x.exact(), p.exact(), tc.exact(), step.exact());
    let y = extremum_step(args, OpState::Filter { y: p }, dt, maximum)->Some_0.0->Filter_y;
    if y.is_finite() {
        if maximum && x.exact() < p.exact() || !maximum && p.exact() < x.exact() {
            lemma_blended(x, p, tc, step);
        }
    }
}

/// A value held within bounds.
pub open spec fn held(v: real, lo: real, hi: real) -> real {
    if v < lo {
        lo
    } else if v > hi {
        hi
    } else {
        v
    }
}

/// Whether an integral takes an input and bounds in order.
pub open spec fn integrates(args: Seq<Value>, x: F32, lo: F32, hi: F32, reset: bool, preset: F32) -> bool {
    &&& args.len() == 5
    &&& single_of(args[0]) == Some(x)
    &&& single_of(args[1]) == Some(lo)
    &&& single_of(args[2]) == Some(hi)
    &&& args[3] == Value::Bool(reset)
    &&& single_of(args[4]) == Some(preset)
    &&& x.is_finite() && lo.is_finite() && hi.is_finite() && preset.is_finite()
    &&& lo.exact() <= hi.exact()
}

/// An integral starts at zero and restarts at its preset, each held within the bounds.
pub proof fn law_integral_starts(
    args: Seq<Value>,
    x: F32,
    lo: F32,
    hi: F32,
    reset: bool,
    preset: F32,
    prev: OpState,
    dt: F64,
)
    requires
        integrates(args, x, lo, hi, reset, preset),
        reset || !(prev is Integral),
    ensures
        operate("Integral"@, "Normal"@, args, prev, dt) matches Some(
            Some((OpState::Integral { acc, prev_x }, v)),
        ) && v == float_value(acc) && prev_x == x && acc.is_finite() && acc.exact() == held(
            if reset {
                preset.exact()
            } else {
                0real
            },
            lo.exact(),
            hi.exact(),
        ),
{
    lemma_filter_methods(args, prev, dt);
    lemma_constants();
    let v = if reset { preset } else { F32 { bits: 0 } };
    law_single_order(v, lo);
    law_single_order(v.max(lo), hi);
}

/// What a trapezoid is off by at most.
pub open spec fn area_play(acc: real, sum: real, step: real) -> real {
    (size(acc) + size(sum) * step) / 1048576real + 4real * smallest(Format::Binary32) * (1real + step)
}

/// An integral at work grows by the area of the trapezoid between its last two inputs: their
/// mean times the step, within rounding and held within the bounds.
pub proof fn law_integral_is_trapezoidal(
    args: Seq<Value>,
    x: F32,
    lo: F32,
    hi: F32,
    preset: F32,
    acc: F32,
    prev_x: F32,
    dt: F64,
)
    requires
        integrates(args, x, lo, hi, false, preset),
        acc.is_finite(),
        prev_x.is_finite(),
        dt.narrow().is_finite(),
        dt.narrow().exact() >= 0real,
        acc.plus(
            x.plus(prev_x).times(F32 { bits: 0x3f00_0000 }).times(dt.narrow()),
        ).is_finite(),
    ensures
        operate("Integral"@, "Normal"@, args, OpState::Integral { acc, prev_x }, dt) matches Some(
            Some((OpState::Integral { acc: next, prev_x: kept }, v)),
        ) && v == float_value(next) && kept == x && next.is_finite() && ({
            let h = dt.narrow().exact();
            let sum = x.exact() + prev_x.exact();
            size(
                next.exact() - held(acc.exact() + sum / 2real * h, lo.exact(), hi.exact()),
            ) <= area_play(acc.exact(), sum, h)
        }),
{
    lemma_filter_methods(args, OpState::Integral { acc, prev_x }, dt);
    lemma_constants();
    lemma_single_rounding();
    let half = F32 { bits: 0x3f00_0000 };
    let step = dt.narrow();
    let s = x.plus(prev_x);
    let m = s.times(half);
    let w = m.times(step);
    let v = acc.plus(w);
    lemma_single_operands(acc, w);
    lemma_single_operands(m, step);
    lemma_single_operands(s, half);
    law_single_arithmetic(x, prev_x);
    law_single_arithmetic(s, half);
    law_single_arithmetic(m, step);
    law_single_arithmetic(acc, w);
    law_single_order(v, lo);
    law_single_order(v.max(lo), hi);
    let h = step.exact();
    let sum = x.exact() + prev_x.exact();
    let t = smallest(Format::Binary32);
    lemma_area(sum, s.exact(), m.exact(), w.exact(), acc.exact(), v.exact(), h, t);
}

proof fn lemma_area(sum: real, s: real, m: real, w: real, acc: real, v: real, h: real, t: real)
    requires
        h >= 0real,
        t > 0real,
        size(s - sum) <= size(sum) / 16777216real,
        size(m - s * (1real / 2real)) <= size(s * (1real / 2real)) / 16777216real + t,
        size(w - m * h) <= size(m * h) / 16777216real + t,
        size(v - (acc + w)) <= size(acc + w) / 16777216real,
    ensures
        size(v - (acc + sum / 2real * h)) <= (size(acc) + size(sum) * h) / 1048576real + 4real * t * (
        1real + h),
{
    let k = size(sum);
    let e = 2real * (k / 16777216real) + t;
    assert(size(m - sum / 2real) <= e);
    lemma_scaled(m - sum / 2real, h, e);
    assert(size(h) == h);
    let (a, b, c) = ((m - sum / 2real) * h, sum / 2real * h, m * h);
    assert(c == a + b) by (nonlinear_arith)
        requires
            a == (m - sum / 2real) * h,
            b == sum / 2real * h,
            c == m * h,
    ;
    lemma_scaled(sum / 2real, h, k / 2real);
    let n = k * h;
    let u = t * h;
    assert(e * h == 2real * (n / 16777216real) + u && k / 2real * h == n / 2real && n >= 0real && u
        >= 0real && 4real * t * (1real + h) == 4real * t + 4real * u) by (nonlinear_arith)
        requires
            e == 2real * (k / 16777216real) + t,
            n == k * h,
            u == t * h,
            k >= 0real,
            h >= 0real,
            t > 0real,
    ;
    assert(size(a) <= 2real * (n / 16777216real) + u);
    assert(size(b) <= n / 2real);
    assert(size(c) <= n + u);
    assert(size(w - b) <= 3real * (n / 16777216real) + 2real * u + t);
    assert(size(acc + w) <= size(acc) + n + 2real * u + t);
}

/// A derivative at work is the change of its input for each second of the step, within rounding.
pub proof fn law_derivative_is_a_difference_quotient(args: Seq<Value>, x: F32, prev_x: F32, prev_d: F32, dt: F64)
    requires
        args.len() >= 1,
        single_of(args[0]) == Some(x),
        x.is_finite(),
        prev_x.is_finite(),
        dt.narrow().is_finite(),
        dt.narrow().exact() > 0real,
    ensures
        operate("Derivative"@, "Normal"@, args, OpState::Derivative { prev_x, prev_d }, dt) matches Some(
            Some((OpState::Derivative { prev_x: kept, prev_d: d }, v)),
        ) && kept == x && v == float_value(d) && (d.is_finite() ==> {
            let rate = (x.exact() - prev_x.exact()) / dt.narrow().exact();
            size(d.exact() - rate) <= 4real * slack(rate)
        }),
{
    lemma_filter_methods(args, OpState::Derivative { prev_x, prev_d }, dt);
    let step = dt.narrow();
    let n = x.minus(prev_x);
    lemma_constants();
    law_single_order(F32 { bits: 0 }, step);
    if n.over(step).is_finite() {
        lemma_rate(x, prev_x, step);
    }
}

pub(crate) proof fn lemma_rate(x: F32, prev_x: F32, step: F32)
    requires
        x.is_finite(),
        prev_x.is_finite(),
        step.is_finite(),
        step.exact() > 0real,
        x.minus(prev_x).over(step).is_finite(),
    ensures
        size(
            x.minus(prev_x).over(step).exact() - (x.exact() - prev_x.exact()) / step.exact(),
        ) <= 4real * slack((x.exact() - prev_x.exact()) / step.exact()),
{
    let n = x.minus(prev_x);
    lemma_single_operands(n, step);
    law_single_arithmetic(x, prev_x);
    law_single_arithmetic(n, step);
    lemma_single_rounding();
    let (e, h) = (x.exact() - prev_x.exact(), step.exact());
    let (r, q) = (e / h, n.exact() / h);
    assert(size(q - r) <= size(r) / 16777216real) by (nonlinear_arith)
        requires
            size(n.exact() - e) <= size(e) / 16777216real,
            r == e / h,
            q == n.exact() / h,
            h > 0real,
    {
        assert(q * h == n.exact() && r * h == e);
        assert(size((q - r) * h) == size(q - r) * h);
        assert(size(r * h) == size(r) * h);
        assert((q - r) * h == n.exact() - e);
    }
}

/// A filtered derivative is the weighted mean of the change of its input for each second and of
/// its previous output, by a time constant of a tenth of a second.
pub proof fn law_filtered_derivative(args: Seq<Value>, x: F32, prev_x: F32, prev_d: F32, dt: F64)
    requires
        args.len() >= 1,
        single_of(args[0]) == Some(x),
        x.is_finite(),
        prev_x.is_finite(),
        prev_d.is_finite(),
        dt.narrow().is_finite(),
        0real < dt.narrow().exact() <= 1000000real,
    ensures
        operate("Derivative"@, "Filtered"@, args, OpState::Derivative { prev_x, prev_d }, dt) matches Some(
            Some((OpState::Derivative { prev_x: kept, prev_d: d }, v)),
        ) && kept == x && v == float_value(d) && (d.is_finite() ==> exists|raw: F32, tc: F32|
            #![trigger raw.exact(), tc.exact()]
            {
                let rate = (x.exact() - prev_x.exact()) / dt.narrow().exact();
                &&& raw.is_finite() && size(raw.exact() - rate) <= 4real * slack(rate)
                &&& tc.is_finite() && size(tc.exact() - 1real / 10real) <= 1real / 100000000real
                &&& size(
                    d.exact() - weighted(raw.exact(), prev_d.exact(), tc.exact(), dt.narrow().exact()),
                ) <= play(raw.exact(), prev_d.exact())
            }),
{
    lemma_filter_methods(args, OpState::Derivative { prev_x, prev_d }, dt);
    let step = dt.narrow();
    let raw = x.minus(prev_x).over(step);
    let tc = F32 { bits: 0x3dcc_cccd };
    lemma_constants();
    lemma_decimal_constants();
    law_single_order(F32 { bits: 0 }, step);
    let prev = OpState::Derivative { prev_x, prev_d };
    let d = derivative_step(args, prev, dt, true)->Some_0.0->Derivative_prev_d;
    if d.is_finite() {
        let a = crate::builtins::stateful::blend(tc, step);
        let b = (F32 { bits: 0x3f80_0000 }).minus(a);
        lemma_single_operands(a.times(raw), b.times(prev_d));
        lemma_single_operands(a, raw);
        lemma_rate(x, prev_x, step);
        assert(reach(Format::Binary32) > 1000001real) by {
            vstd::arithmetic::power2::lemma_pow2_strictly_increases(30, 127);
            vstd::arithmetic::power2::lemma2_to64();
        }
        lemma_single_within_reach(tc, step);
        lemma_blended(raw, prev_d, tc, step);
        lemma_weighted(raw.exact(), prev_d.exact(), tc.exact(), step.exact());
        assert(raw.is_finite() && tc.is_finite());
    }
}

} // verus!
