//! What the comparisons of runs hold to.

use crate::conformance::{float_mismatch, optional_bound, ValueTolerance};
use crate::diff::{compared, greatest, mismatches};
use crate::float::binary32::F32;
use crate::float::binary64::F64;
use crate::float::exact::{
    fine_slack, law_double_arithmetic, law_double_order, law_widening_is_exact,
    lemma_double_rounding, size,
};
use crate::float::num::{opposite, sum, value, Format, Num};
use vstd::prelude::*;

verus! {

/// Whether both columns have a finite number on a tick.
pub open spec fn both_finite(logged: Seq<F64>, counterfactual: Seq<F64>, i: int) -> bool {
    logged[i].is_finite() && counterfactual[i].is_finite()
}

/// The difference of finite numbers is a number, and its magnitude is positive or zero.
proof fn lemma_difference(a: F64, b: F64)
    requires
        a.is_finite(),
        b.is_finite(),
    ensures
        !b.minus(a).abs().is_nan(),
        !b.minus(a).abs().num().neg,
{
    reveal(F64::spec_plus);
    crate::float::num::lemma_format(Format::Binary64);
}

/// The greatest delta of some ticks is a number, bounds each of them, and is one of them or zero.
proof fn lemma_greatest(a: Seq<F64>, b: Seq<F64>, n: nat)
    requires
        n <= a.len(),
        n <= b.len(),
    ensures
        !greatest(a, b, n).is_nan(),
        !greatest(a, b, n).num().neg,
        forall|i: int| 0 <= i < n && both_finite(a, b, i) ==> (#[trigger] b[i].minus(
            a[i],
        ).abs()).at_most(greatest(a, b, n)),
        greatest(a, b, n) == (F64 { bits: 0 }) || exists|i: int|
            0 <= i < n && both_finite(a, b, i) && greatest(a, b, n) == #[trigger] b[i].minus(
                a[i],
            ).abs(),
    decreases n,
{
    if n > 0 {
        let k = n - 1;
        lemma_greatest(a, b, k as nat);
        if both_finite(a, b, k) {
            lemma_difference(a[k], b[k]);
            let (g, d) = (greatest(a, b, k as nat), b[k].minus(a[k]).abs());
            assert(greatest(a, b, n) == g.max(d));
            assert(g.at_most(g.max(d)) && d.at_most(g.max(d)));
            assert(g.max(d) == g || g.max(d) == d);
        }
    }
}

/// The greatest delta of a channel bounds the difference of its sides on every tick where both
/// are finite, whichever is the greater, and is zero or the size of one of those differences.
pub proof fn law_greatest_delta(logged: Seq<F64>, counterfactual: Seq<F64>, eps: F64)
    ensures
        ({
            let d = compared(logged, counterfactual, eps);
            &&& !d.max_abs_delta.is_nan() && !d.max_abs_delta.less(F64 { bits: 0 })
            &&& forall|i: int|
                0 <= i < logged.len() && i < counterfactual.len() && both_finite(
                    logged,
                    counterfactual,
                    i,
                ) ==> (#[trigger] counterfactual[i].minus(logged[i]).abs()).at_most(d.max_abs_delta)
            &&& d.max_abs_delta == (F64 { bits: 0 }) || exists|i: int|
                0 <= i < logged.len() && i < counterfactual.len() && both_finite(
                    logged,
                    counterfactual,
                    i,
                ) && d.max_abs_delta == #[trigger] counterfactual[i].minus(logged[i]).abs()
        }),
{
    let n = crate::diff::shorter(logged.len(), counterfactual.len());
    lemma_greatest(logged, counterfactual, n);
}

/// In exact values: no tick on which both sides are finite has them further apart than the
/// greatest delta, within rounding.
pub proof fn law_greatest_delta_is_a_bound(logged: Seq<F64>, counterfactual: Seq<F64>, eps: F64, i: int)
    requires
        0 <= i < logged.len(),
        i < counterfactual.len(),
        both_finite(logged, counterfactual, i),
        compared(logged, counterfactual, eps).max_abs_delta.is_finite(),
    ensures
        ({
            let d = compared(logged, counterfactual, eps);
            let apart = counterfactual[i].exact() - logged[i].exact();
            size(apart) <= d.max_abs_delta.exact() + fine_slack(apart)
        }),
{
    law_greatest_delta(logged, counterfactual, eps);
    let (a, b) = (logged[i], counterfactual[i]);
    let m = compared(logged, counterfactual, eps).max_abs_delta;
    lemma_difference(a, b);
    assert(b.minus(a).abs().at_most(m));
    assert(b.minus(a).is_finite());
    law_double_arithmetic(b, a);
    law_double_order(b.minus(a), a);
    law_double_order(b.minus(a).abs(), m);
    lemma_double_rounding();
}

/// The deltas of a channel are what the counterfactual run has more than the log, tick by tick.
pub proof fn law_deltas(logged: Seq<F64>, counterfactual: Seq<F64>, eps: F64, i: int)
    requires
        0 <= i < logged.len(),
        i < counterfactual.len(),
        both_finite(logged, counterfactual, i),
        compared(logged, counterfactual, eps).delta[i].is_finite(),
    ensures
        ({
            let d = compared(logged, counterfactual, eps);
            &&& d.logged[i] == logged[i] && d.counterfactual[i] == counterfactual[i]
            &&& d.delta.len() <= logged.len() && d.delta.len() <= counterfactual.len()
            &&& d.delta.len() == logged.len() || d.delta.len() == counterfactual.len()
            &&& size(d.delta[i].exact() - (counterfactual[i].exact() - logged[i].exact()))
                <= fine_slack(counterfactual[i].exact() - logged[i].exact())
        }),
{
    law_double_arithmetic(counterfactual[i], logged[i]);
    lemma_double_rounding();
}

/// A channel is changed just where on some tick one side alone is finite, or both are and their
/// difference exceeds the threshold: one such tick is enough, wherever it stands.
pub proof fn law_one_tick_changes_a_channel(logged: Seq<F64>, counterfactual: Seq<F64>, eps: F64)
    requires
        !eps.less(F64 { bits: 0 }),
    ensures
        compared(logged, counterfactual, eps).changed <==> exists|i: int|
            0 <= i < logged.len() && i < counterfactual.len() && (logged[i].is_finite()
                != counterfactual[i].is_finite() || both_finite(logged, counterfactual, i)
                && eps.less(#[trigger] counterfactual[i].minus(logged[i]).abs())),
{
    let n = crate::diff::shorter(logged.len(), counterfactual.len());
    lemma_greatest(logged, counterfactual, n);
    lemma_mismatch(logged, counterfactual, n);
    let m = greatest(logged, counterfactual, n);
    let (a, b) = (logged, counterfactual);
    if eps.less(m) {
        let i = choose|i: int|
            0 <= i < n && both_finite(a, b, i) && m == #[trigger] b[i].minus(a[i]).abs();
        assert(eps.less(b[i].minus(a[i]).abs()));
    }
    assert forall|i: int|
        0 <= i < n && both_finite(a, b, i) && eps.less(
            #[trigger] b[i].minus(a[i]).abs(),
        ) implies eps.less(m) by {
        assert(b[i].minus(a[i]).abs().at_most(m));
    }
    if mismatches(a, b, n) > 0 {
        let i = choose|i: int| 0 <= i < n && (#[trigger] a[i]).is_finite() != b[i].is_finite();
        let z = b[i].minus(a[i]).abs();
        assert(a[i].is_finite() != b[i].is_finite() || both_finite(a, b, i) && eps.less(z));
    }
}

/// A mismatch is counted where there is one.
proof fn lemma_mismatch(a: Seq<F64>, b: Seq<F64>, n: nat)
    requires
        n <= a.len(),
        n <= b.len(),
    ensures
        mismatches(a, b, n) > 0 <==> exists|i: int|
            0 <= i < n && (#[trigger] a[i]).is_finite() != b[i].is_finite(),
    decreases n,
{
    if n > 0 {
        lemma_mismatch(a, b, (n - 1) as nat);
    }
}

/// The mismatches of a channel are the ticks on which one side alone is finite.
pub proof fn law_mismatches_are_counted(logged: Seq<F64>, counterfactual: Seq<F64>, eps: F64)
    requires
        logged.len() == counterfactual.len(),
    ensures
        compared(logged, counterfactual, eps).non_finite_mismatches == Seq::new(
            logged.len(),
            |i: int| i,
        ).filter(|i: int| logged[i].is_finite() != counterfactual[i].is_finite()).len(),
{
    lemma_mismatches(logged, counterfactual, logged.len());
}

proof fn lemma_mismatches(a: Seq<F64>, b: Seq<F64>, n: nat)
    ensures
        mismatches(a, b, n) == Seq::new(n, |i: int| i).filter(
            |i: int| a[i].is_finite() != b[i].is_finite(),
        ).len(),
    decreases n,
{
    reveal(Seq::filter);
    if n > 0 {
        lemma_mismatches(a, b, (n - 1) as nat);
        assert(Seq::new(n, |i: int| i).drop_last() =~= Seq::new((n - 1) as nat, |i: int| i));
    }
}

/// The magnitude of a difference does not depend on the order of its sides.
proof fn lemma_apart(a: F64, b: F64)
    requires
        a.is_finite(),
        b.is_finite(),
    ensures
        a.minus(b).abs() == b.minus(a).abs(),
{
    let f = Format::Binary64;
    let (x, y) = (a.num(), b.num());
    lemma_opposite(a);
    lemma_opposite(b);
    let (s, t) = (sum(f, x, opposite(y)), sum(f, y, opposite(x)));
    assert(value(f, x) + value(f, opposite(y)) == -(value(f, y) + value(f, opposite(x))));
    assert(s.mag == t.mag);
    assert(a.minus(b) == F64::of(s) && b.minus(a) == F64::of(t)) by {
        reveal(F64::spec_plus);
    }
    lemma_unsigned(s);
    lemma_unsigned(t);
}

/// The opposite of a number has the other sign.
proof fn lemma_opposite(a: F64)
    ensures
        a.opposite().num() == opposite(a.num()),
{
}

/// The magnitude of a number does not depend on its sign.
proof fn lemma_unsigned(n: Num)
    ensures
        F64::of(n).abs() == F64::of(Num { neg: false, mag: n.mag }),
{
}

/// Whether two numbers match does not depend on which of them was expected.
pub proof fn law_comparison_is_symmetric(a: F32, b: F32, tolerance: Option<ValueTolerance>)
    ensures
        float_mismatch(a, b, tolerance) is Ok == float_mismatch(b, a, tolerance) is Ok || (a.is_nan()
            != b.is_nan()),
        a.is_nan() != b.is_nan() ==> float_mismatch(a, b, tolerance) is Err && float_mismatch(
            b,
            a,
            tolerance,
        ) is Err,
{
    if a.is_finite() && b.is_finite() {
        law_widening_is_exact(a);
        law_widening_is_exact(b);
        let (e, x) = (a.widen(), b.widen());
        lemma_apart(e, x);
        assert(e.abs().max(x.abs()) == x.abs().max(e.abs()));
    }
}

/// A NaN matches NaNs alone, and an infinity itself alone.
pub proof fn law_special_numbers_match_themselves(a: F32, b: F32, tolerance: Option<ValueTolerance>)
    requires
        !a.is_finite() || !b.is_finite(),
    ensures
        float_mismatch(a, b, tolerance) is Ok <==> (a.is_nan() && b.is_nan()) || (a == b),
{
}

/// Finite numbers match just where they are within the absolute bound of each other, or within
/// the relative bound of the greater of their magnitudes: in exact values and within rounding,
/// neither of them exceeds the other by more.
pub proof fn law_comparison_bounds_both_ways(
    expected: F32,
    actual: F32,
    absolute: Option<String>,
    relative: Option<String>,
    a: F64,
    r: F64,
)
    requires
        expected.is_finite(),
        actual.is_finite(),
        optional_bound(absolute) == Some(a),
        optional_bound(relative) == Some(r),
        a.is_finite(),
        r.is_finite(),
        r.times(expected.widen().abs().max(actual.widen().abs())).is_finite(),
        actual.widen().minus(expected.widen()).is_finite(),
    ensures
        ({
            let apart = actual.exact() - expected.exact();
            let magnitude = if size(expected.exact()) < size(actual.exact()) {
                size(actual.exact())
            } else {
                size(expected.exact())
            };
            let share = r.exact() * magnitude;
            let allowed = if a.exact() < share {
                share
            } else {
                a.exact()
            };
            let matches = float_mismatch(
                expected,
                actual,
                Some(ValueTolerance::FloatingPoint { absolute, relative }),
            ) is Ok;
            let slack = fine_slack(apart) + fine_slack(share);
            &&& matches ==> apart <= allowed + slack && -apart <= allowed + slack
            &&& !matches ==> apart >= allowed - slack || -apart >= allowed - slack
        }),
{
    law_widening_is_exact(expected);
    law_widening_is_exact(actual);
    let (e, x) = (expected.widen(), actual.widen());
    law_double_order(e, x);
    law_double_order(x, e);
    let m = e.abs().max(x.abs());
    law_double_order(e.abs(), x.abs());
    law_double_arithmetic(x, e);
    law_double_order(x.minus(e), e);
    law_double_arithmetic(r, m);
    law_double_order(a, r.times(m));
    law_double_order(x.minus(e).abs(), a.max(r.times(m)));
    lemma_double_rounding();
}

} // verus!
