//! Interpolation in calibration tables.
//!
//! A lookup is linear along each axis, in binary32. A coordinate beyond the
//! breakpoints of its axis takes the nearest of them.

use crate::calib::{CalTable, TableView};
use crate::error::{bad_call, is_bad_call, EvalError};
use crate::float::binary32::F32;
use crate::value::M1Scalar;
use vstd::arithmetic::mul::*;
use vstd::prelude::*;

verus! {

/// The position of the last breakpoint not above a coordinate, among the first `n`; zero where there is none.
pub open spec fn segment(axis: Seq<M1Scalar>, x: F32, n: nat) -> nat
    decreases n,
{
    if n <= 1 {
        0
    } else if axis[n - 1].single().at_most(x) {
        (n - 1) as nat
    } else {
        segment(axis, x, (n - 1) as nat)
    }
}

/// A segment is a position of the axis.
proof fn lemma_segment(axis: Seq<M1Scalar>, x: F32, n: nat)
    ensures
        n > 0 ==> segment(axis, x, n) < n,
    decreases n,
{
    if n > 1 && !axis[n - 1].single().at_most(x) {
        lemma_segment(axis, x, (n - 1) as nat);
    }
}

/// Whether a coordinate lies strictly inside a segment, after its first breakpoint.
pub open spec fn inside(axis: Seq<M1Scalar>, x: F32, i: nat) -> bool {
    i + 1 < axis.len() && axis[i as int].single().less(x)
}

/// The point at `x` on the line through `(x0, y0)` and `(x1, y1)`.
pub open spec fn on_line(x: F32, x0: F32, x1: F32, y0: F32, y1: F32) -> F32 {
    y0.plus(x.minus(x0).over(x1.minus(x0)).times(y1.minus(y0)))
}

/// The number of cells of a table with the given axes.
pub open spec fn cell_count(axes: Seq<Seq<M1Scalar>>) -> nat
    decreases axes.len(),
{
    if axes.len() == 0 {
        1
    } else {
        axes[0].len() * cell_count(axes.drop_first())
    }
}

/// The interpolated value of cells at coordinates.
pub open spec fn interpolated(axes: Seq<Seq<M1Scalar>>, body: Seq<M1Scalar>, inputs: Seq<M1Scalar>) -> F32
    decreases axes.len(),
{
    if axes.len() == 0 {
        body[0].single()
    } else {
        let axis = axes[0];
        let rest = axes.drop_first();
        let stride = cell_count(rest) as int;
        let x = inputs[0].single();
        let i = segment(axis, x, axis.len());
        let at = |k: int|
            interpolated(rest, body.subrange(k * stride, (k + 1) * stride), inputs.drop_first());
        if inside(axis, x, i) {
            on_line(
                x,
                axis[i as int].single(),
                axis[i as int + 1].single(),
                at(i as int),
                at(i as int + 1),
            )
        } else {
            at(i as int)
        }
    }
}

/// Whether a table can be looked up with a number of coordinates: one for each
/// axis, no axis empty, and a cell for each combination of breakpoints.
pub open spec fn fits(table: TableView, inputs: nat) -> bool {
    &&& inputs == table.0.len()
    &&& forall|i: int| 0 <= i < table.0.len() ==> (#[trigger] table.0[i]).len() > 0
    &&& table.1.len() == cell_count(table.0)
}

fn find_segment(axis: &Vec<M1Scalar>, x: F32) -> (i: usize)
    requires
        axis.len() > 0,
    ensures
        i == segment(axis@, x, axis@.len()),
        i < axis.len(),
{
    let mut n: usize = axis.len();
    proof {
        lemma_segment(axis@, x, axis@.len());
    }
    while n > 1
        invariant
            0 < n <= axis.len(),
            segment(axis@, x, axis@.len()) == segment(axis@, x, n as nat),
        decreases n,
    {
        if axis[n - 1].single().at_most(x) {
            return n - 1;
        }
        n = n - 1;
    }
    0
}

/// The axes from a position on.
pub open spec fn axes_from(axes: Seq<Vec<M1Scalar>>, k: int) -> Seq<Seq<M1Scalar>> {
    axes.skip(k).map_values(|a: Vec<M1Scalar>| a@)
}

/// The cell counts, where they fit.
fn count_from(axes: &Vec<Vec<M1Scalar>>, k: usize) -> (r: Option<usize>)
    requires
        k <= axes.len(),
    ensures
        match r {
            Some(n) => n == cell_count(axes_from(axes@, k as int)),
            None => cell_count(axes_from(axes@, k as int)) > usize::MAX || exists|i: int|
                k <= i < axes.len() && (#[trigger] axes@[i]).len() == 0,
        },
    decreases axes.len() - k,
{
    let ghost s = axes_from(axes@, k as int);
    if k == axes.len() {
        assert(s.len() == 0);
        return Some(1);
    }
    assert(s[0] == axes@[k as int]@);
    assert(s.drop_first() =~= axes_from(axes@, k + 1));
    if axes[k].len() == 0 {
        return None;
    }
    match count_from(axes, k + 1) {
        Some(n) => {
            let len: usize = axes[k].len();
            proof {
                assert(0 <= n * len <= 0xffff_ffff_ffff_ffff * 0xffff_ffff_ffff_ffff && n * len == len
                    * n) by (nonlinear_arith)
                    requires
                        0 <= n <= 0xffff_ffff_ffff_ffff,
                        0 <= len <= 0xffff_ffff_ffff_ffff,
                ;
            }
            let m: u128 = (n as u128) * (len as u128);
            if m <= usize::MAX as u128 {
                Some(m as usize)
            } else {
                None
            }
        },
        None => {
            proof {
                let a = axes@[k as int].len() as nat;
                let c = cell_count(axes_from(axes@, k + 1));
                assert(a * c >= c) by (nonlinear_arith)
                    requires
                        a >= 1,
                        c >= 0,
                ;
            }
            None
        },
    }
}

fn interpolate(table: &CalTable, inputs: &[M1Scalar], k: usize, from: usize, to: usize) -> (r: F32)
    requires
        k <= table.axes.len() == inputs.len(),
        from <= to <= table.body.len(),
        to - from == cell_count(axes_from(table.axes@, k as int)),
        forall|i: int| 0 <= i < table.axes.len() ==> (#[trigger] table.axes@[i]).len() > 0,
    ensures
        r == interpolated(
            axes_from(table.axes@, k as int),
            table.body@.subrange(from as int, to as int),
            inputs@.skip(k as int),
        ),
    decreases table.axes.len() - k,
{
    let ghost s = axes_from(table.axes@, k as int);
    let ghost b = table.body@.subrange(from as int, to as int);
    if k == table.axes.len() {
        assert(s.len() == 0);
        assert(b[0] == table.body@[from as int]);
        return table.body[from].single();
    }
    assert(s[0] == table.axes@[k as int]@);
    assert(s.drop_first() =~= axes_from(table.axes@, k + 1));
    assert(inputs@.skip(k as int)[0] == inputs@[k as int]);
    assert(inputs@.skip(k as int).drop_first() =~= inputs@.skip(k + 1));
    let axis = &table.axes[k];
    let x = inputs[k].single();
    let i: usize = find_segment(axis, x);
    let stride: usize = (to - from) / axis.len();
    let ghost n = axis@.len();
    let ghost c = cell_count(axes_from(table.axes@, k + 1));
    proof {
        assert(to - from == n * c);
        vstd::arithmetic::div_mod::lemma_div_multiples_vanish(c as int, n as int);
        assert((n * c) as int / n as int == c as int) by {
            assert(n * c == c * n) by (nonlinear_arith);
            vstd::arithmetic::div_mod::lemma_div_by_multiple(c as int, n as int);
        }
        assert(stride == c);
        assert(0 <= i * c && (i + 1) * c <= n * c && (i + 1) * c == i * c + c) by (nonlinear_arith)
            requires
                0 <= i,
                i + 1 <= n,
                c >= 0,
        ;
        if i + 1 < n {
            assert((i + 2) * c <= n * c && (i + 2) * c == (i + 1) * c + c) by (nonlinear_arith)
                requires
                    0 <= i,
                    i + 2 <= n,
                    c >= 0,
            ;
        }
    }
    let a: usize = from + i * stride;
    assert(b.subrange(i * c, (i + 1) * c) =~= table.body@.subrange(a as int, a + stride));
    let y0 = interpolate(table, inputs, k + 1, a, a + stride);
    if i + 1 < axis.len() && axis[i].single().less(x) {
        let a2: usize = a + stride;
        assert(b.subrange((i + 1) * c, (i + 2) * c) =~= table.body@.subrange(
            a2 as int,
            a2 + stride,
        ));
        let y1 = interpolate(table, inputs, k + 1, a2, a2 + stride);
        let x0 = axis[i].single();
        let x1 = axis[i + 1].single();
        y0.plus(x.minus(x0).over(x1.minus(x0)).times(y1.minus(y0)))
    } else {
        y0
    }
}

/// What is wrong with a lookup that does not fit its table: the number of coordinates, an
/// axis without breakpoints, or the size of the body.
pub open spec fn misfit_of(table: TableView, inputs: nat) -> Seq<char> {
    if inputs != table.0.len() {
        "the lookup needs one coordinate for each axis"@
    } else if exists|i: int| 0 <= i < table.0.len() && (#[trigger] table.0[i]).len() == 0 {
        "an axis of the table has no breakpoints"@
    } else {
        "the table body does not match its axes"@
    }
}

/// Looks a table up at coordinates.
pub fn lookup(table: &CalTable, inputs: &[M1Scalar]) -> (r: Result<M1Scalar, EvalError>)
    ensures
        if fits(table@, inputs@.len()) {
            r == Ok::<M1Scalar, EvalError>(
                M1Scalar::FloatingPoint(interpolated(table@.0, table@.1, inputs@)),
            )
        } else {
            r matches Err(e) && is_bad_call(e, misfit_of(table@, inputs@.len()))
        },
{
    let ghost view = table@;
    assert(axes_from(table.axes@, 0) =~= view.0);
    if inputs.len() != table.axes.len() {
        return Err(bad_call("the lookup needs one coordinate for each axis"));
    }
    let mut i: usize = 0;
    while i < table.axes.len()
        invariant
            i <= table.axes.len() == inputs.len(),
            view == table@,
            view.0.len() == table.axes.len(),
            forall|j: int| 0 <= j < i ==> (#[trigger] table.axes@[j]).len() > 0,
        decreases table.axes.len() - i,
    {
        if table.axes[i].len() == 0 {
            assert(view.0[i as int].len() == 0);
            return Err(bad_call("an axis of the table has no breakpoints"));
        }
        i = i + 1;
    }
    assert forall|j: int| 0 <= j < view.0.len() implies (#[trigger] view.0[j]).len() > 0 by {
        assert(view.0[j] == table.axes@[j]@);
    }
    let complete: bool = match count_from(&table.axes, 0) {
        Some(n) => n == table.body.len(),
        None => false,
    };
    if !complete {
        return Err(bad_call("the table body does not match its axes"));
    }
    assert(table.body@.subrange(0, table.body@.len() as int) =~= table.body@);
    assert(inputs@.skip(0) =~= inputs@);
    Ok(M1Scalar::FloatingPoint(interpolate(table, inputs, 0, 0, table.body.len())))
}

/// Whether the breakpoints of an axis increase.
pub open spec fn increases(axis: Seq<M1Scalar>) -> bool {
    &&& axis.len() > 0
    &&& forall|i: int, j: int|
        0 <= i < j < axis.len() ==> (#[trigger] axis[i]).single().less((#[trigger] axis[j]).single())
}

/// The position of a cell by its breakpoints.
pub open spec fn cell_at(axes: Seq<Seq<M1Scalar>>, site: Seq<nat>) -> int
    decreases axes.len(),
{
    if axes.len() == 0 {
        0
    } else {
        site[0] * cell_count(axes.drop_first()) + cell_at(axes.drop_first(), site.drop_first())
    }
}

/// Whether coordinates are the breakpoints of a cell.
pub open spec fn is_site(axes: Seq<Seq<M1Scalar>>, inputs: Seq<M1Scalar>, site: Seq<nat>) -> bool {
    inputs.len() == axes.len() && site.len() == axes.len() && forall|d: int|
        0 <= d < axes.len() ==> at_breakpoint(#[trigger] axes[d], inputs[d], site[d])
}

/// Whether a coordinate is a breakpoint of an axis that increases.
pub open spec fn at_breakpoint(axis: Seq<M1Scalar>, x: M1Scalar, i: nat) -> bool {
    increases(axis) && i < axis.len() && x.single().equals(axis[i as int].single())
}

pub(crate) proof fn lemma_segment_at(axis: Seq<M1Scalar>, x: F32, i: nat, n: nat)
    requires
        increases(axis),
        i < n <= axis.len(),
        axis[i as int].single().at_most(x),
        forall|j: int| i < j < axis.len() ==> !(#[trigger] axis[j]).single().at_most(x),
    ensures
        segment(axis, x, n) == i,
    decreases n,
{
    if n > i + 1 {
        assert(!axis[n - 1].single().at_most(x));
        lemma_segment_at(axis, x, i, (n - 1) as nat);
    }
}

proof fn lemma_cell_at(axes: Seq<Seq<M1Scalar>>, site: Seq<nat>)
    requires
        site.len() == axes.len(),
        forall|d: int| 0 <= d < axes.len() ==> #[trigger] site[d] < axes[d].len(),
    ensures
        0 <= cell_at(axes, site) < cell_count(axes),
    decreases axes.len(),
{
    if axes.len() > 0 {
        let (rest, tail) = (axes.drop_first(), site.drop_first());
        assert forall|d: int| 0 <= d < rest.len() implies #[trigger] tail[d] < rest[d].len() by {
            assert(tail[d] == site[d + 1] && rest[d] == axes[d + 1]);
            assert(site[d + 1] < axes[d + 1].len());
        }
        lemma_cell_at(rest, tail);
        let (c, k, n) = (cell_count(rest) as int, site[0] as int, axes[0].len() as int);
        assert(site[0] < axes[0].len());
        assert(0 <= k * c && k * c + c <= n * c) by (nonlinear_arith)
            requires
                0 <= k,
                k + 1 <= n,
                c >= 0,
        ;
    }
}

/// A lookup at breakpoints gives the cell there.
pub proof fn law_lookup_at_breakpoints(
    axes: Seq<Seq<M1Scalar>>,
    body: Seq<M1Scalar>,
    inputs: Seq<M1Scalar>,
    site: Seq<nat>,
)
    requires
        body.len() == cell_count(axes),
        is_site(axes, inputs, site),
    ensures
        interpolated(axes, body, inputs) == body[cell_at(axes, site)].single(),
    decreases axes.len(),
{
    if axes.len() > 0 {
        let axis = axes[0];
        let (rest, tail) = (axes.drop_first(), site.drop_first());
        let x = inputs[0].single();
        let i = site[0];
        assert(at_breakpoint(axes[0], inputs[0], site[0]));
        assert forall|j: int| i < j < axis.len() implies !(#[trigger] axis[j]).single().at_most(x) by {
            assert(axis[i as int].single().less(axis[j].single()));
        }
        lemma_segment_at(axis, x, i, axis.len());
        let (c, n, k) = (cell_count(rest) as int, axis.len() as int, i as int);
        assert(0 <= k * c && (k + 1) * c <= n * c && (k + 1) * c == k * c + c) by (nonlinear_arith)
            requires
                0 <= k,
                k + 1 <= n,
                c >= 0,
        ;
        let part = body.subrange(k * c, (k + 1) * c);
        assert forall|d: int| 0 <= d < rest.len() implies at_breakpoint(
            #[trigger] rest[d],
            inputs.drop_first()[d],
            tail[d],
        ) by {
            assert(at_breakpoint(axes[d + 1], inputs[d + 1], site[d + 1]));
        }
        law_lookup_at_breakpoints(rest, part, inputs.drop_first(), tail);
        assert forall|d: int| 0 <= d < rest.len() implies #[trigger] tail[d] < rest[d].len() by {
            assert(at_breakpoint(rest[d], inputs.drop_first()[d], tail[d]));
        }
        lemma_cell_at(rest, tail);
        assert(part[cell_at(rest, tail)] == body[k * c + cell_at(rest, tail)]);
    }
}

/// A coordinate beyond the breakpoints of its axis counts as the nearest of them.
pub proof fn law_lookup_clamps(
    axes: Seq<Seq<M1Scalar>>,
    body: Seq<M1Scalar>,
    inputs: Seq<M1Scalar>,
    d: int,
    e: int,
)
    requires
        inputs.len() == axes.len(),
        0 <= d < axes.len(),
        increases(axes[d]),
        (e == 0 && inputs[d].single().less(axes[d][0].single())) || (e == axes[d].len() - 1
            && axes[d][e].single().less(inputs[d].single())),
    ensures
        interpolated(axes, body, inputs) == interpolated(axes, body, inputs.update(d, axes[d][e])),
    decreases axes.len(),
{
    let changed = inputs.update(d, axes[d][e]);
    let rest = axes.drop_first();
    let stride = cell_count(rest) as int;
    if d == 0 {
        let axis = axes[0];
        let x = inputs[0].single();
        let y = axis[e].single();
        assert(changed.drop_first() =~= inputs.drop_first());
        if axis.len() > 1 {
            assert(axis[0].single().less(axis[1].single()));
        }
        if e == 0 && x.less(axis[0].single()) {
            lemma_segment_below(axis, x, axis.len());
            if y.is_nan() {
                assert(!x.less(y));
            }
            assert forall|j: int| 0 < j < axis.len() implies !(#[trigger] axis[j]).single().at_most(
                y,
            ) by {
                assert(axis[0].single().less(axis[j].single()));
            }
            lemma_segment_at(axis, y, 0, axis.len());
        } else {
            assert forall|j: int| e < j < axis.len() implies !(#[trigger] axis[j]).single().at_most(
                y,
            ) by {}
            assert forall|j: int| e < j < axis.len() implies !(#[trigger] axis[j]).single().at_most(
                x,
            ) by {}
            lemma_segment_at(axis, y, e as nat, axis.len());
            lemma_segment_at(axis, x, e as nat, axis.len());
        }
    } else {
        assert(changed[0] == inputs[0]);
        assert(changed.drop_first() =~= inputs.drop_first().update(d - 1, rest[d - 1][e]));
        let i = segment(axes[0], inputs[0].single(), axes[0].len());
        law_lookup_clamps(
            rest,
            body.subrange(i * stride, (i + 1) * stride),
            inputs.drop_first(),
            d - 1,
            e,
        );
        law_lookup_clamps(
            rest,
            body.subrange((i + 1) * stride, (i + 1 + 1) * stride),
            inputs.drop_first(),
            d - 1,
            e,
        );
    }
}

proof fn lemma_segment_below(axis: Seq<M1Scalar>, x: F32, n: nat)
    requires
        increases(axis),
        n <= axis.len(),
        x.less(axis[0].single()),
    ensures
        segment(axis, x, n) == 0,
    decreases n,
{
    if n > 1 {
        assert(axis[0].single().less(axis[n - 1].single()));
        lemma_segment_below(axis, x, (n - 1) as nat);
    }
}

} // verus!
