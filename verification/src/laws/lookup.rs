//! What a table lookup holds to.

use crate::builtins::{scalars_of, site_index};
use crate::calib::{axes_of, axis_context, axis_tags, cells_of, table_of, TableView};
use crate::float::binary32::F32;
use crate::float::exact::{law_single_order, law_whole_part, lemma_constants, size};
use crate::laws::bounds::{lemma_on_line, play, share};
use crate::laws::methods::worth;
use crate::table::{
    cell_count, increases, inside, interpolated, law_lookup_at_breakpoints, lemma_segment_at, segment,
};
use crate::value::{M1Scalar, Value};
use crate::xml::{child_from, NodeView};
use vstd::prelude::*;

verus! {

/// The part of a body that belongs to a breakpoint of the first axis.
pub open spec fn part(axes: Seq<Seq<M1Scalar>>, body: Seq<M1Scalar>, i: int) -> Seq<M1Scalar> {
    let stride = cell_count(axes.drop_first()) as int;
    body.subrange(i * stride, (i + 1) * stride)
}

/// Between two neighbouring breakpoints of its first axis a lookup lies, within rounding, on
/// the line between what the other axes give at the one and at the other.
pub proof fn law_lookup_follows_the_line(
    axes: Seq<Seq<M1Scalar>>,
    body: Seq<M1Scalar>,
    inputs: Seq<M1Scalar>,
    i: int,
)
    requires
        axes.len() > 0,
        inputs.len() == axes.len(),
        increases(axes[0]),
        0 <= i < axes[0].len() - 1,
        axes[0][i].single().is_finite(),
        axes[0][i + 1].single().is_finite(),
        inputs[0].single().is_finite(),
        axes[0][i].single().exact() <= inputs[0].single().exact(),
        inputs[0].single().exact() < axes[0][i + 1].single().exact(),
        axes[0][i + 1].single().minus(axes[0][i].single()).is_finite(),
        interpolated(axes, body, inputs).is_finite(),
    ensures
        ({
            let (rest, tail) = (axes.drop_first(), inputs.drop_first());
            let y0 = interpolated(rest, part(axes, body, i), tail);
            let y1 = interpolated(rest, part(axes, body, i + 1), tail);
            let x = inputs[0].single().exact();
            let (x0, x1) = (axes[0][i].single().exact(), axes[0][i + 1].single().exact());
            let y = interpolated(axes, body, inputs).exact();
            &&& x == x0 ==> interpolated(axes, body, inputs) == y0
            &&& x > x0 ==> y0.is_finite() && y1.is_finite() && size(
                y - (y0.exact() + share(x, x0, x1) * (y1.exact() - y0.exact())),
            ) <= play(y0.exact(), y1.exact())
        }),
{
    let axis = axes[0];
    let x = inputs[0].single();
    let (x0, x1) = (axis[i].single(), axis[i + 1].single());
    law_single_order(x0, x);
    law_single_order(x, x1);
    law_single_order(x1, x);
    assert forall|j: int| i < j < axis.len() implies !(#[trigger] axis[j]).single().at_most(x) by {
        if j > i + 1 {
            assert(axis[i + 1].single().less(axis[j].single()));
        }
    }
    lemma_segment_at(axis, x, i as nat, axis.len());
    assert(segment(axis, x, axis.len()) == i);
    let (rest, tail) = (axes.drop_first(), inputs.drop_first());
    let y0 = interpolated(rest, part(axes, body, i), tail);
    let y1 = interpolated(rest, part(axes, body, i + 1), tail);
    if x0.exact() < x.exact() {
        assert(inside(axis, x, i as nat));
        lemma_on_line(x, x0, x1, y0, y1);
    }
}

/// Between two breakpoints of a table with one axis the value lies, within rounding, on the
/// line between their cells: at the share of the way from the one cell to the other that the
/// coordinate has gone from the one breakpoint to the other.
pub proof fn law_one_axis_is_linear(axis: Seq<M1Scalar>, body: Seq<M1Scalar>, x: M1Scalar, i: int)
    requires
        increases(axis),
        body.len() == axis.len(),
        0 <= i < axis.len() - 1,
        axis[i].single().is_finite(),
        axis[i + 1].single().is_finite(),
        x.single().is_finite(),
        axis[i].single().exact() < x.single().exact() < axis[i + 1].single().exact(),
        axis[i + 1].single().minus(axis[i].single()).is_finite(),
        interpolated(seq![axis], body, seq![x]).is_finite(),
    ensures
        ({
            let (x0, x1) = (axis[i].single().exact(), axis[i + 1].single().exact());
            let (y0, y1) = (body[i].single().exact(), body[i + 1].single().exact());
            let y = interpolated(seq![axis], body, seq![x]).exact();
            let t = play(y0, y1);
            &&& size(y - (y0 + (x.single().exact() - x0) / (x1 - x0) * (y1 - y0))) <= t
            &&& y0 <= y1 ==> y0 - t <= y <= y1 + t
            &&& y1 <= y0 ==> y1 - t <= y <= y0 + t
        }),
{
    let axes = seq![axis];
    let inputs = seq![x];
    assert(axes[0] == axis && inputs[0] == x);
    let rest = axes.drop_first();
    assert(rest.len() == 0);
    assert(cell_count(rest) == 1);
    assert(i * 1 == i && (i + 1) * 1 == i + 1 && (i + 2) * 1 == i + 2);
    assert(part(axes, body, i)[0] == body[i]);
    assert(part(axes, body, i + 1)[0] == body[i + 1]);
    law_lookup_follows_the_line(axes, body, inputs, i);
    let (x0, x1) = (axis[i].single().exact(), axis[i + 1].single().exact());
    let (y0, y1) = (body[i].single().exact(), body[i + 1].single().exact());
    let s = share(x.single().exact(), x0, x1);
    let n = x.single().exact() - x0;
    let d = x1 - x0;
    assert(0real <= n / d <= 1real) by (nonlinear_arith)
        requires
            0real < n < d,
    ;
    let m = y1 - y0;
    assert((m >= 0real ==> 0real <= s * m <= m) && (m <= 0real ==> m <= s * m <= 0real))
        by (nonlinear_arith)
        requires
            0real <= s <= 1real,
    ;
}

/// With two axes the cells stand row by row: at the breakpoints `i` of the first axis and `j`
/// of the second, the lookup is the cell `j` of the row `i`.
pub proof fn law_two_axes_are_rows(
    rows: Seq<M1Scalar>,
    columns: Seq<M1Scalar>,
    body: Seq<M1Scalar>,
    i: int,
    j: int,
)
    requires
        increases(rows),
        increases(columns),
        body.len() == rows.len() * columns.len(),
        0 <= i < rows.len(),
        0 <= j < columns.len(),
        !rows[i].single().is_nan(),
        !columns[j].single().is_nan(),
    ensures
        interpolated(seq![rows, columns], body, seq![rows[i], columns[j]]) == body[i
            * columns.len() + j].single(),
{
    let axes = seq![rows, columns];
    let inputs = seq![rows[i], columns[j]];
    let site = seq![i as nat, j as nat];
    let rest = axes.drop_first();
    assert(rest =~= seq![columns]);
    assert(rest.drop_first().len() == 0);
    assert(cell_count(rest.drop_first()) == 1);
    assert(cell_count(rest) == columns.len() * 1);
    assert(cell_count(axes) == rows.len() * columns.len());
    lemma_breakpoint(rows, i);
    lemma_breakpoint(columns, j);
    assert(crate::table::is_site(axes, inputs, site));
    law_lookup_at_breakpoints(axes, body, inputs, site);
    assert(crate::table::cell_at(rest.drop_first(), site.drop_first().drop_first()) == 0);
    assert(crate::table::cell_at(rest, site.drop_first()) == j * 1 + 0);
}

/// A breakpoint of an increasing axis equals itself.
proof fn lemma_breakpoint(axis: Seq<M1Scalar>, i: int)
    requires
        increases(axis),
        0 <= i < axis.len(),
        axis.len() > 1 || !axis[i].single().is_nan(),
    ensures
        axis[i].single().equals(axis[i].single()),
{
    if i > 0 {
        assert(axis[0].single().less(axis[i].single()));
    } else if axis.len() > 1 {
        assert(axis[0].single().less(axis[1].single()));
    }
}

/// A cell is named by a whole number that is not negative, in any family: its position.
pub proof fn law_cell_positions(s: M1Scalar, n: nat)
    requires
        s matches M1Scalar::FloatingPoint(v) ==> v.is_finite(),
    ensures
        site_index(Value::M1(s)) == Some(n) <==> worth(s) == n as int as real,
{
    match s {
        M1Scalar::FloatingPoint(v) => {
            lemma_number_position(v, n);
        },
        M1Scalar::FixedPoint7dps(v) => {
            lemma_fixed_position(v.raw as int, n as int);
        },
        _ => {},
    }
}

proof fn lemma_number_position(v: F32, n: nat)
    requires
        v.is_finite(),
    ensures
        (v.exact() >= 0real && !v.has_fraction() && v.whole_part() == n) <==> v.exact()
            == n as int as real,
        (F32 { bits: 0 }).at_most(v) == (v.exact() >= 0real),
{
    lemma_constants();
    law_single_order(F32 { bits: 0 }, v);
    if v.exact() >= 0real {
        law_whole_part(v);
        let w = v.whole_part() as int;
        assert(w as real <= v.exact() < w as real + 1real);
        if v.exact() == n as int as real {
            assert(w == n);
        }
    }
}

proof fn lemma_fixed_position(raw: int, n: int)
    requires
        n >= 0,
    ensures
        (raw >= 0 && raw % 10_000_000 == 0 && raw / 10_000_000 == n) <==> (raw as real) / 10000000real
            == n as real,
{
    assert((raw as real) / 10000000real == n as real <==> raw == 10_000_000 * n);
}

/// The coordinates of a lookup are its arguments, in order; an argument that is no scalar leaves it
/// without coordinates.
pub proof fn law_coordinates_are_the_arguments(args: Seq<Value>)
    ensures
        match scalars_of(args) {
            Some(s) => s.len() == args.len() && forall|i: int|
                0 <= i < args.len() ==> args[i] == Value::M1(#[trigger] s[i]),
            None => exists|i: int| 0 <= i < args.len() && !((#[trigger] args[i]) is M1),
        },
    decreases args.len(),
{
    if args.len() > 0 {
        let rest = args.drop_last();
        law_coordinates_are_the_arguments(rest);
        if scalars_of(rest) is None {
            let i = choose|i: int| 0 <= i < rest.len() && !((#[trigger] rest[i]) is M1);
            assert(!(args[i] is M1));
        } else if args.last().scalar() is None {
            assert(!(args[args.len() - 1] is M1));
        }
    }
}

/// The first axis of a table is that of its columns of `X`, the second that of `Y` and the third
/// that of `Z`; those that are missing are left out.
pub proof fn law_axes_in_order(
    nodes: Seq<NodeView>,
    table: usize,
    name: Seq<char>,
    axes: Seq<Seq<M1Scalar>>,
    body: Seq<M1Scalar>,
    x: usize,
)
    requires
        table_of(nodes, table, name) == Ok::<TableView, Seq<char>>((axes, body)),
        child_from(nodes, table, "X"@, 0) == Some(x),
    ensures
        axes.len() >= 1,
        cells_of(nodes, x, axis_context(name, "X"@)) == Ok::<Seq<M1Scalar>, Seq<char>>(axes[0]),
        child_from(nodes, table, "Y"@, 0) matches Some(y) ==> axes.len() >= 2 && cells_of(
            nodes,
            y,
            axis_context(name, "Y"@),
        ) == Ok::<Seq<M1Scalar>, Seq<char>>(axes[1]) && (child_from(nodes, table, "Z"@, 0) matches Some(
            z,
        ) ==> axes.len() == 3 && cells_of(nodes, z, axis_context(name, "Z"@)) == Ok::<
            Seq<M1Scalar>,
            Seq<char>,
        >(axes[2])),
        child_from(nodes, table, "Y"@, 0) is None && child_from(nodes, table, "Z"@, 0) is None
            ==> axes.len() == 1,
{
    reveal_with_fuel(axes_of, 4);
    assert(axis_tags().drop_last() =~= seq!["X"@, "Y"@]);
    assert(axis_tags().drop_last().drop_last() =~= seq!["X"@]);
    assert(axis_tags().drop_last().drop_last().drop_last() =~= Seq::<Seq<char>>::empty());
}

} // verus!
