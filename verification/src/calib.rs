//! Calibration values: parameters, table axes and table cells.
//!
//! A `<Parameter>` holds one `<Cell>`; a `<Table>` holds its `<X>`, `<Y>` and
//! `<Z>` axes and a `<Body>`, each with a `<Cells>` list. The declared type of a
//! cell decides the family that it is stored in. Cells of type `enum` and `bool`
//! are no numbers and are passed over.
//!
//! Names are kept as written. Real exports leave out the leading `Root.` group.

use crate::decimal::{
    all_digits, digits_value, first_of, integer_literal, negative, parse_integer, parse_single,
    single_literal, unsigned, without_point,
};
use crate::error::EvalError;
use crate::map::TextMap;
use crate::project::str_of;
use crate::text::{enclosed, joined, quoted, quoted_text, same, trim, trimmed};
use crate::value::{FixedPoint7dps, M1Scalar};
use crate::xml::{
    attribute, attribute_of, child_after, child_from, has_tag_name, is_element, nodes_of,
    parse_document, xml_document, NodeView, XmlNode,
};
use vstd::prelude::*;
use vstd::string::*;

verus! {

/// The values of a table.
///
/// `body` is row-major with the first axis outermost: in a table of two axes the
/// cell of breakpoints `(ix, iy)` is at `ix * axes[1].len() + iy`.
#[derive(Debug, PartialEq)]
pub struct CalTable {
    /// The breakpoints of each axis, outermost first.
    pub axes: Vec<Vec<M1Scalar>>,
    /// The cells.
    pub body: Vec<M1Scalar>,
}

/// The content of a table: its axes and its cells.
pub type TableView = (Seq<Seq<M1Scalar>>, Seq<M1Scalar>);

impl View for CalTable {
    type V = TableView;

    open spec fn view(&self) -> TableView {
        (self.axes@.map_values(|a: Vec<M1Scalar>| a@), self.body@)
    }
}

/// The calibration values of a project.
#[derive(Debug)]
pub struct Calibration {
    /// The parameters, by name.
    pub params: TextMap<M1Scalar>,
    /// The tables, by name.
    pub tables: TextMap<CalTable>,
}

/// What a cell holds.
pub enum CellView {
    /// No number.
    Skip,
    /// A number.
    Scalar(M1Scalar),
    /// Something that its type does not admit, with the message about it.
    Misfit(Seq<char>),
}

/// A decimal with at most seven places that fits fixed-point storage.
pub open spec fn fixed_literal(s: Seq<char>) -> Option<FixedPoint7dps> {
    let t = unsigned(s);
    let j = first_of(t, '.', '.') as int;
    let digits = without_point(t, j);
    let places = digits.len() - j;
    let m = digits_value(digits) * crate::big::power_of_ten((7 - places) as nat);
    let raw = if negative(s) {
        -(m as int)
    } else {
        m as int
    };
    if digits.len() > 0 && all_digits(digits) && places <= 7 && i32::MIN <= raw <= i32::MAX {
        Some(FixedPoint7dps { raw: raw as i32 })
    } else {
        None
    }
}

/// The message about a text that its type does not admit.
pub open spec fn misfit_text(context: Seq<char>, ty: Seq<char>, text: Seq<char>) -> Seq<char> {
    "calibration cell in "@ + context + " does not fit M1 type "@ + ty + ": "@ + quoted_text(text)
}

/// The message about a type that is not known.
pub open spec fn unknown_type_text(context: Seq<char>, ty: Seq<char>) -> Seq<char> {
    "unsupported calibration cell type "@ + quoted_text(ty) + " in "@ + context
}

/// What a cell holds, by its declared type. The context says where it stands.
pub open spec fn cell_of(
    text: Option<Seq<char>>,
    declared: Option<Seq<char>>,
    context: Seq<char>,
) -> CellView {
    match text {
        None => CellView::Skip,
        Some(raw) => {
            let t = trimmed(raw);
            let ty = match declared {
                Some(d) => d,
                None => "untyped-f32"@,
            };
            if t.len() == 0 {
                CellView::Skip
            } else if ty == "enum"@ || ty == "bool"@ {
                CellView::Skip
            } else if ty == "f32"@ || ty == "f64"@ || ty == "untyped-f32"@ {
                match single_literal(t) {
                    Some(v) if v.is_finite() => CellView::Scalar(M1Scalar::FloatingPoint(v)),
                    _ => CellView::Misfit(misfit_text(context, ty, t)),
                }
            } else if ty == "s8"@ || ty == "s16"@ || ty == "s32"@ || ty == "s64"@ {
                match integer_literal(t) {
                    Some(v) if i32::MIN <= v <= i32::MAX => CellView::Scalar(
                        M1Scalar::Integer(v as i32),
                    ),
                    _ => CellView::Misfit(misfit_text(context, ty, t)),
                }
            } else if ty == "u8"@ || ty == "u16"@ || ty == "u32"@ || ty == "u64"@ {
                match integer_literal(t) {
                    Some(v) if 0 <= v <= u32::MAX && !negative(t) => CellView::Scalar(
                        M1Scalar::UnsignedInteger(v as u32),
                    ),
                    _ => CellView::Misfit(misfit_text(context, ty, t)),
                }
            } else if ty == "FixedPoint7dps"@ || ty == "fixed7dps"@ {
                match fixed_literal(t) {
                    Some(v) => CellView::Scalar(M1Scalar::FixedPoint7dps(v)),
                    None => CellView::Misfit(misfit_text(context, ty, t)),
                }
            } else {
                CellView::Misfit(unknown_type_text(context, ty))
            }
        },
    }
}

/// Reads a decimal with at most seven places.
pub fn parse_fixed(text: &str) -> (r: Option<FixedPoint7dps>)
    ensures
        r == fixed_literal(text@),
{
    let raw: i128 = crate::decimal::parse_seven_places(text)?;
    if -0x8000_0000 <= raw && raw <= 0x7fff_ffff {
        Some(FixedPoint7dps::from_raw(raw as i32))
    } else {
        None
    }
}

/// Whether a text starts with a minus sign.
fn starts_negative(text: &str) -> (r: bool)
    ensures
        r == negative(text@),
{
    let v = crate::text::chars_of(text);
    v.len() > 0 && v[0] == '-'
}

/// Whether an error is one about the calibration, with a message.
pub open spec fn is_cell_error(e: EvalError, message: Seq<char>) -> bool {
    e matches EvalError::MissingCalibration { path } && path@ == message
}

/// An error about a cell whose type does not admit its text.
fn misfit(context: &str, ty: &str, text: &str) -> (r: EvalError)
    ensures
        is_cell_error(r, misfit_text(context@, ty@, text@)),
{
    let head = enclosed("calibration cell in ", context, " does not fit M1 type ");
    EvalError::MissingCalibration {
        path: enclosed(head.as_str(), ty, ": ").concat(quoted(text).as_str()),
    }
}

/// An error about a cell whose type is not known.
fn unknown_type(context: &str, ty: &str) -> (r: EvalError)
    ensures
        is_cell_error(r, unknown_type_text(context@, ty@)),
{
    EvalError::MissingCalibration {
        path: enclosed("unsupported calibration cell type ", quoted(ty).as_str(), " in ").concat(
            context,
        ),
    }
}

/// What a cell holds, by its declared type.
fn cell_value(node: &XmlNode, declared: Option<&str>, context: &str) -> (r: Result<
    Option<M1Scalar>,
    EvalError,
>)
    ensures
        match cell_of(node@.3, str_of(declared), context@) {
            CellView::Skip => r == Ok::<Option<M1Scalar>, EvalError>(None),
            CellView::Scalar(v) => r == Ok::<Option<M1Scalar>, EvalError>(Some(v)),
            CellView::Misfit(message) => r matches Err(e) && is_cell_error(e, message),
        },
{
    let text: String = match &node.text {
        Some(t) => trim(t.as_str()),
        None => return Ok(None),
    };
    if text.as_str().is_empty() {
        return Ok(None);
    }
    let ty: &str = match declared {
        Some(d) => d,
        None => "untyped-f32",
    };
    if same(ty, "enum") || same(ty, "bool") {
        return Ok(None);
    }
    let scalar: Option<M1Scalar> = if same(ty, "f32") || same(ty, "f64") || same(ty, "untyped-f32") {
        match parse_single(text.as_str()) {
            Some(v) => {
                if v.is_finite() {
                    Some(M1Scalar::FloatingPoint(v))
                } else {
                    None
                }
            },
            None => None,
        }
    } else if same(ty, "s8") || same(ty, "s16") || same(ty, "s32") || same(ty, "s64") {
        match parse_integer(text.as_str(), -0x8000_0000, 0x7fff_ffff) {
            Some(v) => Some(M1Scalar::Integer(v as i32)),
            None => None,
        }
    } else if same(ty, "u8") || same(ty, "u16") || same(ty, "u32") || same(ty, "u64") {
        if starts_negative(text.as_str()) {
            None
        } else {
            match parse_integer(text.as_str(), 0, 0xffff_ffff) {
                Some(v) => Some(M1Scalar::UnsignedInteger(v as u32)),
                None => None,
            }
        }
    } else if same(ty, "FixedPoint7dps") || same(ty, "fixed7dps") {
        match parse_fixed(text.as_str()) {
            Some(v) => Some(M1Scalar::FixedPoint7dps(v)),
            None => None,
        }
    } else {
        return Err(unknown_type(context, ty));
    };
    match scalar {
        Some(v) => Ok(Some(v)),
        None => Err(misfit(context, ty, text.as_str())),
    }
}

/// The declared type of a cell: its own, or that of its list.
pub open spec fn cell_type(cell: NodeView, list: Option<Seq<char>>) -> Option<Seq<char>> {
    match attribute_of(cell.2, "Type"@) {
        Some(t) => Some(t),
        None => list,
    }
}

/// The cells of a list from a position on, or the message about the first that is no
/// number.
pub open spec fn cells_from(
    nodes: Seq<NodeView>,
    list: usize,
    from: int,
    context: Seq<char>,
) -> Result<Seq<M1Scalar>, Seq<char>>
    decreases nodes.len() - from,
{
    if from < 0 || from >= nodes.len() {
        Ok(Seq::empty())
    } else {
        let n = nodes[from];
        if n.0 == Some(list) && is_element(n, "Cell"@) {
            match cell_of(n.3, cell_type(n, attribute_of(nodes[list as int].2, "Type"@)), context) {
                CellView::Scalar(v) => match cells_from(nodes, list, from + 1, context) {
                    Ok(rest) => Ok(seq![v] + rest),
                    Err(message) => Err(message),
                },
                CellView::Skip => Err("non-numeric table cell in "@ + context),
                CellView::Misfit(message) => Err(message),
            }
        } else {
            cells_from(nodes, list, from + 1, context)
        }
    }
}

/// The cells of an axis or a body; none where it has no `<Cells>` list.
pub open spec fn cells_of(nodes: Seq<NodeView>, parent: usize, context: Seq<char>) -> Result<
    Seq<M1Scalar>,
    Seq<char>,
> {
    match child_from(nodes, parent, "Cells"@, 0) {
        Some(list) => cells_from(nodes, list, 0, context),
        None => Ok(Seq::empty()),
    }
}

/// What is left of a list of cells after some have been read.
proof fn lemma_cells_step(
    nodes: Seq<NodeView>,
    list: usize,
    done: Seq<M1Scalar>,
    i: int,
    context: Seq<char>,
)
    requires
        0 <= i < nodes.len(),
        nodes[i].0 == Some(list),
        is_element(nodes[i], "Cell"@),
    ensures
        cell_of(
            nodes[i].3,
            cell_type(nodes[i], attribute_of(nodes[list as int].2, "Type"@)),
            context,
        ) matches CellView::Scalar(v) ==> match cells_from(nodes, list, i, context) {
            Ok(s) => cells_from(nodes, list, i + 1, context) matches Ok(t) && done + s
                == done.push(v) + t,
            Err(message) => cells_from(nodes, list, i + 1, context) matches Err(m) && m == message,
        },
{
    let ty = cell_type(nodes[i], attribute_of(nodes[list as int].2, "Type"@));
    if let CellView::Scalar(v) = cell_of(nodes[i].3, ty, context) {
        if let Ok(t) = cells_from(nodes, list, i + 1, context) {
            assert(done + (seq![v] + t) =~= done.push(v) + t);
        }
    }
}

fn cells_values(nodes: &Vec<XmlNode>, parent: usize, context: &str) -> (r: Result<
    Vec<M1Scalar>,
    EvalError,
>)
    requires
        parent < nodes.len(),
    ensures
        match cells_of(nodes_of(nodes@), parent, context@) {
            Ok(s) => r matches Ok(v) && v@ == s,
            Err(message) => r matches Err(e) && is_cell_error(e, message),
        },
{
    let ghost all = nodes_of(nodes@);
    let list: usize = match child_after(nodes, parent, "Cells", 0) {
        Some(i) => i,
        None => return Ok(Vec::new()),
    };
    let declared: Option<&str> = attribute(&nodes[list], "Type");
    let mut out: Vec<M1Scalar> = Vec::new();
    let mut i: usize = 0;
    assert(all[list as int] == nodes@[list as int]@);
    while i < nodes.len()
        invariant
            i <= nodes.len(),
            list < nodes.len(),
            all == nodes_of(nodes@),
            cells_of(all, parent, context@) == cells_from(all, list, 0, context@),
            str_of(declared) == attribute_of(all[list as int].2, "Type"@),
            match cells_from(all, list, 0, context@) {
                Ok(s) => cells_from(all, list, i as int, context@) matches Ok(t) && s == out@ + t,
                Err(message) => cells_from(all, list, i as int, context@) matches Err(m) && m
                    == message,
            },
        decreases nodes.len() - i,
    {
        let n = &nodes[i];
        assert(all[i as int] == n@);
        if n.parent == Some(list) && has_tag_name(n, "Cell") {
            let own: Option<&str> = attribute(n, "Type");
            let ty: Option<&str> = match own {
                Some(t) => Some(t),
                None => declared,
            };
            assert(str_of(ty) == cell_type(n@, attribute_of(all[list as int].2, "Type"@)));
            match cell_value(n, ty, context) {
                Ok(Some(v)) => {
                    proof {
                        lemma_cells_step(all, list, out@, i as int, context@);
                    }
                    out.push(v);
                },
                Ok(None) => {
                    return Err(
                        EvalError::MissingCalibration {
                            path: joined("non-numeric table cell in ", context),
                        },
                    );
                },
                Err(e) => return Err(e),
            }
        }
        i = i + 1;
    }
    assert(out@ + Seq::<M1Scalar>::empty() =~= out@);
    Ok(out)
}

/// Where the cells of an axis stand.
pub open spec fn axis_context(name: Seq<char>, tag: Seq<char>) -> Seq<char> {
    "table "@ + name + " axis "@ + tag
}

/// Where the cells of a body stand.
pub open spec fn body_context(name: Seq<char>) -> Seq<char> {
    "table "@ + name + " body"@
}

/// The axes of a table that are present, in the order of the given tags.
pub open spec fn axes_of(
    nodes: Seq<NodeView>,
    table: usize,
    name: Seq<char>,
    tags: Seq<Seq<char>>,
) -> Result<Seq<Seq<M1Scalar>>, Seq<char>>
    decreases tags.len(),
{
    if tags.len() == 0 {
        Ok(Seq::empty())
    } else {
        match axes_of(nodes, table, name, tags.drop_last()) {
            Err(message) => Err(message),
            Ok(before) => match child_from(nodes, table, tags.last(), 0) {
                None => Ok(before),
                Some(axis) => match cells_of(nodes, axis, axis_context(name, tags.last())) {
                    Ok(s) => Ok(before.push(s)),
                    Err(message) => Err(message),
                },
            },
        }
    }
}

/// The tags of the axes.
pub open spec fn axis_tags() -> Seq<Seq<char>> {
    seq!["X"@, "Y"@, "Z"@]
}

/// The table of a `<Table>` element with a name, or the message about its first cell that
/// is no number.
pub open spec fn table_of(nodes: Seq<NodeView>, table: usize, name: Seq<char>) -> Result<
    TableView,
    Seq<char>,
> {
    match axes_of(nodes, table, name, axis_tags()) {
        Err(message) => Err(message),
        Ok(axes) => match child_from(nodes, table, "Body"@, 0) {
            None => Ok((axes, Seq::empty())),
            Some(body) => match cells_of(nodes, body, body_context(name)) {
                Ok(s) => Ok((axes, s)),
                Err(message) => Err(message),
            },
        },
    }
}

/// Adds an axis to those read so far, where the table has it.
fn read_axis(
    nodes: &Vec<XmlNode>,
    table: usize,
    name: &str,
    tag: &str,
    axes: &mut Vec<Vec<M1Scalar>>,
) -> (r: Result<(), EvalError>)
    ensures
        ({
            let all = nodes_of(nodes@);
            let before = old(axes)@.map_values(|a: Vec<M1Scalar>| a@);
            let after = final(axes)@.map_values(|a: Vec<M1Scalar>| a@);
            match child_from(all, table, tag@, 0) {
                None => r is Ok && after == before,
                Some(axis) => match cells_of(all, axis, axis_context(name@, tag@)) {
                    Ok(s) => r is Ok && after == before.push(s),
                    Err(message) => r matches Err(e) && is_cell_error(e, message),
                },
            }
        }),
{
    let ghost before = axes@.map_values(|a: Vec<M1Scalar>| a@);
    match child_after(nodes, table, tag, 0) {
        None => Ok(()),
        Some(axis) => {
            let context: String = enclosed("table ", name, " axis ").concat(tag);
            match cells_values(nodes, axis, context.as_str()) {
                Ok(v) => {
                    let ghost s = v@;
                    axes.push(v);
                    assert(axes@.map_values(|a: Vec<M1Scalar>| a@) =~= before.push(s));
                    Ok(())
                },
                Err(e) => Err(e),
            }
        },
    }
}

fn parse_table(nodes: &Vec<XmlNode>, table: usize, name: &str) -> (r: Result<CalTable, EvalError>)
    ensures
        match table_of(nodes_of(nodes@), table, name@) {
            Ok(t) => r matches Ok(v) && v@ == t,
            Err(message) => r matches Err(e) && is_cell_error(e, message),
        },
{
    let ghost all = nodes_of(nodes@);
    let mut axes: Vec<Vec<M1Scalar>> = Vec::new();
    proof {
        reveal_with_fuel(axes_of, 4);
        assert(axis_tags().drop_last() =~= seq!["X"@, "Y"@]);
        assert(axis_tags().drop_last().drop_last() =~= seq!["X"@]);
        assert(axis_tags().drop_last().drop_last().drop_last() =~= Seq::<Seq<char>>::empty());
        assert(axes@.map_values(|a: Vec<M1Scalar>| a@) =~= Seq::<Seq<M1Scalar>>::empty());
    }
    read_axis(nodes, table, name, "X", &mut axes)?;
    read_axis(nodes, table, name, "Y", &mut axes)?;
    read_axis(nodes, table, name, "Z", &mut axes)?;
    assert(axes_of(all, table, name@, axis_tags()) == Ok::<Seq<Seq<M1Scalar>>, Seq<char>>(
        axes@.map_values(|a: Vec<M1Scalar>| a@),
    ));
    let body: Vec<M1Scalar> = match child_after(nodes, table, "Body", 0) {
        Some(b) => cells_values(nodes, b, enclosed("table ", name, " body").as_str())?,
        None => Vec::new(),
    };
    Ok(CalTable { axes, body })
}

/// The parameters among the first `n` nodes, or the message about the first that does not
/// fit its type.
pub open spec fn params_of(nodes: Seq<NodeView>, n: nat) -> Result<
    Map<Seq<char>, M1Scalar>,
    Seq<char>,
>
    decreases n,
{
    if n == 0 {
        Ok(Map::empty())
    } else {
        let i = (n - 1) as nat;
        match params_of(nodes, i) {
            Err(message) => Err(message),
            Ok(before) => if is_element(nodes[i as int], "Parameter"@) {
                match (
                    attribute_of(nodes[i as int].2, "Name"@),
                    child_from(nodes, i as usize, "Cell"@, 0),
                ) {
                    (Some(name), Some(cell)) => match cell_of(
                        nodes[cell as int].3,
                        attribute_of(nodes[cell as int].2, "Type"@),
                        name,
                    ) {
                        CellView::Skip => Ok(before),
                        CellView::Scalar(v) => Ok(before.insert(name, v)),
                        CellView::Misfit(message) => Err(message),
                    },
                    _ => Ok(before),
                }
            } else {
                Ok(before)
            },
        }
    }
}

/// The tables among the first `n` nodes, or the message about the first cell that does
/// not fit its type.
pub open spec fn tables_of(nodes: Seq<NodeView>, n: nat) -> Result<
    Map<Seq<char>, TableView>,
    Seq<char>,
>
    decreases n,
{
    if n == 0 {
        Ok(Map::empty())
    } else {
        let i = (n - 1) as nat;
        match tables_of(nodes, i) {
            Err(message) => Err(message),
            Ok(before) => if is_element(nodes[i as int], "Table"@) {
                match attribute_of(nodes[i as int].2, "Name"@) {
                    Some(name) => match table_of(nodes, i as usize, name) {
                        Ok(t) => Ok(before.insert(name, t)),
                        Err(message) => Err(message),
                    },
                    None => Ok(before),
                }
            } else {
                Ok(before)
            },
        }
    }
}

/// Whether a result is what a document holds: its values, or the message about the first
/// parameter, and then the first table, that cannot be read.
pub open spec fn holds(r: Result<Calibration, EvalError>, all: Seq<NodeView>) -> bool {
    match (params_of(all, all.len()), tables_of(all, all.len())) {
        (Err(message), _) => r matches Err(e) && is_cell_error(e, message),
        (Ok(_), Err(message)) => r matches Err(e) && is_cell_error(e, message),
        (Ok(p), Ok(t)) => r matches Ok(c) && c.params@ == p && tables_view(c.tables@) == t,
    }
}

/// An error among the first nodes is an error of all.
proof fn lemma_params_fail(nodes: Seq<NodeView>, i: nat, n: nat)
    requires
        i <= n,
        params_of(nodes, i) is Err,
    ensures
        params_of(nodes, n) == params_of(nodes, i),
    decreases n - i,
{
    if i < n {
        lemma_params_fail(nodes, i + 1, n);
    }
}

proof fn lemma_tables_fail(nodes: Seq<NodeView>, i: nat, n: nat)
    requires
        i <= n,
        tables_of(nodes, i) is Err,
    ensures
        tables_of(nodes, n) == tables_of(nodes, i),
    decreases n - i,
{
    if i < n {
        lemma_tables_fail(nodes, i + 1, n);
    }
}

/// The content of a map of tables.
pub open spec fn tables_view(m: Map<Seq<char>, CalTable>) -> Map<Seq<char>, TableView> {
    m.map_values(|t: CalTable| t@)
}

impl Calibration {
    /// No values.
    pub fn empty() -> (r: Calibration)
        ensures
            r.params@ == Map::<Seq<char>, M1Scalar>::empty(),
            r.tables@ == Map::<Seq<char>, CalTable>::empty(),
    {
        Calibration { params: TextMap::new(), tables: TextMap::new() }
    }

    /// Reads the values of a parsed document.
    pub fn from_nodes(nodes: &Vec<XmlNode>) -> (r: Result<Calibration, EvalError>)
        ensures
            holds(r, nodes_of(nodes@)),
    {
        let ghost all = nodes_of(nodes@);
        let mut params: TextMap<M1Scalar> = TextMap::new();
        let mut i: usize = 0;
        while i < nodes.len()
            invariant
                i <= nodes.len() == all.len(),
                all == nodes_of(nodes@),
                params_of(all, i as nat) == Ok::<Map<Seq<char>, M1Scalar>, Seq<char>>(params@),
            decreases nodes.len() - i,
        {
            let n = &nodes[i];
            assert(all[i as int] == n@);
            if has_tag_name(n, "Parameter") {
                match (attribute(n, "Name"), child_after(nodes, i, "Cell", 0)) {
                    (Some(name), Some(cell)) => {
                        let c = &nodes[cell];
                        assert(all[cell as int] == c@);
                        match cell_value(c, attribute(c, "Type"), name) {
                            Ok(Some(v)) => {
                                params.insert(name.to_owned(), v);
                            },
                            Ok(None) => {},
                            Err(e) => {
                                proof {
                                    assert(params_of(all, (i + 1) as nat) is Err);
                                    lemma_params_fail(all, (i + 1) as nat, all.len());
                                }
                                return Err(e);
                            },
                        }
                    },
                    _ => {},
                }
            }
            i = i + 1;
        }
        let mut tables: TextMap<CalTable> = TextMap::new();
        let mut j: usize = 0;
        assert(tables_view(tables@) =~= Map::<Seq<char>, TableView>::empty());
        while j < nodes.len()
            invariant
                j <= nodes.len() == all.len(),
                all == nodes_of(nodes@),
                params_of(all, all.len()) == Ok::<Map<Seq<char>, M1Scalar>, Seq<char>>(params@),
                tables_of(all, j as nat) == Ok::<Map<Seq<char>, TableView>, Seq<char>>(
                    tables_view(tables@),
                ),
            decreases nodes.len() - j,
        {
            let n = &nodes[j];
            assert(all[j as int] == n@);
            if has_tag_name(n, "Table") {
                match attribute(n, "Name") {
                    Some(name) => match parse_table(nodes, j, name) {
                        Ok(t) => {
                            let ghost before = tables@;
                            let ghost view = t@;
                            let ghost key = name@;
                            tables.insert(name.to_owned(), t);
                            assert(tables_view(tables@) =~= tables_view(before).insert(key, view));
                        },
                        Err(e) => {
                            proof {
                                assert(tables_of(all, (j + 1) as nat) is Err);
                                lemma_tables_fail(all, (j + 1) as nat, all.len());
                            }
                            return Err(e);
                        },
                    },
                    None => {},
                }
            }
            j = j + 1;
        }
        Ok(Calibration { params, tables })
    }

    /// Reads the values of a calibration document.
    pub fn from_m1cfg_str(xml: &str) -> (r: Result<Calibration, EvalError>)
        ensures
            match xml_document(xml@) {
                Ok(all) => holds(r, all),
                Err(message) => r matches Err(EvalError::MissingCalibration { path }) && path@
                    == ".m1cfg parse error: "@ + message,
            },
    {
        match parse_document(xml) {
            Ok(nodes) => Calibration::from_nodes(&nodes),
            Err(message) => Err(
                EvalError::MissingCalibration {
                    path: joined(".m1cfg parse error: ", message.as_str()),
                },
            ),
        }
    }

    /// The value of a parameter.
    pub fn param(&self, path: &str) -> (r: Option<M1Scalar>)
        ensures
            r == if self.params@.contains_key(path@) {
                Some(self.params@[path@])
            } else {
                None
            },
    {
        match self.params.get(path) {
            Some(v) => Some(*v),
            None => None,
        }
    }

    /// The values of a table.
    pub fn table(&self, path: &str) -> (r: Option<&CalTable>)
        ensures
            r.is_some() == self.tables@.contains_key(path@),
            r.is_some() ==> *r.unwrap() == self.tables@[path@],
    {
        self.tables.get(path)
    }
}

} // verus!
