//! `AsInteger` and `AsString` on enumerations.
//!
//! The receiver is a member written out, such as `Drive State.Idle`, or an object
//! that holds a member. Names may hold spaces, so a member is only ever split off
//! at the last dot. The integer is the declared one, not the member's position.

use crate::builtins::paths::{value_path, value_path_of, Sought};
use crate::context::{marked, read_symbol, reading, substituted, EvalCtx, ReadView};
use crate::error::{is_type_error, type_error, EvalError};
use crate::project::{
    borrow_text, classify, resolved, split_at_leaf, split_leaf, text_of, Project, Target,
    TargetView,
};
use crate::text::{enclosed, joined, quoted, quoted_text};
use crate::value::{M1Scalar, Value};
use vstd::prelude::*;
use vstd::string::*;

verus! {

/// Where the member of an enumeration comes from.
pub enum EnumSource {
    /// It is written out.
    Literal(usize, Seq<char>),
    /// A name of an enumeration with something else than a member of it, after the name.
    NotMember(Seq<char>, Seq<char>),
    /// It is held at a path.
    Held(Seq<char>),
    /// Nowhere.
    Absent,
}

/// Where the member that an object stands for comes from.
pub open spec fn enum_source(ctx: EvalCtx, object: Seq<char>) -> EnumSource {
    let literal = match split_leaf(object) {
        Some((prefix, leaf)) => match ctx.project.enum_named(prefix) {
            Some(id) => Some((id, leaf)),
            None => None,
        },
        None => None,
    };
    match literal {
        Some((id, leaf)) => if ctx.project.enum_value(id, leaf) is Some {
            EnumSource::Literal(id, leaf)
        } else {
            EnumSource::NotMember(split_leaf(object)->Some_0.0, leaf)
        },
        None => match resolved(
            *ctx.project,
            object,
            text_of(ctx.group),
            text_of(ctx.fn_symbol),
            ctx.env.locals@,
        ) {
            TargetView::Symbol(canon) => match value_path_of(
                *ctx.project,
                Sought::Enumeration,
                canon,
            ) {
                Some(path) => EnumSource::Held(path),
                None => EnumSource::Absent,
            },
            _ => EnumSource::Absent,
        },
    }
}

/// What is wrong with a name that is no member of an enumeration.
pub open spec fn not_member(leaf: Seq<char>, name: Seq<char>) -> Seq<char> {
    quoted_text(leaf) + " is not a member of enum "@ + quoted_text(name)
}

/// Whether a result is a member that is specified, read from its source.
pub open spec fn gives_member(
    before: EvalCtx,
    after: EvalCtx,
    object: Seq<char>,
    r: Result<Option<Value>, EvalError>,
) -> bool {
    match enum_source(before, object) {
        EnumSource::Absent => r == Ok::<Option<Value>, EvalError>(None) && after == before,
        EnumSource::NotMember(name, leaf) => (r matches Err(e) && is_type_error(
            e,
            not_member(leaf, name),
        )) && after == before,
        EnumSource::Literal(id, leaf) => (r matches Ok(Some(Value::Enum { id: i, member })) && i == id
            && member@ == leaf) && after == before,
        EnumSource::Held(path) => match reading(before, path) {
            ReadView::Value(v) => member_or_error(r, v, path) && after == before,
            ReadView::Default(v) => member_or_error(r, v, path) && substituted(
                before,
                after,
                path,
                v,
            ),
            ReadView::Startup(v) => member_or_error(r, v, path) && marked(before.trace, after.trace, path)
                && after == (EvalCtx { trace: after.trace, ..before }),
            ReadView::MissingCalibration => (r matches Err(EvalError::MissingCalibration { path: p })
                && p@ == path) && after == before,
            ReadView::MissingInput => (r matches Err(EvalError::MissingInput { channel }) && channel@
                == path) && after == before,
        },
    }
}

/// A value that must be a member of an enumeration.
pub open spec fn member_or_error(
    r: Result<Option<Value>, EvalError>,
    v: Value,
    path: Seq<char>,
) -> bool {
    if v is Enum {
        r == Ok::<Option<Value>, EvalError>(Some(v))
    } else {
        r matches Err(e) && is_type_error(e, no_member_at(path))
    }
}

/// What is wrong with a value that is no member of an enumeration.
pub open spec fn no_member_at(path: Seq<char>) -> Seq<char> {
    "value at "@ + quoted_text(path) + " is not an enum value"@
}

fn enum_value(object: &str, ctx: &mut EvalCtx) -> (r: Result<Option<Value>, EvalError>)
    ensures
        gives_member(*old(ctx), *final(ctx), object@, r),
{
    if let Some((prefix, leaf)) = split_at_leaf(object) {
        if let Some(id) = ctx.project.enum_by_name(prefix.as_str()) {
            if ctx.project.enum_has_member(id, leaf.as_str()) {
                return Ok(Some(Value::Enum { id, member: leaf }));
            }
            let a = quoted(leaf.as_str());
            let b = quoted(prefix.as_str());
            let detail = a.concat(" is not a member of enum ").concat(b.as_str());
            return Err(EvalError::TypeError { detail });
        }
    }
    let path: String = match classify(
        object,
        borrow_text(&ctx.group),
        borrow_text(&ctx.fn_symbol),
        ctx.project,
        &ctx.env.locals,
    ) {
        Target::Symbol(canon) => match value_path(
            ctx.project,
            Sought::Enumeration,
            canon.as_str(),
        ) {
            Some(p) => p,
            None => return Ok(None),
        },
        _ => return Ok(None),
    };
    let value = read_symbol(path.as_str(), ctx)?;
    let member = match &value {
        Value::Enum { .. } => true,
        _ => false,
    };
    if member {
        Ok(Some(value))
    } else {
        let q = quoted(path.as_str());
        let detail = joined("value at ", q.as_str()).concat(" is not an enum value");
        Err(EvalError::TypeError { detail })
    }
}

/// The integer of a member of an enumeration.
pub open spec fn enum_int(project: Project, value: Value) -> Option<i64> {
    match value {
        Value::Enum { id, member } => project.enum_value(id, member@),
        _ => None,
    }
}

/// What is wrong with a value that has no integer.
pub open spec fn int_fault(project: Project, value: Value) -> Seq<char> {
    match value {
        Value::Enum { id, member } => not_member(
            member@,
            if id < project.enums@.len() {
                project.enums@[id as int].name@
            } else {
                "(unknown)"@
            },
        ),
        _ => "expected an enum value"@,
    }
}

fn as_enum_int(value: &Value, project: &Project) -> (r: Result<i64, EvalError>)
    ensures
        match enum_int(*project, *value) {
            Some(n) => r == Ok::<i64, EvalError>(n),
            None => r matches Err(e) && is_type_error(e, int_fault(*project, *value)),
        },
{
    match value {
        Value::Enum { id, member } => match project.enum_member(*id, member.as_str()) {
            Some(n) => Ok(n),
            None => {
                let a = quoted(member.as_str());
                let name: &str = if *id < project.enums.len() {
                    project.enums[*id].name.as_str()
                } else {
                    "(unknown)"
                };
                let b = quoted(name);
                let detail = a.concat(" is not a member of enum ").concat(b.as_str());
                Err(EvalError::TypeError { detail })
            },
        },
        _ => Err(type_error("expected an enum value")),
    }
}

/// Whether a result is what a conversion makes of the member that an object stands for.
pub open spec fn converts_member(
    before: EvalCtx,
    after: EvalCtx,
    object: Seq<char>,
    r: Result<Option<Value>, EvalError>,
    literal: spec_fn(usize, Seq<char>) -> Result<ValueSketch, Seq<char>>,
    held: spec_fn(Value) -> Result<ValueSketch, Seq<char>>,
) -> bool {
    match enum_source(before, object) {
        EnumSource::Absent => r == Ok::<Option<Value>, EvalError>(None) && after == before,
        EnumSource::NotMember(name, leaf) => (r matches Err(e) && is_type_error(
            e,
            not_member(leaf, name),
        )) && after == before,
        EnumSource::Literal(id, leaf) => sketched(r, literal(id, leaf)) && after == before,
        EnumSource::Held(path) => match reading(before, path) {
            ReadView::Value(v) => sketched(r, held_or_fault(held, v, path)) && after == before,
            ReadView::Default(v) => sketched(r, held_or_fault(held, v, path)) && substituted(
                before,
                after,
                path,
                v,
            ),
            ReadView::Startup(v) => sketched(r, held_or_fault(held, v, path)) && marked(before.trace, after.trace, path)
                && after == (EvalCtx { trace: after.trace, ..before }),
            ReadView::MissingCalibration => (r matches Err(EvalError::MissingCalibration { path: p })
                && p@ == path) && after == before,
            ReadView::MissingInput => (r matches Err(EvalError::MissingInput { channel }) && channel@
                == path) && after == before,
        },
    }
}

/// What a conversion makes of a value that is held at a path, which must be a member.
pub open spec fn held_or_fault(
    held: spec_fn(Value) -> Result<ValueSketch, Seq<char>>,
    v: Value,
    path: Seq<char>,
) -> Result<ValueSketch, Seq<char>> {
    if v is Enum {
        held(v)
    } else {
        Err(no_member_at(path))
    }
}

/// What a conversion gives: an integer or a text.
pub enum ValueSketch {
    /// A script integer.
    Integer(int),
    /// A text.
    Text(Seq<char>),
}

/// Whether a result is the value that is sketched, and a type error that says what is wrong
/// where there is none.
pub open spec fn sketched(
    r: Result<Option<Value>, EvalError>,
    s: Result<ValueSketch, Seq<char>>,
) -> bool {
    match s {
        Ok(ValueSketch::Integer(n)) => r matches Ok(Some(Value::M1(M1Scalar::Integer(x)))) && x
            == n,
        Ok(ValueSketch::Text(t)) => r matches Ok(Some(Value::Str(x))) && x@ == t,
        Err(fault) => r matches Err(e) && is_type_error(e, fault),
    }
}

/// The integer of a member, where it fits the script's integers.
pub open spec fn integer_sketch(n: Option<i64>, object: Seq<char>, fault: Seq<char>) -> Result<
    ValueSketch,
    Seq<char>,
> {
    match n {
        Some(n) => if i32::MIN <= n <= i32::MAX {
            Ok(ValueSketch::Integer(n as int))
        } else {
            Err(
                "enum value from "@ + quoted_text(object) + " is outside the M1 Integer range"@,
            )
        },
        None => Err(fault),
    }
}

/// The name of a member, where it is one.
pub open spec fn name_sketch(n: Option<i64>, name: Seq<char>, fault: Seq<char>) -> Result<
    ValueSketch,
    Seq<char>,
> {
    match n {
        Some(_) => Ok(ValueSketch::Text(name)),
        None => Err(fault),
    }
}

/// The name that a value holds.
pub open spec fn member_name(v: Value) -> Seq<char> {
    match v {
        Value::Enum { member, .. } => member@,
        _ => Seq::empty(),
    }
}

/// Whether a result and a context are those of `AsInteger`.
pub open spec fn gives_integer(
    before: EvalCtx,
    after: EvalCtx,
    object: Seq<char>,
    r: Result<Option<Value>, EvalError>,
) -> bool {
    converts_member(
        before,
        after,
        object,
        r,
        |id: usize, leaf: Seq<char>|
            integer_sketch(before.project.enum_value(id, leaf), object, Seq::empty()),
        |v: Value|
            integer_sketch(enum_int(*before.project, v), object, int_fault(*before.project, v)),
    )
}

/// Whether a result and a context are those of `AsString`.
pub open spec fn gives_name(
    before: EvalCtx,
    after: EvalCtx,
    object: Seq<char>,
    r: Result<Option<Value>, EvalError>,
) -> bool {
    converts_member(
        before,
        after,
        object,
        r,
        |id: usize, leaf: Seq<char>|
            name_sketch(before.project.enum_value(id, leaf), leaf, Seq::empty()),
        |v: Value|
            name_sketch(
                enum_int(*before.project, v),
                member_name(v),
                int_fault(*before.project, v),
            ),
    )
}

/// `AsInteger()`: the declared integer of a member, or `None` where the object stands for none.
pub fn as_integer(object: &str, ctx: &mut EvalCtx) -> (r: Result<Option<Value>, EvalError>)
    ensures
        gives_integer(*old(ctx), *final(ctx), object@, r),
{
    let value = match enum_value(object, ctx)? {
        Some(v) => v,
        None => return Ok(None),
    };
    let n: i64 = as_enum_int(&value, ctx.project)?;
    if -0x8000_0000 <= n && n <= 0x7fff_ffff {
        Ok(Some(Value::m1_integer(n as i32)))
    } else {
        let detail: String = enclosed(
            "enum value from ",
            quoted(object).as_str(),
            " is outside the M1 Integer range",
        );
        Err(EvalError::TypeError { detail })
    }
}

/// `AsString()`: the name of a member, or `None` where the object stands for none.
pub fn as_string(object: &str, ctx: &mut EvalCtx) -> (r: Result<Option<Value>, EvalError>)
    ensures
        gives_name(*old(ctx), *final(ctx), object@, r),
{
    let value = match enum_value(object, ctx)? {
        Some(v) => v,
        None => return Ok(None),
    };
    let _n: i64 = as_enum_int(&value, ctx.project)?;
    match value {
        Value::Enum { member, .. } => Ok(Some(Value::Str(member))),
        _ => Ok(None),
    }
}

} // verus!
