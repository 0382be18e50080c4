//! Conversion of a value to the family that a channel, a parameter or a result stores.
//!
//! Between signed and unsigned the 32-bit pattern is kept. Every script number
//! converts to floating point. Nothing else changes family.

use crate::builtins::scalars::{pattern, pattern_of};
use crate::error::{is_type_error, type_error, EvalError};
use crate::project::{text_of, Project};
use crate::text::{enclosed, joined, lower, lowered, same};
use crate::value::{
    family_name, kind_name, show_value, value_text, M1Scalar, M1ScalarKind, Value, ValueType,
};
use vstd::prelude::*;

verus! {

/// The signed value of an unsigned 32-bit pattern.
pub open spec fn signed_pattern(v: u32) -> i32 {
    if v >= 0x8000_0000 {
        (v - 0x1_0000_0000) as i32
    } else {
        v as i32
    }
}

/// A value in a scalar family.
pub open spec fn to_kind(value: Value, kind: M1ScalarKind) -> Option<Value> {
    match (value, kind) {
        (Value::M1(M1Scalar::Integer(v)), M1ScalarKind::Integer) => Some(value),
        (Value::M1(M1Scalar::UnsignedInteger(v)), M1ScalarKind::Integer) => Some(
            Value::M1(M1Scalar::Integer(signed_pattern(v))),
        ),
        (Value::M1(M1Scalar::UnsignedInteger(v)), M1ScalarKind::UnsignedInteger) => Some(value),
        (Value::M1(M1Scalar::Integer(v)), M1ScalarKind::UnsignedInteger) => Some(
            Value::M1(M1Scalar::UnsignedInteger(pattern(v))),
        ),
        (Value::M1(s), M1ScalarKind::FloatingPoint) => Some(
            Value::M1(M1Scalar::FloatingPoint(s.single())),
        ),
        (Value::M1(M1Scalar::FixedPoint7dps(v)), M1ScalarKind::FixedPoint7dps) => Some(value),
        _ => None,
    }
}

/// Whether a result is the converted value, and a type error that says what is wrong where
/// there is none.
pub open spec fn converts(
    r: Result<Value, EvalError>,
    v: Option<Value>,
    fault: Seq<char>,
) -> bool {
    match v {
        Some(v) => r == Ok::<Value, EvalError>(v),
        None => r matches Err(e) && is_type_error(e, fault),
    }
}

/// What is wrong with a value for a target.
pub open spec fn target_fault(key: Seq<char>, wanted: Seq<char>, value: Value) -> Seq<char> {
    key + " expects "@ + wanted + ", got "@ + value_text(value)
}

fn wrong_target(key: &str, wanted: &str, value: &Value) -> (r: EvalError)
    ensures
        is_type_error(r, target_fault(key@, wanted@, *value)),
{
    let head: String = enclosed(key, " expects ", wanted);
    type_error(enclosed(head.as_str(), ", got ", show_value(value).as_str()).as_str())
}

/// What is wrong with a value for a scalar family.
pub open spec fn kind_fault(key: Seq<char>, value: Value, kind: M1ScalarKind) -> Seq<char> {
    target_fault(key, "M1 "@ + family_name(kind), value)
}

/// Converts to a scalar family. The key names the target.
pub fn coerce_for_scalar_kind(key: &str, value: Value, kind: M1ScalarKind) -> (r: Result<
    Value,
    EvalError,
>)
    ensures
        converts(r, to_kind(value, kind), kind_fault(key@, value, kind)),
{
    match (&value, kind) {
        (Value::M1(M1Scalar::Integer(_)), M1ScalarKind::Integer) => Ok(value),
        (Value::M1(M1Scalar::UnsignedInteger(v)), M1ScalarKind::Integer) => {
            let n: i64 = *v as i64;
            Ok(Value::m1_integer(if n >= 0x8000_0000 { (n - 0x1_0000_0000) as i32 } else { n as i32 }))
        },
        (Value::M1(M1Scalar::UnsignedInteger(_)), M1ScalarKind::UnsignedInteger) => Ok(value),
        (Value::M1(M1Scalar::Integer(v)), M1ScalarKind::UnsignedInteger) => {
            Ok(Value::m1_unsigned(pattern_of(*v)))
        },
        (Value::M1(s), M1ScalarKind::FloatingPoint) => Ok(Value::m1_float(s.single())),
        (Value::M1(M1Scalar::FixedPoint7dps(_)), M1ScalarKind::FixedPoint7dps) => Ok(value),
        _ => Err(wrong_target(key, joined("M1 ", kind_name(kind)).as_str(), &value)),
    }
}

/// A value of a declared type.
pub open spec fn to_type(value: Value, ty: ValueType) -> Option<Value> {
    match ty {
        ValueType::Integer => to_kind(value, M1ScalarKind::Integer),
        ValueType::Unsigned => to_kind(value, M1ScalarKind::UnsignedInteger),
        ValueType::Float => to_kind(value, M1ScalarKind::FloatingPoint),
        ValueType::Boolean => if value is Bool {
            Some(value)
        } else {
            None
        },
        ValueType::String => if value is Str {
            Some(value)
        } else {
            None
        },
        ValueType::Enum(id) => match value {
            Value::Enum { id: given, .. } if given == id => Some(value),
            _ => None,
        },
        ValueType::Unknown => Some(value),
    }
}

/// What a declared type wants, in words.
pub open spec fn type_wants(ty: ValueType) -> Seq<char> {
    match ty {
        ValueType::Integer => "M1 "@ + family_name(M1ScalarKind::Integer),
        ValueType::Unsigned => "M1 "@ + family_name(M1ScalarKind::UnsignedInteger),
        ValueType::Float => "M1 "@ + family_name(M1ScalarKind::FloatingPoint),
        ValueType::Boolean => "a Boolean"@,
        ValueType::String => "a String"@,
        _ => "a member of its enumeration"@,
    }
}

/// What is wrong with a value for a declared type.
pub open spec fn type_fault(key: Seq<char>, value: Value, ty: ValueType) -> Seq<char> {
    target_fault(key, type_wants(ty), value)
}

/// Converts to a declared type. The key names the target.
pub fn coerce_for_declared_type(key: &str, value: Value, ty: ValueType) -> (r: Result<
    Value,
    EvalError,
>)
    ensures
        converts(r, to_type(value, ty), type_fault(key@, value, ty)),
{
    match ty {
        ValueType::Integer => coerce_for_scalar_kind(key, value, M1ScalarKind::Integer),
        ValueType::Unsigned => coerce_for_scalar_kind(key, value, M1ScalarKind::UnsignedInteger),
        ValueType::Float => coerce_for_scalar_kind(key, value, M1ScalarKind::FloatingPoint),
        ValueType::Boolean => match &value {
            Value::Bool(_) => Ok(value),
            _ => Err(wrong_target(key, "a Boolean", &value)),
        },
        ValueType::String => match &value {
            Value::Str(_) => Ok(value),
            _ => Err(wrong_target(key, "a String", &value)),
        },
        ValueType::Enum(id) => {
            let fits = match &value {
                Value::Enum { id: given, .. } => *given == id,
                _ => false,
            };
            if fits {
                Ok(value)
            } else {
                Err(wrong_target(key, "a member of its enumeration", &value))
            }
        },
        ValueType::Unknown => Ok(value),
    }
}

/// Whether a declared type names fixed point.
pub open spec fn names_fixed(declared: Option<Seq<char>>) -> bool {
    match declared {
        Some(d) => lowered(d) == "fixedpoint7dps"@ || lowered(d) == "fixed7dps"@,
        None => false,
    }
}

/// Whether a declared type names fixed point.
pub fn declares_fixed(declared: &Option<String>) -> (r: bool)
    ensures
        r == names_fixed(text_of(*declared)),
{
    match declared {
        Some(d) => {
            let l = lower(d.as_str());
            same(l.as_str(), "fixedpoint7dps") || same(l.as_str(), "fixed7dps")
        },
        None => false,
    }
}

/// A value as the channel at a path stores it; unchanged where there is no such symbol.
pub open spec fn to_channel(project: Project, path: Seq<char>, value: Value) -> Option<Value> {
    if project.symbols@.contains_key(path) {
        let symbol = project.symbols@[path];
        if names_fixed(text_of(symbol.declared_type)) {
            to_kind(value, M1ScalarKind::FixedPoint7dps)
        } else {
            to_type(value, symbol.value_type)
        }
    } else {
        Some(value)
    }
}

/// What the channel at a path wants, in words.
pub open spec fn channel_wants(project: Project, path: Seq<char>) -> Seq<char> {
    let symbol = project.symbols@[path];
    if names_fixed(text_of(symbol.declared_type)) {
        "M1 "@ + family_name(M1ScalarKind::FixedPoint7dps)
    } else {
        type_wants(symbol.value_type)
    }
}

/// What is wrong with a value for the channel at a path.
pub open spec fn channel_fault(project: Project, path: Seq<char>, value: Value) -> Seq<char> {
    target_fault(path, channel_wants(project, path), value)
}

/// Converts to what the channel at a path stores.
pub fn coerce_for_channel(path: &str, value: Value, project: &Project) -> (r: Result<Value, EvalError>)
    ensures
        converts(r, to_channel(*project, path@, value), channel_fault(*project, path@, value)),
{
    match project.symbols.get(path) {
        Some(symbol) => {
            if declares_fixed(&symbol.declared_type) {
                coerce_for_scalar_kind(path, value, M1ScalarKind::FixedPoint7dps)
            } else {
                coerce_for_declared_type(path, value, symbol.value_type)
            }
        },
        None => Ok(value),
    }
}

/// Converting twice gives what converting once gives.
pub proof fn law_conversion_is_idempotent(value: Value, kind: M1ScalarKind)
    requires
        to_kind(value, kind) is Some,
    ensures
        to_kind(to_kind(value, kind)->Some_0, kind) == to_kind(value, kind),
{
}

/// Going from signed to unsigned and back gives the value again.
pub proof fn law_pattern_round_trip(v: i32)
    ensures
        signed_pattern(pattern(v)) == v,
{
}

} // verus!
