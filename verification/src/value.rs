//! Runtime values.

use crate::error::{is_type_error, type_error, EvalError};
use crate::float::binary32::F32;
use crate::float::binary64::F64;
use crate::text::{
    decimal, decimal_text, enclosed, quoted, quoted_text, signed_decimal, signed_text,
};
use vstd::prelude::*;

verus! {

/// A signed 32-bit count of ten-millionths.
#[derive(Clone, Copy, PartialEq, Eq, Structural, Debug)]
pub struct FixedPoint7dps {
    /// The stored count.
    pub raw: i32,
}

/// How many stored units make one.
pub const FIXED_SCALE: i32 = 10_000_000;

impl FixedPoint7dps {
    /// The value with the given stored count.
    pub fn from_raw(raw: i32) -> (r: FixedPoint7dps)
        ensures
            r.raw == raw,
    {
        FixedPoint7dps { raw }
    }

    /// The stored count.
    pub fn raw(self) -> (r: i32)
        ensures
            r == self.raw,
    {
        self.raw
    }

    /// The value in binary64.
    pub open spec fn spec_wide(self) -> F64 {
        F64::nearest(self.raw as int).over(F64::nearest(FIXED_SCALE as int))
    }

    /// The value in binary64.
    #[verifier::when_used_as_spec(spec_wide)]
    pub fn wide(self) -> (r: F64)
        ensures
            r == self.spec_wide(),
    {
        F64::from_i64(self.raw as i64).over(F64::from_i64(FIXED_SCALE as i64))
    }
}

/// The families of M1 scalars.
#[derive(Clone, Copy, PartialEq, Eq, Structural, Debug)]
pub enum M1ScalarKind {
    /// Signed 32-bit.
    Integer,
    /// Unsigned 32-bit.
    UnsignedInteger,
    /// Binary32.
    FloatingPoint,
    /// Scaled signed 32-bit.
    FixedPoint7dps,
}

/// A numeric value at the width of the firmware.
#[derive(Clone, Copy, PartialEq, Eq, Structural, Debug)]
pub enum M1Scalar {
    /// Signed 32-bit.
    Integer(i32),
    /// Unsigned 32-bit.
    UnsignedInteger(u32),
    /// Binary32.
    FloatingPoint(F32),
    /// Scaled signed 32-bit.
    FixedPoint7dps(FixedPoint7dps),
}

impl M1Scalar {
    /// The value in binary32.
    pub open spec fn spec_single(self) -> F32 {
        match self {
            M1Scalar::Integer(v) => F32::nearest(v as int),
            M1Scalar::UnsignedInteger(v) => F32::nearest(v as int),
            M1Scalar::FloatingPoint(v) => v,
            M1Scalar::FixedPoint7dps(v) => v.wide().narrow(),
        }
    }

    /// The value in binary32.
    #[verifier::when_used_as_spec(spec_single)]
    pub fn single(self) -> (r: F32)
        ensures
            r == self.spec_single(),
    {
        match self {
            M1Scalar::Integer(v) => F32::from_i32(v),
            M1Scalar::UnsignedInteger(v) => F32::from_u32(v),
            M1Scalar::FloatingPoint(v) => v,
            M1Scalar::FixedPoint7dps(v) => v.wide().narrow(),
        }
    }

    /// The value in binary64.
    pub open spec fn spec_wide(self) -> F64 {
        match self {
            M1Scalar::Integer(v) => F64::nearest(v as int),
            M1Scalar::UnsignedInteger(v) => F64::nearest(v as int),
            M1Scalar::FloatingPoint(v) => v.widen(),
            M1Scalar::FixedPoint7dps(v) => v.wide(),
        }
    }

    /// The value in binary64.
    #[verifier::when_used_as_spec(spec_wide)]
    pub fn wide(self) -> (r: F64)
        ensures
            r == self.spec_wide(),
    {
        match self {
            M1Scalar::Integer(v) => F64::from_i64(v as i64),
            M1Scalar::UnsignedInteger(v) => F64::from_u64(v as u64),
            M1Scalar::FloatingPoint(v) => v.widen(),
            M1Scalar::FixedPoint7dps(v) => v.wide(),
        }
    }

    /// The family of the value.
    pub open spec fn spec_kind(self) -> M1ScalarKind {
        match self {
            M1Scalar::Integer(_) => M1ScalarKind::Integer,
            M1Scalar::UnsignedInteger(_) => M1ScalarKind::UnsignedInteger,
            M1Scalar::FloatingPoint(_) => M1ScalarKind::FloatingPoint,
            M1Scalar::FixedPoint7dps(_) => M1ScalarKind::FixedPoint7dps,
        }
    }

    /// The family of the value.
    #[verifier::when_used_as_spec(spec_kind)]
    pub fn kind(self) -> (r: M1ScalarKind)
        ensures
            r == self.spec_kind(),
    {
        match self {
            M1Scalar::Integer(_) => M1ScalarKind::Integer,
            M1Scalar::UnsignedInteger(_) => M1ScalarKind::UnsignedInteger,
            M1Scalar::FloatingPoint(_) => M1ScalarKind::FloatingPoint,
            M1Scalar::FixedPoint7dps(_) => M1ScalarKind::FixedPoint7dps,
        }
    }

    /// The type that numeric promotion sees: fixed point promotes as floating point.
    pub open spec fn spec_value_type(self) -> ValueType {
        match self {
            M1Scalar::Integer(_) => ValueType::Integer,
            M1Scalar::UnsignedInteger(_) => ValueType::Unsigned,
            M1Scalar::FloatingPoint(_) => ValueType::Float,
            M1Scalar::FixedPoint7dps(_) => ValueType::Float,
        }
    }

    /// The type that numeric promotion sees: fixed point promotes as floating point.
    #[verifier::when_used_as_spec(spec_value_type)]
    pub fn value_type(self) -> (r: ValueType)
        ensures
            r == self.spec_value_type(),
    {
        match self {
            M1Scalar::Integer(_) => ValueType::Integer,
            M1Scalar::UnsignedInteger(_) => ValueType::Unsigned,
            M1Scalar::FloatingPoint(_) => ValueType::Float,
            M1Scalar::FixedPoint7dps(_) => ValueType::Float,
        }
    }
}

/// The static type of a symbol or an expression.
#[derive(Clone, Copy, PartialEq, Eq, Structural, Debug)]
pub enum ValueType {
    /// Signed integer.
    Integer,
    /// Unsigned integer.
    Unsigned,
    /// Floating point.
    Float,
    /// Boolean.
    Boolean,
    /// An enumeration, by its index in the project.
    Enum(usize),
    /// Text.
    String,
    /// Not known.
    Unknown,
}

impl ValueType {
    /// Whether arithmetic is defined on the type.
    pub open spec fn is_numeric(self) -> bool {
        self is Integer || self is Unsigned || self is Float
    }
}

/// The type in which two numeric operands meet: floating point over unsigned
/// over signed, and `Unknown` where either is not numeric.
pub open spec fn join(a: ValueType, b: ValueType) -> ValueType {
    if !a.is_numeric() || !b.is_numeric() {
        ValueType::Unknown
    } else if a is Float || b is Float {
        ValueType::Float
    } else if a is Unsigned || b is Unsigned {
        ValueType::Unsigned
    } else {
        ValueType::Integer
    }
}

/// The type in which two numeric operands meet.
#[verifier::when_used_as_spec(join)]
pub fn numeric_join(a: ValueType, b: ValueType) -> (r: ValueType)
    ensures
        r == join(a, b),
{
    match (a, b) {
        (ValueType::Float, ValueType::Float | ValueType::Unsigned | ValueType::Integer) => {
            ValueType::Float
        },
        (ValueType::Unsigned | ValueType::Integer, ValueType::Float) => ValueType::Float,
        (ValueType::Unsigned, ValueType::Unsigned | ValueType::Integer) => ValueType::Unsigned,
        (ValueType::Integer, ValueType::Unsigned) => ValueType::Unsigned,
        (ValueType::Integer, ValueType::Integer) => ValueType::Integer,
        _ => ValueType::Unknown,
    }
}

/// A runtime value.
#[derive(Debug, Clone, PartialEq)]
pub enum Value {
    /// A Boolean.
    Bool(bool),
    /// A wide signed integer read from outside a script.
    Int(i64),
    /// A wide unsigned integer read from outside a script.
    Uint(u64),
    /// A binary64 number read from outside a script.
    Float(F64),
    /// A member of an enumeration.
    Enum {
        /// The enumeration's index in the project.
        id: usize,
        /// The member's name.
        member: String,
    },
    /// Text.
    Str(String),
    /// A script scalar.
    M1(M1Scalar),
}

impl Value {
    /// A script integer.
    pub fn m1_integer(v: i32) -> (r: Value)
        ensures
            r == Value::M1(M1Scalar::Integer(v)),
    {
        Value::M1(M1Scalar::Integer(v))
    }

    /// A script unsigned integer.
    pub fn m1_unsigned(v: u32) -> (r: Value)
        ensures
            r == Value::M1(M1Scalar::UnsignedInteger(v)),
    {
        Value::M1(M1Scalar::UnsignedInteger(v))
    }

    /// A script floating-point number.
    pub fn m1_float(v: F32) -> (r: Value)
        ensures
            r == Value::M1(M1Scalar::FloatingPoint(v)),
    {
        Value::M1(M1Scalar::FloatingPoint(v))
    }

    /// The same value again.
    pub fn duplicate(&self) -> (r: Value)
        ensures
            r == *self,
    {
        match self {
            Value::Bool(b) => Value::Bool(*b),
            Value::Int(v) => Value::Int(*v),
            Value::Uint(v) => Value::Uint(*v),
            Value::Float(v) => Value::Float(*v),
            Value::Enum { id, member } => Value::Enum { id: *id, member: member.clone() },
            Value::Str(s) => Value::Str(s.clone()),
            Value::M1(s) => Value::M1(*s),
        }
    }

    /// The script scalar, if this is one.
    pub open spec fn scalar(self) -> Option<M1Scalar> {
        match self {
            Value::M1(s) => Some(s),
            _ => None,
        }
    }

    /// The script scalar; a type error for any other value.
    pub fn m1_scalar(&self) -> (r: Result<M1Scalar, EvalError>)
        ensures
            match self.scalar() {
                Some(s) => r == Ok::<M1Scalar, EvalError>(s),
                None => r matches Err(e) && is_type_error(e, "expected an M1 numeric value"@),
            },
    {
        match self {
            Value::M1(s) => Ok(*s),
            _ => Err(type_error("expected an M1 numeric value")),
        }
    }

    /// The Boolean; a type error for any other value.
    pub fn as_bool(&self) -> (r: Result<bool, EvalError>)
        ensures
            match *self {
                Value::Bool(b) => r == Ok::<bool, EvalError>(b),
                _ => r matches Err(e) && is_type_error(e, "expected a Boolean"@),
            },
    {
        match self {
            Value::Bool(b) => Ok(*b),
            _ => Err(type_error("expected a Boolean")),
        }
    }

    /// The number in binary64, if this is numeric.
    pub open spec fn number(self) -> Option<F64> {
        match self {
            Value::M1(s) => Some(s.wide()),
            Value::Float(v) => Some(v),
            Value::Int(v) => Some(F64::nearest(v as int)),
            Value::Uint(v) => Some(F64::nearest(v as int)),
            _ => None,
        }
    }

    /// The number in binary64; a type error for a value that is not numeric.
    pub fn as_f64(&self) -> (r: Result<F64, EvalError>)
        ensures
            match self.number() {
                Some(v) => r == Ok::<F64, EvalError>(v),
                None => r matches Err(e) && is_type_error(e, "expected a numeric value"@),
            },
    {
        match self {
            Value::M1(s) => Ok(s.wide()),
            Value::Float(v) => Ok(*v),
            Value::Int(v) => Ok(F64::from_i64(*v)),
            Value::Uint(v) => Ok(F64::from_u64(*v)),
            _ => Err(type_error("expected a numeric value")),
        }
    }

    /// The type that numeric promotion sees.
    pub open spec fn spec_value_type(&self) -> ValueType {
        match *self {
            Value::M1(s) => s.value_type(),
            Value::Bool(_) => ValueType::Boolean,
            Value::Enum { id, .. } => ValueType::Enum(id),
            Value::Str(_) => ValueType::String,
            _ => ValueType::Unknown,
        }
    }

    /// The type that numeric promotion sees.
    #[verifier::when_used_as_spec(spec_value_type)]
    pub fn value_type(&self) -> (r: ValueType)
        ensures
            r == self.spec_value_type(),
    {
        match self {
            Value::M1(s) => s.value_type(),
            Value::Bool(_) => ValueType::Boolean,
            Value::Enum { id, .. } => ValueType::Enum(*id),
            Value::Str(_) => ValueType::String,
            _ => ValueType::Unknown,
        }
    }
}

/// The name of a scalar family.
pub open spec fn family_name(kind: M1ScalarKind) -> Seq<char> {
    match kind {
        M1ScalarKind::Integer => "Integer"@,
        M1ScalarKind::UnsignedInteger => "UnsignedInteger"@,
        M1ScalarKind::FloatingPoint => "FloatingPoint"@,
        M1ScalarKind::FixedPoint7dps => "FixedPoint7dps"@,
    }
}

/// The name of a scalar family.
pub fn kind_name(kind: M1ScalarKind) -> (r: &'static str)
    ensures
        r@ == family_name(kind),
{
    match kind {
        M1ScalarKind::Integer => "Integer",
        M1ScalarKind::UnsignedInteger => "UnsignedInteger",
        M1ScalarKind::FloatingPoint => "FloatingPoint",
        M1ScalarKind::FixedPoint7dps => "FixedPoint7dps",
    }
}

/// A script scalar as messages show it.
pub open spec fn scalar_text(s: M1Scalar) -> Seq<char> {
    match s {
        M1Scalar::Integer(v) => "Integer("@ + signed_decimal(v as int) + ")"@,
        M1Scalar::UnsignedInteger(v) => "UnsignedInteger("@ + decimal(v as nat) + ")"@,
        M1Scalar::FloatingPoint(v) => "FloatingPoint("@ + v.full_text() + ")"@,
        M1Scalar::FixedPoint7dps(v) => "FixedPoint7dps(FixedPoint7dps { raw: "@ + signed_decimal(
            v.raw as int,
        ) + " })"@,
    }
}

/// A script scalar as messages show it.
pub fn show_scalar(s: M1Scalar) -> (r: String)
    ensures
        r@ == scalar_text(s),
{
    match s {
        M1Scalar::Integer(v) => enclosed("Integer(", signed_text(v as i64).as_str(), ")"),
        M1Scalar::UnsignedInteger(v) => enclosed(
            "UnsignedInteger(",
            decimal_text(v as u64).as_str(),
            ")",
        ),
        M1Scalar::FloatingPoint(v) => enclosed("FloatingPoint(", v.to_full_text().as_str(), ")"),
        M1Scalar::FixedPoint7dps(v) => enclosed(
            "FixedPoint7dps(FixedPoint7dps { raw: ",
            signed_text(v.raw as i64).as_str(),
            " })",
        ),
    }
}

/// A value as messages show it.
pub open spec fn value_text(v: Value) -> Seq<char> {
    match v {
        Value::Bool(true) => "Bool(true)"@,
        Value::Bool(false) => "Bool(false)"@,
        Value::Int(x) => "Int("@ + signed_decimal(x as int) + ")"@,
        Value::Uint(x) => "Uint("@ + decimal(x as nat) + ")"@,
        Value::Float(x) => "Float("@ + x.full_text() + ")"@,
        Value::Enum { id, member } => "Enum { id: "@ + decimal(id as nat) + ", member: "@
            + quoted_text(member@) + " }"@,
        Value::Str(t) => "Str("@ + quoted_text(t@) + ")"@,
        Value::M1(s) => "M1("@ + scalar_text(s) + ")"@,
    }
}

/// A value as messages show it.
pub fn show_value(v: &Value) -> (r: String)
    ensures
        r@ == value_text(*v),
{
    match v {
        Value::Bool(b) => if *b {
            "Bool(true)".to_owned()
        } else {
            "Bool(false)".to_owned()
        },
        Value::Int(x) => enclosed("Int(", signed_text(*x).as_str(), ")"),
        Value::Uint(x) => enclosed("Uint(", decimal_text(*x).as_str(), ")"),
        Value::Float(x) => enclosed("Float(", x.to_full_text().as_str(), ")"),
        Value::Enum { id, member } => {
            let head: String = enclosed("Enum { id: ", decimal_text(*id as u64).as_str(), ", member: ");
            enclosed(head.as_str(), quoted(member.as_str()).as_str(), " }")
        },
        Value::Str(t) => enclosed("Str(", quoted(t.as_str()).as_str(), ")"),
        Value::M1(s) => enclosed("M1(", show_scalar(*s).as_str(), ")"),
    }
}

} // verus!
