//! Reading, comparing and measuring script numbers under numeric promotion.

use crate::error::{is_type_error, type_error, EvalError};
use crate::float::binary32::F32;
use crate::float::binary64::F64;
use crate::text::joined;
use crate::value::{scalar_text, show_scalar, FixedPoint7dps, M1Scalar, Value, FIXED_SCALE};
use vstd::prelude::*;

verus! {

/// How one value stands to another.
#[derive(Clone, Copy, PartialEq, Eq, Structural, Debug)]
pub enum Order {
    /// Below it.
    Less,
    /// The same.
    Equal,
    /// Above it.
    Greater,
}

/// The order of two integers.
pub open spec fn int_order(a: int, b: int) -> Order {
    if a < b {
        Order::Less
    } else if a == b {
        Order::Equal
    } else {
        Order::Greater
    }
}

fn order_i64(a: i64, b: i64) -> (r: Order)
    ensures
        r == int_order(a as int, b as int),
{
    if a < b {
        Order::Less
    } else if a == b {
        Order::Equal
    } else {
        Order::Greater
    }
}

/// The order of two floating-point numbers, none where either is a NaN.
pub open spec fn float_order(a: F32, b: F32) -> Option<Order> {
    if a.is_nan() || b.is_nan() {
        None
    } else {
        Some(int_order(a.key(), b.key()))
    }
}

fn order_single(a: F32, b: F32) -> (r: Option<Order>)
    ensures
        r == float_order(a, b),
{
    if a.is_nan() || b.is_nan() {
        None
    } else if a.less(b) {
        Some(Order::Less)
    } else if a.equals(b) {
        Some(Order::Equal)
    } else {
        Some(Order::Greater)
    }
}

/// The unsigned 32-bit pattern of a signed value.
pub open spec fn pattern(v: i32) -> u32 {
    if v < 0 {
        (v + 0x1_0000_0000) as u32
    } else {
        v as u32
    }
}

/// The unsigned 32-bit pattern of a signed value.
#[verifier::when_used_as_spec(pattern)]
pub fn pattern_of(v: i32) -> (r: u32)
    ensures
        r == pattern(v),
{
    if v < 0 {
        (v as i64 + 0x1_0000_0000) as u32
    } else {
        v as u32
    }
}

/// The 32-bit pattern of an integral scalar.
pub open spec fn bits_of(v: M1Scalar) -> Option<u32> {
    match v {
        M1Scalar::Integer(v) => Some(pattern(v)),
        M1Scalar::UnsignedInteger(v) => Some(v),
        _ => None,
    }
}

/// What is wrong with a value that is no script number.
pub open spec fn not_numeric() -> Seq<char> {
    "expected an M1 numeric value"@
}

/// The 32-bit pattern of an integral value.
pub fn as_u32_bits(value: &Value) -> (r: Result<u32, EvalError>)
    ensures
        match value.scalar() {
            Some(s) => match bits_of(s) {
                Some(v) => r == Ok::<u32, EvalError>(v),
                None => r matches Err(e) && is_type_error(
                    e,
                    scalar_text(s) + " is not an integral M1 value"@,
                ),
            },
            None => r matches Err(e) && is_type_error(e, not_numeric()),
        },
{
    match value.m1_scalar() {
        Ok(M1Scalar::Integer(v)) => Ok(pattern_of(v)),
        Ok(M1Scalar::UnsignedInteger(v)) => Ok(v),
        Ok(other) => Err(
            type_error(
                joined(show_scalar(other).as_str(), " is not an integral M1 value").as_str(),
            ),
        ),
        Err(e) => Err(e),
    }
}

/// The signed integer that a value holds.
pub open spec fn signed_of(value: Value) -> Option<i32> {
    match value {
        Value::M1(M1Scalar::Integer(v)) => Some(v),
        _ => None,
    }
}

/// The signed integer; a type error for any other value.
pub fn as_i32(value: &Value) -> (r: Result<i32, EvalError>)
    ensures
        match (signed_of(*value), value.scalar()) {
            (Some(v), _) => r == Ok::<i32, EvalError>(v),
            (None, Some(s)) => r matches Err(e) && is_type_error(
                e,
                scalar_text(s) + " is not an M1 Integer"@,
            ),
            (None, None) => r matches Err(e) && is_type_error(e, not_numeric()),
        },
{
    match value.m1_scalar() {
        Ok(M1Scalar::Integer(v)) => Ok(v),
        Ok(other) => Err(
            type_error(joined(show_scalar(other).as_str(), " is not an M1 Integer").as_str()),
        ),
        Err(e) => Err(e),
    }
}

/// The order of two scalars: exact within fixed point and within the integers,
/// by 32-bit pattern where signed meets unsigned, and in binary32 otherwise.
pub open spec fn ordered(left: M1Scalar, right: M1Scalar) -> Option<Order> {
    match (left, right) {
        (M1Scalar::FixedPoint7dps(a), M1Scalar::FixedPoint7dps(b)) => Some(
            int_order(a.raw as int, b.raw as int),
        ),
        (M1Scalar::Integer(a), M1Scalar::Integer(b)) => Some(int_order(a as int, b as int)),
        _ => match (bits_of(left), bits_of(right)) {
            (Some(a), Some(b)) => Some(int_order(a as int, b as int)),
            _ => float_order(left.single(), right.single()),
        },
    }
}

/// The order of two scalars under numeric promotion.
pub fn scalar_order(left: M1Scalar, right: M1Scalar) -> (r: Option<Order>)
    ensures
        r == ordered(left, right),
{
    match (left, right) {
        (M1Scalar::FixedPoint7dps(a), M1Scalar::FixedPoint7dps(b)) => {
            Some(order_i64(a.raw as i64, b.raw as i64))
        },
        (M1Scalar::Integer(a), M1Scalar::Integer(b)) => Some(order_i64(a as i64, b as i64)),
        (M1Scalar::Integer(a), M1Scalar::UnsignedInteger(b)) => {
            Some(order_i64(pattern_of(a) as i64, b as i64))
        },
        (M1Scalar::UnsignedInteger(a), M1Scalar::Integer(b)) => {
            Some(order_i64(a as i64, pattern_of(b) as i64))
        },
        (M1Scalar::UnsignedInteger(a), M1Scalar::UnsignedInteger(b)) => {
            Some(order_i64(a as i64, b as i64))
        },
        _ => order_single(left.single(), right.single()),
    }
}

/// Whether two scalars are the same number under numeric promotion.
pub fn scalar_equal(left: M1Scalar, right: M1Scalar) -> (r: bool)
    ensures
        r == (ordered(left, right) == Some(Order::Equal)),
{
    match scalar_order(left, right) {
        Some(Order::Equal) => true,
        _ => false,
    }
}

/// The size of a change.
#[derive(Clone, Copy, PartialEq, Eq, Structural, Debug)]
pub enum ScalarMagnitude {
    /// Between integers.
    Integral(u32),
    /// Between fixed-point values, in stored units.
    FixedPoint7dps(u32),
    /// In binary32.
    FloatingPoint(F32),
}

/// The distance of two integers.
pub open spec fn distance(a: int, b: int) -> int {
    if a < b {
        b - a
    } else {
        a - b
    }
}

fn distance_i64(a: i64, b: i64) -> (r: u32)
    requires
        distance(a as int, b as int) <= 0xffff_ffff,
        -0x1_0000_0000 < a < 0x1_0000_0000,
        -0x1_0000_0000 < b < 0x1_0000_0000,
    ensures
        r == distance(a as int, b as int),
{
    if a < b {
        (b - a) as u32
    } else {
        (a - b) as u32
    }
}

/// The size of a change between two scalars, taken after promotion of the pair.
pub open spec fn change_size(from: M1Scalar, to: M1Scalar) -> ScalarMagnitude {
    match (from, to) {
        (M1Scalar::FixedPoint7dps(a), M1Scalar::FixedPoint7dps(b)) => {
            ScalarMagnitude::FixedPoint7dps(distance(a.raw as int, b.raw as int) as u32)
        },
        (M1Scalar::Integer(a), M1Scalar::Integer(b)) => {
            ScalarMagnitude::Integral(distance(a as int, b as int) as u32)
        },
        _ => match (bits_of(from), bits_of(to)) {
            (Some(a), Some(b)) => ScalarMagnitude::Integral(
                distance(a as int, b as int) as u32,
            ),
            _ => ScalarMagnitude::FloatingPoint(to.single().minus(from.single()).abs()),
        },
    }
}

/// The size of a change between two scalars.
pub fn scalar_magnitude(from: M1Scalar, to: M1Scalar) -> (r: ScalarMagnitude)
    ensures
        r == change_size(from, to),
{
    match (from, to) {
        (M1Scalar::FixedPoint7dps(a), M1Scalar::FixedPoint7dps(b)) => {
            ScalarMagnitude::FixedPoint7dps(distance_i64(a.raw as i64, b.raw as i64))
        },
        (M1Scalar::Integer(a), M1Scalar::Integer(b)) => {
            ScalarMagnitude::Integral(distance_i64(a as i64, b as i64))
        },
        (M1Scalar::Integer(a), M1Scalar::UnsignedInteger(b)) => {
            ScalarMagnitude::Integral(distance_i64(pattern_of(a) as i64, b as i64))
        },
        (M1Scalar::UnsignedInteger(a), M1Scalar::Integer(b)) => {
            ScalarMagnitude::Integral(distance_i64(a as i64, pattern_of(b) as i64))
        },
        (M1Scalar::UnsignedInteger(a), M1Scalar::UnsignedInteger(b)) => {
            ScalarMagnitude::Integral(distance_i64(a as i64, b as i64))
        },
        _ => ScalarMagnitude::FloatingPoint(to.single().minus(from.single()).abs()),
    }
}

/// A count of stored fixed-point units in binary32.
pub open spec fn fixed_single(raw: u32) -> F32 {
    F64::nearest(raw as int).over(F64::nearest(FIXED_SCALE as int)).narrow()
}

/// How the size of a change stands to `|delta|`: exact within one family, in
/// binary32 otherwise.
pub open spec fn size_order(size: ScalarMagnitude, delta: M1Scalar) -> Option<Order> {
    match (size, delta) {
        (ScalarMagnitude::Integral(m), M1Scalar::Integer(d)) => Some(
            int_order(m as int, distance(d as int, 0)),
        ),
        (ScalarMagnitude::Integral(m), M1Scalar::UnsignedInteger(d)) => Some(
            int_order(m as int, d as int),
        ),
        (ScalarMagnitude::Integral(m), _) => float_order(
            F32::nearest(m as int),
            delta.single().abs(),
        ),
        (ScalarMagnitude::FixedPoint7dps(m), M1Scalar::FixedPoint7dps(d)) => Some(
            int_order(m as int, distance(d.raw as int, 0)),
        ),
        (ScalarMagnitude::FixedPoint7dps(m), _) => float_order(
            fixed_single(m),
            delta.single().abs(),
        ),
        (ScalarMagnitude::FloatingPoint(m), _) => float_order(m, delta.single().abs()),
    }
}

/// How the size of a change stands to `|delta|`.
pub fn scalar_magnitude_order(size: ScalarMagnitude, delta: M1Scalar) -> (r: Option<Order>)
    ensures
        r == size_order(size, delta),
{
    match (size, delta) {
        (ScalarMagnitude::Integral(m), M1Scalar::Integer(d)) => {
            Some(order_i64(m as i64, distance_i64(d as i64, 0) as i64))
        },
        (ScalarMagnitude::Integral(m), M1Scalar::UnsignedInteger(d)) => {
            Some(order_i64(m as i64, d as i64))
        },
        (ScalarMagnitude::Integral(m), _) => {
            order_single(F32::from_u32(m), delta.single().abs())
        },
        (ScalarMagnitude::FixedPoint7dps(m), M1Scalar::FixedPoint7dps(d)) => {
            Some(order_i64(m as i64, distance_i64(d.raw as i64, 0) as i64))
        },
        (ScalarMagnitude::FixedPoint7dps(m), _) => {
            let raw = F64::from_u64(m as u64).over(F64::from_i64(FIXED_SCALE as i64)).narrow();
            order_single(raw, delta.single().abs())
        },
        (ScalarMagnitude::FloatingPoint(m), _) => order_single(m, delta.single().abs()),
    }
}

/// The direction of a change, and how its size stands to `|delta|`.
pub fn scalar_change_order(from: M1Scalar, to: M1Scalar, delta: M1Scalar) -> (r: (
    Option<Order>,
    Option<Order>,
))
    ensures
        r.0 == ordered(to, from),
        r.1 == size_order(change_size(from, to), delta),
{
    (scalar_order(to, from), scalar_magnitude_order(scalar_magnitude(from, to), delta))
}

/// Whether an order says "at least".
pub open spec fn at_least(o: Option<Order>) -> bool {
    o == Some(Order::Equal) || o == Some(Order::Greater)
}

/// Whether an order says "at most".
pub open spec fn no_more(o: Option<Order>) -> bool {
    o == Some(Order::Equal) || o == Some(Order::Less)
}

/// Whether an order says "at least".
#[verifier::when_used_as_spec(at_least)]
pub fn is_at_least(o: Option<Order>) -> (r: bool)
    ensures
        r == at_least(o),
{
    matches!(o, Some(Order::Equal | Order::Greater))
}

/// Whether an order says "at most".
#[verifier::when_used_as_spec(no_more)]
pub fn is_no_more(o: Option<Order>) -> (r: bool)
    ensures
        r == no_more(o),
{
    matches!(o, Some(Order::Equal | Order::Less))
}

/// The number in binary32, if a value is a script number.
pub open spec fn single_of(value: Value) -> Option<F32> {
    match value {
        Value::M1(s) => Some(s.single()),
        _ => None,
    }
}

/// The number in binary32; a type error for a value that is not a script number.
pub fn numeric_single(value: &Value) -> (r: Result<F32, EvalError>)
    ensures
        match single_of(*value) {
            Some(v) => r == Ok::<F32, EvalError>(v),
            None => r matches Err(e) && is_type_error(e, not_numeric()),
        },
{
    match value.m1_scalar() {
        Ok(s) => Ok(s.single()),
        Err(e) => Err(e),
    }
}

} // verus!
