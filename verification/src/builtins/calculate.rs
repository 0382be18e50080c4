//! The pure `Calculate` methods.
//!
//! Integer overloads give an M1 integer, floating overloads a binary32 number.
//! The functions whose precision the host's mathematical library decides come
//! back as a [`HostMath`] request; [`HostMath::finish`] takes the answer.

use crate::builtins::scalars::{
    as_i32, as_u32_bits, bits_of, not_numeric, numeric_single, pattern, signed_of, single_of,
};
use crate::error::{is_type_error, type_error, EvalError};
use crate::float::binary32::F32;
use crate::text::{enclosed, same, signed_decimal, signed_text};
use crate::value::{join, numeric_join, show_value, value_text, M1Scalar, Value, ValueType};
use vstd::prelude::*;

verus! {

/// A function of the host's mathematical library, with its arguments.
#[derive(Clone, Copy, PartialEq, Eq, Structural, Debug)]
pub enum HostMath {
    /// The first raised to the second.
    Power(F32, F32),
    /// Sine.
    Sin(F32),
    /// Cosine.
    Cos(F32),
    /// Tangent.
    Tan(F32),
    /// Inverse sine.
    InverseSin(F32),
    /// Inverse cosine.
    InverseCos(F32),
    /// Inverse tangent.
    InverseTan(F32),
    /// The angle of the point `(x, y)`, given as `(y, x)`.
    InverseTan2(F32, F32),
}

impl HostMath {
    /// The script value of the host's answer.
    pub fn finish(self, answer: F32) -> (r: Value)
        ensures
            r == Value::M1(M1Scalar::FloatingPoint(answer)),
    {
        Value::m1_float(answer)
    }
}

/// What a pure method comes to.
#[derive(Debug, PartialEq)]
pub enum Outcome {
    /// A value.
    Known(Value),
    /// A question to the host's mathematical library.
    Host(HostMath),
}

/// The result of a method: nothing for an unknown name, an inner nothing on a type error.
pub type Answer = Option<Option<Outcome>>;

/// A floating-point outcome.
pub open spec fn float_outcome(v: F32) -> Outcome {
    Outcome::Known(Value::M1(M1Scalar::FloatingPoint(v)))
}

/// The outcome of a function of one number.
pub open spec fn with_one(args: Seq<Value>, f: spec_fn(F32) -> Outcome) -> Option<Outcome> {
    match single_of(args[0]) {
        Some(x) => Some(f(x)),
        None => None,
    }
}

/// The outcome of a function of two numbers.
pub open spec fn with_two(args: Seq<Value>, f: spec_fn(F32, F32) -> Outcome) -> Option<Outcome> {
    match (single_of(args[0]), single_of(args[1])) {
        (Some(x), Some(y)) => Some(f(x, y)),
        _ => None,
    }
}

/// The greater of two integers.
pub open spec fn greater(a: int, b: int) -> int {
    if a > b {
        a
    } else {
        b
    }
}

/// The lesser of two integers.
pub open spec fn lesser(a: int, b: int) -> int {
    if a < b {
        a
    } else {
        b
    }
}

/// The pattern of an integral value, zero for another.
pub open spec fn bits_or_zero(v: Value) -> u32 {
    match v.scalar() {
        Some(s) => match bits_of(s) {
            Some(b) => b,
            None => 0,
        },
        None => 0,
    }
}

/// The number of a scalar value in binary32, zero for another.
pub open spec fn single_or_zero(v: Value) -> F32 {
    match single_of(v) {
        Some(x) => x,
        None => F32 { bits: 0 },
    }
}

/// The signed integer of a value, zero for another.
pub open spec fn signed_or_zero(v: Value) -> i32 {
    match signed_of(v) {
        Some(x) => x,
        None => 0,
    }
}

/// The greater or lesser of two values in the type in which they meet.
pub open spec fn extreme_of(a: Value, b: Value, want_max: bool) -> Option<Value> {
    match join(a.value_type(), b.value_type()) {
        ValueType::Float => {
            let (x, y) = (single_or_zero(a), single_or_zero(b));
            Some(
                Value::M1(
                    M1Scalar::FloatingPoint(
                        if want_max {
                            x.max(y)
                        } else {
                            x.min(y)
                        },
                    ),
                ),
            )
        },
        ValueType::Unsigned => {
            let (x, y) = (bits_or_zero(a) as int, bits_or_zero(b) as int);
            Some(
                Value::M1(
                    M1Scalar::UnsignedInteger(
                        if want_max {
                            greater(x, y)
                        } else {
                            lesser(x, y)
                        } as u32,
                    ),
                ),
            )
        },
        ValueType::Integer => {
            let (x, y) = (signed_or_zero(a) as int, signed_or_zero(b) as int);
            Some(
                Value::M1(
                    M1Scalar::Integer(
                        if want_max {
                            greater(x, y)
                        } else {
                            lesser(x, y)
                        } as i32,
                    ),
                ),
            )
        },
        _ => None,
    }
}

/// The greater or lesser of two values under numeric promotion, or the error that is handed
/// in where they do not meet in a numeric type.
pub fn extreme(a: &Value, b: &Value, want_max: bool, otherwise: EvalError) -> (r: Result<
    Value,
    EvalError,
>)
    ensures
        match extreme_of(*a, *b, want_max) {
            Some(v) => r == Ok::<Value, EvalError>(v),
            None => r == Err::<Value, EvalError>(otherwise),
        },
{
    match numeric_join(a.value_type(), b.value_type()) {
        ValueType::Float => {
            let x = numeric_single(a)?;
            let y = numeric_single(b)?;
            Ok(Value::m1_float(if want_max { x.max(y) } else { x.min(y) }))
        },
        ValueType::Unsigned => {
            let x: u32 = as_u32_bits(a)?;
            let y: u32 = as_u32_bits(b)?;
            let take_x: bool = if want_max { x > y } else { x < y };
            Ok(Value::m1_unsigned(if take_x { x } else { y }))
        },
        ValueType::Integer => {
            let x: i32 = as_i32(a)?;
            let y: i32 = as_i32(b)?;
            let take_x: bool = if want_max { x > y } else { x < y };
            Ok(Value::m1_integer(if take_x { x } else { y }))
        },
        _ => Err(otherwise),
    }
}

/// What is wrong with operands that do not meet in a numeric type.
pub open spec fn operand_fault(operation: Seq<char>, a: Value, b: Value) -> Seq<char> {
    "Calculate."@ + operation + " requires numeric operands, got "@ + value_text(a) + ", "@
        + value_text(b)
}

fn non_numeric(operation: &str, a: &Value, b: &Value) -> (r: EvalError)
    ensures
        is_type_error(r, operand_fault(operation@, *a, *b)),
{
    let head: String = enclosed("Calculate.", operation, " requires numeric operands, got ");
    type_error(
        enclosed(head.as_str(), show_value(a).as_str(), ", ").concat(show_value(b).as_str()).as_str(),
    )
}

/// The remainder of a division that truncates toward zero.
pub open spec fn truncated_remainder(a: int, b: int) -> int {
    let m = if b < 0 {
        -b
    } else {
        b
    };
    if a < 0 {
        -((-a) % m)
    } else {
        a % m
    }
}

/// `Calculate.Modulo`: the remainder with the sign of the first; a zero second is an error.
pub open spec fn modulo_of(a: Value, b: Value) -> Option<Value> {
    match join(a.value_type(), b.value_type()) {
        ValueType::Float => {
            let y = single_or_zero(b);
            if y.equals(F32 { bits: 0 }) {
                None
            } else {
                Some(Value::M1(M1Scalar::FloatingPoint(single_or_zero(a).modulo(y))))
            }
        },
        ValueType::Unsigned => {
            let y = bits_or_zero(b);
            if y == 0 {
                None
            } else {
                Some(Value::M1(M1Scalar::UnsignedInteger((bits_or_zero(a) % y) as u32)))
            }
        },
        ValueType::Integer => {
            let y = signed_or_zero(b);
            if y == 0 {
                None
            } else {
                Some(
                    Value::M1(
                        M1Scalar::Integer(
                            truncated_remainder(signed_or_zero(a) as int, y as int) as i32,
                        ),
                    ),
                )
            }
        },
        _ => None,
    }
}

/// What is wrong where there is no remainder.
pub open spec fn modulo_fault(a: Value, b: Value) -> Seq<char> {
    match join(a.value_type(), b.value_type()) {
        ValueType::Float | ValueType::Unsigned | ValueType::Integer => "Calculate.Modulo by zero"@,
        _ => operand_fault("Modulo"@, a, b),
    }
}

fn modulo(a: &Value, b: &Value) -> (r: Result<Value, EvalError>)
    ensures
        match modulo_of(*a, *b) {
            Some(v) => r == Ok::<Value, EvalError>(v),
            None => r matches Err(e) && is_type_error(e, modulo_fault(*a, *b)),
        },
{
    match numeric_join(a.value_type(), b.value_type()) {
        ValueType::Float => {
            let y = numeric_single(b)?;
            if y.equals(F32::from_bits(0)) {
                return Err(type_error("Calculate.Modulo by zero"));
            }
            Ok(Value::m1_float(numeric_single(a)?.modulo(y)))
        },
        ValueType::Unsigned => {
            let y: u32 = as_u32_bits(b)?;
            if y == 0 {
                return Err(type_error("Calculate.Modulo by zero"));
            }
            let x: u32 = as_u32_bits(a)?;
            Ok(Value::m1_unsigned(x % y))
        },
        ValueType::Integer => {
            let y: i32 = as_i32(b)?;
            if y == 0 {
                return Err(type_error("Calculate.Modulo by zero"));
            }
            let x: i32 = as_i32(a)?;
            let m: i64 = if y < 0 { -(y as i64) } else { y as i64 };
            let n: i64 = if x < 0 { -(x as i64) } else { x as i64 };
            let q: i64 = n % m;
            Ok(Value::m1_integer(if x < 0 { (-q) as i32 } else { q as i32 }))
        },
        _ => Err(non_numeric("Modulo", a, b)),
    }
}

/// `Calculate.Bias`: the lesser at `-1`, the mean at `0`, the greater at `1`, and
/// the mean moved by `bias` half separations otherwise.
pub open spec fn bias_of(a: Value, b: Value, c: Value) -> Option<Value> {
    match (single_of(a), single_of(b), single_of(c)) {
        (Some(x), Some(y), Some(bias)) => {
            let mean = x.midpoint(y);
            let half = x.midpoint(y.opposite()).abs();
            let v = if bias.equals(F32 { bits: 0xbf80_0000 }) {
                x.min(y)
            } else if bias.equals(F32 { bits: 0 }) {
                mean
            } else if bias.equals(F32 { bits: 0x3f80_0000 }) {
                x.max(y)
            } else {
                mean.plus(bias.times(half))
            };
            Some(Value::M1(M1Scalar::FloatingPoint(v)))
        },
        _ => None,
    }
}

fn bias(a: &Value, b: &Value, c: &Value) -> (r: Result<Value, EvalError>)
    ensures
        match bias_of(*a, *b, *c) {
            Some(v) => r == Ok::<Value, EvalError>(v),
            None => r matches Err(e) && is_type_error(e, not_numeric()),
        },
{
    let x = numeric_single(a)?;
    let y = numeric_single(b)?;
    let bias = numeric_single(c)?;
    let mean = x.midpoint(y);
    let half = x.midpoint(y.opposite()).abs();
    let v = if bias.equals(F32::from_bits(0xbf80_0000)) {
        x.min(y)
    } else if bias.equals(F32::from_bits(0)) {
        mean
    } else if bias.equals(F32::from_bits(0x3f80_0000)) {
        x.max(y)
    } else {
        mean.plus(bias.times(half))
    };
    Ok(Value::m1_float(v))
}

/// `Calculate.Absolute`: the magnitude in the same family, fixed point as binary32.
/// The least integer has none.
pub open spec fn absolute_of(a: Value) -> Option<Value> {
    match a {
        Value::M1(M1Scalar::Integer(v)) => if v == i32::MIN {
            None
        } else {
            Some(
                Value::M1(
                    M1Scalar::Integer(
                        if v < 0 {
                            (-v) as i32
                        } else {
                            v
                        },
                    ),
                ),
            )
        },
        Value::M1(M1Scalar::UnsignedInteger(v)) => Some(a),
        Value::M1(M1Scalar::FloatingPoint(v)) => Some(Value::M1(M1Scalar::FloatingPoint(v.abs()))),
        Value::M1(M1Scalar::FixedPoint7dps(v)) => Some(
            Value::M1(M1Scalar::FloatingPoint(v.wide().abs().narrow())),
        ),
        _ => None,
    }
}

/// What is wrong where there is no magnitude.
pub open spec fn absolute_fault(a: Value) -> Seq<char> {
    match a {
        Value::M1(M1Scalar::Integer(v)) => "Calculate.Absolute("@ + signed_decimal(v as int)
            + ") is outside the M1 Integer range"@,
        _ => not_numeric(),
    }
}

fn absolute(a: &Value) -> (r: Result<Value, EvalError>)
    ensures
        match absolute_of(*a) {
            Some(v) => r == Ok::<Value, EvalError>(v),
            None => r matches Err(e) && is_type_error(e, absolute_fault(*a)),
        },
{
    match a.m1_scalar()? {
        M1Scalar::Integer(v) => {
            if v == i32::MIN {
                let detail: String = enclosed(
                    "Calculate.Absolute(",
                    signed_text(v as i64).as_str(),
                    ") is outside the M1 Integer range",
                );
                Err(type_error(detail.as_str()))
            } else {
                Ok(Value::m1_integer(if v < 0 { -v } else { v }))
            }
        },
        M1Scalar::UnsignedInteger(v) => Ok(Value::m1_unsigned(v)),
        M1Scalar::FloatingPoint(v) => Ok(Value::m1_float(v.abs())),
        M1Scalar::FixedPoint7dps(v) => Ok(Value::m1_float(v.wide().abs().narrow())),
    }
}

/// Half of an integer, toward zero.
pub open spec fn truncated_half(s: int) -> int {
    if s < 0 {
        -((-s) / 2)
    } else {
        s / 2
    }
}

/// `Calculate.Average`: the mean in the type in which the values meet; integers drop a half toward zero.
pub open spec fn average_of(a: Value, b: Value) -> Option<Value> {
    match join(a.value_type(), b.value_type()) {
        ValueType::Float => Some(
            Value::M1(M1Scalar::FloatingPoint(single_or_zero(a).midpoint(single_or_zero(b)))),
        ),
        ValueType::Unsigned => Some(
            Value::M1(
                M1Scalar::UnsignedInteger(
                    ((bits_or_zero(a) as int + bits_or_zero(b) as int) / 2) as u32,
                ),
            ),
        ),
        ValueType::Integer => Some(
            Value::M1(
                M1Scalar::Integer(
                    truncated_half(signed_or_zero(a) as int + signed_or_zero(b) as int) as i32,
                ),
            ),
        ),
        _ => None,
    }
}

fn average(a: &Value, b: &Value) -> (r: Result<Value, EvalError>)
    ensures
        match average_of(*a, *b) {
            Some(v) => r == Ok::<Value, EvalError>(v),
            None => r matches Err(e) && is_type_error(e, operand_fault("Average"@, *a, *b)),
        },
{
    match numeric_join(a.value_type(), b.value_type()) {
        ValueType::Float => {
            let x = numeric_single(a)?;
            let y = numeric_single(b)?;
            Ok(Value::m1_float(x.midpoint(y)))
        },
        ValueType::Unsigned => {
            let sum: u64 = as_u32_bits(a)? as u64 + as_u32_bits(b)? as u64;
            Ok(Value::m1_unsigned((sum / 2) as u32))
        },
        ValueType::Integer => {
            let sum: i64 = as_i32(a)? as i64 + as_i32(b)? as i64;
            let half: i64 = if sum < 0 { -((-sum) / 2) } else { sum / 2 };
            Ok(Value::m1_integer(half as i32))
        },
        _ => Err(non_numeric("Average", a, b)),
    }
}

/// An outcome that is a value.
pub open spec fn known(v: Option<Value>) -> Option<Outcome> {
    match v {
        Some(v) => Some(Outcome::Known(v)),
        None => None,
    }
}

/// What `Calculate.<method>` comes to.
pub open spec fn answer(method: Seq<char>, args: Seq<Value>) -> Answer {
    if method == "Max"@ {
        Some(known(extreme_of(args[0], args[1], true)))
    } else if method == "Min"@ {
        Some(known(extreme_of(args[0], args[1], false)))
    } else if method == "Absolute"@ {
        Some(known(absolute_of(args[0])))
    } else if method == "Average"@ {
        Some(known(average_of(args[0], args[1])))
    } else if method == "Modulo"@ {
        Some(known(modulo_of(args[0], args[1])))
    } else if method == "Bias"@ {
        Some(known(bias_of(args[0], args[1], args[2])))
    } else if method == "PI"@ {
        Some(Some(float_outcome(F32 { bits: 0x4049_0fdb })))
    } else if method == "NAN"@ {
        Some(Some(float_outcome(F32 { bits: 0x7fc0_0000 })))
    } else if method == "Infinity"@ {
        Some(Some(float_outcome(F32 { bits: 0x7f80_0000 })))
    } else if method == "MaximumFloat"@ {
        Some(Some(float_outcome(F32 { bits: 0x7f7f_ffff })))
    } else if method == "Floor"@ {
        Some(with_one(args, |x: F32| float_outcome(x.floor())))
    } else if method == "Ceiling"@ {
        Some(with_one(args, |x: F32| float_outcome(x.ceil())))
    } else if method == "Power"@ {
        Some(with_two(args, |x: F32, y: F32| Outcome::Host(HostMath::Power(x, y))))
    } else if method == "FastSquareRoot"@ {
        Some(with_one(args, |x: F32| float_outcome(x.sqrt())))
    } else if method == "IsNAN"@ {
        Some(with_one(args, |x: F32| Outcome::Known(Value::Bool(x.is_nan()))))
    } else if method == "IsFinite"@ {
        Some(with_one(args, |x: F32| Outcome::Known(Value::Bool(x.is_finite()))))
    } else if method == "FastSin"@ {
        Some(with_one(args, |x: F32| Outcome::Host(HostMath::Sin(x))))
    } else if method == "FastCos"@ {
        Some(with_one(args, |x: F32| Outcome::Host(HostMath::Cos(x))))
    } else if method == "FastTan"@ {
        Some(with_one(args, |x: F32| Outcome::Host(HostMath::Tan(x))))
    } else if method == "InverseSin"@ {
        Some(with_one(args, |x: F32| Outcome::Host(HostMath::InverseSin(x))))
    } else if method == "InverseCos"@ {
        Some(with_one(args, |x: F32| Outcome::Host(HostMath::InverseCos(x))))
    } else if method == "InverseTan"@ {
        Some(with_one(args, |x: F32| Outcome::Host(HostMath::InverseTan(x))))
    } else if method == "InverseTan2"@ {
        Some(with_two(args, |y: F32, x: F32| Outcome::Host(HostMath::InverseTan2(y, x))))
    } else {
        None
    }
}

/// What is wrong where a method has no result.
pub open spec fn fault(method: Seq<char>, args: Seq<Value>) -> Seq<char> {
    if method == "Max"@ || method == "Min"@ {
        operand_fault("min/max"@, args[0], args[1])
    } else if method == "Absolute"@ {
        absolute_fault(args[0])
    } else if method == "Average"@ {
        operand_fault("Average"@, args[0], args[1])
    } else if method == "Modulo"@ {
        modulo_fault(args[0], args[1])
    } else {
        not_numeric()
    }
}

/// The least number of arguments of `Calculate.<method>`.
pub open spec fn arity(method: Seq<char>) -> nat {
    if method == "Bias"@ {
        3
    } else if method == "Max"@ || method == "Min"@ || method == "Average"@ || method == "Modulo"@ ||
        method == "Power"@ || method == "InverseTan2"@ {
        2
    } else if method == "Absolute"@ || method == "Floor"@ || method == "Ceiling"@ ||
        method == "FastSquareRoot"@ || method == "IsNAN"@ || method == "IsFinite"@ ||
        method == "FastSin"@ || method == "FastCos"@ || method == "FastTan"@ ||
        method == "InverseSin"@ || method == "InverseCos"@ || method == "InverseTan"@ {
        1
    } else {
        0
    }
}

/// The least number of arguments of `Calculate.<method>`.
pub fn arity_of(method: &str) -> (r: usize)
    ensures
        r == arity(method@),
{
    if same(method, "Bias") {
        3
    } else if same(method, "Max") || same(method, "Min") || same(method, "Average") ||
        same(method, "Modulo") || same(method, "Power") || same(method, "InverseTan2") {
        2
    } else if same(method, "Absolute") || same(method, "Floor") || same(method, "Ceiling") ||
        same(method, "FastSquareRoot") || same(method, "IsNAN") || same(method, "IsFinite") ||
        same(method, "FastSin") || same(method, "FastCos") || same(method, "FastTan") ||
        same(method, "InverseSin") || same(method, "InverseCos") || same(method, "InverseTan") {
        1
    } else {
        0
    }
}

/// Evaluates one `Calculate.<method>` call, or gives `None` for another name.
pub fn call(method: &str, args: &[Value]) -> (r: Result<Option<Outcome>, EvalError>)
    requires
        args.len() >= arity(method@),
    ensures
        match answer(method@, args@) {
            None => r == Ok::<Option<Outcome>, EvalError>(None),
            Some(None) => r matches Err(e) && is_type_error(e, fault(method@, args@)),
            Some(Some(v)) => r == Ok::<Option<Outcome>, EvalError>(Some(v)),
        },
{
    let outcome: Outcome = if same(method, "Max") {
        Outcome::Known(extreme(
            &args[0],
            &args[1],
            true,
            non_numeric("min/max", &args[0], &args[1]),
        )?)
    } else if same(method, "Min") {
        Outcome::Known(extreme(
            &args[0],
            &args[1],
            false,
            non_numeric("min/max", &args[0], &args[1]),
        )?)
    } else if same(method, "Absolute") {
        Outcome::Known(absolute(&args[0])?)
    } else if same(method, "Average") {
        Outcome::Known(average(&args[0], &args[1])?)
    } else if same(method, "Modulo") {
        Outcome::Known(modulo(&args[0], &args[1])?)
    } else if same(method, "Bias") {
        Outcome::Known(bias(&args[0], &args[1], &args[2])?)
    } else if same(method, "PI") {
        Outcome::Known(Value::m1_float(F32::from_bits(0x4049_0fdb)))
    } else if same(method, "NAN") {
        Outcome::Known(Value::m1_float(F32::from_bits(0x7fc0_0000)))
    } else if same(method, "Infinity") {
        Outcome::Known(Value::m1_float(F32::from_bits(0x7f80_0000)))
    } else if same(method, "MaximumFloat") {
        Outcome::Known(Value::m1_float(F32::from_bits(0x7f7f_ffff)))
    } else if same(method, "Floor") {
        Outcome::Known(Value::m1_float(numeric_single(&args[0])?.floor()))
    } else if same(method, "Ceiling") {
        Outcome::Known(Value::m1_float(numeric_single(&args[0])?.ceil()))
    } else if same(method, "Power") {
        Outcome::Host(HostMath::Power(numeric_single(&args[0])?, numeric_single(&args[1])?))
    } else if same(method, "FastSquareRoot") {
        Outcome::Known(Value::m1_float(numeric_single(&args[0])?.sqrt()))
    } else if same(method, "IsNAN") {
        Outcome::Known(Value::Bool(numeric_single(&args[0])?.is_nan()))
    } else if same(method, "IsFinite") {
        Outcome::Known(Value::Bool(numeric_single(&args[0])?.is_finite()))
    } else if same(method, "FastSin") {
        Outcome::Host(HostMath::Sin(numeric_single(&args[0])?))
    } else if same(method, "FastCos") {
        Outcome::Host(HostMath::Cos(numeric_single(&args[0])?))
    } else if same(method, "FastTan") {
        Outcome::Host(HostMath::Tan(numeric_single(&args[0])?))
    } else if same(method, "InverseSin") {
        Outcome::Host(HostMath::InverseSin(numeric_single(&args[0])?))
    } else if same(method, "InverseCos") {
        Outcome::Host(HostMath::InverseCos(numeric_single(&args[0])?))
    } else if same(method, "InverseTan") {
        Outcome::Host(HostMath::InverseTan(numeric_single(&args[0])?))
    } else if same(method, "InverseTan2") {
        Outcome::Host(HostMath::InverseTan2(numeric_single(&args[0])?, numeric_single(&args[1])?))
    } else {
        return Ok(None);
    };
    Ok(Some(outcome))
}

} // verus!
