//! The `Limit` methods.
//!
//! The result is integral where every operand is, and binary32 where any operand
//! is floating.

use crate::builtins::calculate::{
    bits_or_zero, extreme, extreme_of, greater, lesser, signed_or_zero, single_or_zero,
};
use crate::builtins::scalars::{as_i32, as_u32_bits, numeric_single};
use crate::error::{is_type_error, type_error, EvalError};
use crate::text::same;
use crate::value::{join, numeric_join, M1Scalar, Value, ValueType};
use vstd::prelude::*;

verus! {

/// `x` held within `[lo, hi]` in the type in which the three meet. A reversed range comes to `hi`.
pub open spec fn range_of(x: Value, lo: Value, hi: Value) -> Option<Value> {
    match join(join(x.value_type(), lo.value_type()), hi.value_type()) {
        ValueType::Float => Some(
            Value::M1(
                M1Scalar::FloatingPoint(
                    single_or_zero(x).max(single_or_zero(lo)).min(single_or_zero(hi)),
                ),
            ),
        ),
        ValueType::Unsigned => Some(
            Value::M1(
                M1Scalar::UnsignedInteger(
                    lesser(
                        greater(bits_or_zero(x) as int, bits_or_zero(lo) as int),
                        bits_or_zero(hi) as int,
                    ) as u32,
                ),
            ),
        ),
        ValueType::Integer => Some(
            Value::M1(
                M1Scalar::Integer(
                    lesser(
                        greater(signed_or_zero(x) as int, signed_or_zero(lo) as int),
                        signed_or_zero(hi) as int,
                    ) as i32,
                ),
            ),
        ),
        _ => None,
    }
}

fn non_numeric() -> (r: EvalError)
    ensures
        is_type_error(r, "Limit on non-numeric operands"@),
{
    type_error("Limit on non-numeric operands")
}

fn clamp_range(x: &Value, lo: &Value, hi: &Value) -> (r: Result<Value, EvalError>)
    ensures
        match range_of(*x, *lo, *hi) {
            Some(v) => r == Ok::<Value, EvalError>(v),
            None => r matches Err(e) && is_type_error(e, "Limit on non-numeric operands"@),
        },
{
    match numeric_join(numeric_join(x.value_type(), lo.value_type()), hi.value_type()) {
        ValueType::Float => {
            let a = numeric_single(x)?;
            let b = numeric_single(lo)?;
            let c = numeric_single(hi)?;
            Ok(Value::m1_float(a.max(b).min(c)))
        },
        ValueType::Unsigned => {
            let a: u32 = as_u32_bits(x)?;
            let b: u32 = as_u32_bits(lo)?;
            let c: u32 = as_u32_bits(hi)?;
            let m: u32 = if a > b { a } else { b };
            Ok(Value::m1_unsigned(if m < c { m } else { c }))
        },
        ValueType::Integer => {
            let a: i32 = as_i32(x)?;
            let b: i32 = as_i32(lo)?;
            let c: i32 = as_i32(hi)?;
            let m: i32 = if a > b { a } else { b };
            Ok(Value::m1_integer(if m < c { m } else { c }))
        },
        _ => Err(non_numeric()),
    }
}

/// What `Limit.<method>` comes to: nothing for an unknown name, an inner nothing on a type error.
pub open spec fn answer(method: Seq<char>, args: Seq<Value>) -> Option<Option<Value>> {
    if method == "Max"@ {
        Some(extreme_of(args[0], args[1], false))
    } else if method == "Min"@ {
        Some(extreme_of(args[0], args[1], true))
    } else if method == "Range"@ {
        Some(range_of(args[0], args[1], args[2]))
    } else {
        None
    }
}

/// Evaluates one `Limit.<method>` call, or gives `None` for another name.
pub fn call(method: &str, args: &[Value]) -> (r: Result<Option<Value>, EvalError>)
    requires
        method@ == "Max"@ || method@ == "Min"@ ==> args.len() >= 2,
        method@ == "Range"@ ==> args.len() >= 3,
    ensures
        match answer(method@, args@) {
            None => r == Ok::<Option<Value>, EvalError>(None),
            Some(None) => r matches Err(e) && is_type_error(e, "Limit on non-numeric operands"@),
            Some(Some(v)) => r == Ok::<Option<Value>, EvalError>(Some(v)),
        },
{
    if same(method, "Max") {
        Ok(Some(extreme(&args[0], &args[1], false, non_numeric())?))
    } else if same(method, "Min") {
        Ok(Some(extreme(&args[0], &args[1], true, non_numeric())?))
    } else if same(method, "Range") {
        Ok(Some(clamp_range(&args[0], &args[1], &args[2])?))
    } else {
        Ok(None)
    }
}

/// Limiting an integer to a range gives a value of the range, and the value itself where it is one.
pub proof fn law_range_stays_within(x: i32, lo: i32, hi: i32)
    requires
        lo <= hi,
    ensures
        ({
            let v = range_of(
                Value::M1(M1Scalar::Integer(x)),
                Value::M1(M1Scalar::Integer(lo)),
                Value::M1(M1Scalar::Integer(hi)),
            );
            &&& v matches Some(Value::M1(M1Scalar::Integer(y))) && lo <= y <= hi && (lo <= x <= hi
                ==> y == x)
        }),
{
}

/// Limiting a number to a range gives a number of the range.
pub proof fn law_float_range_stays_within(
    x: crate::float::binary32::F32,
    lo: crate::float::binary32::F32,
    hi: crate::float::binary32::F32,
)
    requires
        lo.at_most(hi),
    ensures
        ({
            let v = range_of(
                Value::M1(M1Scalar::FloatingPoint(x)),
                Value::M1(M1Scalar::FloatingPoint(lo)),
                Value::M1(M1Scalar::FloatingPoint(hi)),
            );
            v matches Some(Value::M1(M1Scalar::FloatingPoint(y))) && lo.at_most(y) && y.at_most(hi)
        }),
{
}

} // verus!
