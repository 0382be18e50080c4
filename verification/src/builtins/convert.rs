//! The `Convert` methods.
//!
//! Conversion to an integer rounds to the nearest, halves away from zero, and
//! takes the nearest endpoint for a value out of range. Conversion to fixed
//! point is numeric, and only whole numbers from -214 to 214 fit.

use crate::builtins::scalars::not_numeric;
use crate::error::{is_type_error, type_error, EvalError};
use crate::text::{enclosed, joined, same, signed_decimal, signed_text};
use crate::value::{scalar_text, show_scalar, FixedPoint7dps, M1Scalar, Value, FIXED_SCALE};
use vstd::prelude::*;

verus! {

/// The whole number nearest to `raw / 10^7`, halves away from zero.
pub open spec fn rounded_fixed(raw: int) -> int {
    if raw < 0 {
        -((2 * -raw + FIXED_SCALE) / (2 * FIXED_SCALE as int))
    } else {
        (2 * raw + FIXED_SCALE) / (2 * FIXED_SCALE as int)
    }
}

/// `v` held within `[lo, hi]`.
pub open spec fn within(v: int, lo: int, hi: int) -> int {
    if v < lo {
        lo
    } else if v > hi {
        hi
    } else {
        v
    }
}

/// The whole number nearest to a scalar within a range; none for a NaN.
pub open spec fn nearest_within(s: M1Scalar, lo: int, hi: int) -> Option<int> {
    match s {
        M1Scalar::Integer(v) => Some(within(v as int, lo, hi)),
        M1Scalar::UnsignedInteger(v) => Some(within(v as int, lo, hi)),
        M1Scalar::FloatingPoint(v) => if v.is_nan() {
            None
        } else {
            Some(v.rounded_within(lo, hi))
        },
        M1Scalar::FixedPoint7dps(v) => Some(within(rounded_fixed(v.raw as int), lo, hi)),
    }
}

/// What `Convert.<method>` comes to: nothing for an unknown name, an inner nothing on a type error.
pub open spec fn answer(method: Seq<char>, args: Seq<Value>) -> Option<Option<Value>> {
    if method == "ToInteger"@ {
        Some(
            match args[0].scalar() {
                Some(s) => match nearest_within(s, i32::MIN as int, i32::MAX as int) {
                    Some(v) => Some(Value::M1(M1Scalar::Integer(v as i32))),
                    None => None,
                },
                None => None,
            },
        )
    } else if method == "ToUnsignedInteger"@ {
        Some(
            match args[0].scalar() {
                Some(s) => match nearest_within(s, 0, u32::MAX as int) {
                    Some(v) => Some(Value::M1(M1Scalar::UnsignedInteger(v as u32))),
                    None => None,
                },
                None => None,
            },
        )
    } else if method == "ToFixed7DP"@ {
        Some(
            match args[0] {
                Value::M1(M1Scalar::Integer(v)) => fixed_of(v as int),
                Value::M1(M1Scalar::UnsignedInteger(v)) => fixed_of(v as int),
                _ => None,
            },
        )
    } else {
        None
    }
}

/// A whole number in fixed point, where it fits.
pub open spec fn fixed_of(v: int) -> Option<Value> {
    if -214 <= v <= 214 {
        Some(Value::M1(M1Scalar::FixedPoint7dps(FixedPoint7dps { raw: (v * FIXED_SCALE) as i32 })))
    } else {
        None
    }
}

/// What is wrong with a NaN.
pub open spec fn nan_fault(target: Seq<char>) -> Seq<char> {
    "NaN has no nearest M1 "@ + target + " value"@
}

/// What is wrong with a whole number that does not fit.
pub open spec fn range_fault(v: int) -> Seq<char> {
    "Convert.ToFixed7DP input "@ + signed_decimal(v)
        + " is outside the Fixed Point 7dps range; integral inputs must be between -214 and 214"@
}

/// What is wrong where a method has no result.
pub open spec fn fault(method: Seq<char>, args: Seq<Value>) -> Seq<char> {
    match args[0].scalar() {
        None => not_numeric(),
        Some(s) => if method == "ToInteger"@ {
            nan_fault("Integer"@)
        } else if method == "ToUnsignedInteger"@ {
            nan_fault("UnsignedInteger"@)
        } else {
            match s {
                M1Scalar::Integer(v) => range_fault(v as int),
                M1Scalar::UnsignedInteger(v) => range_fault(v as int),
                _ => "Convert.ToFixed7DP expects an M1 Integer or UnsignedInteger, got "@
                    + scalar_text(s),
            }
        },
    }
}

fn clamp(v: i64, lo: i64, hi: i64) -> (r: i64)
    ensures
        r == within(v as int, lo as int, hi as int),
{
    if v < lo {
        lo
    } else if v > hi {
        hi
    } else {
        v
    }
}

/// The whole number nearest to a fixed-point value.
fn round_fixed(value: FixedPoint7dps) -> (r: i64)
    ensures
        r == rounded_fixed(value.raw as int),
        -215 <= r <= 215,
{
    let raw: i64 = value.raw as i64;
    if raw < 0 {
        -((2 * (-raw) + 10_000_000) / 20_000_000)
    } else {
        (2 * raw + 10_000_000) / 20_000_000
    }
}

fn round_scalar(s: M1Scalar, target: &str, lo: i64, hi: i64) -> (r: Result<i64, EvalError>)
    requires
        -0x100_0000_0000 < lo <= hi < 0x100_0000_0000,
    ensures
        match nearest_within(s, lo as int, hi as int) {
            Some(v) => r == Ok::<i64, EvalError>(v as i64) && lo <= v <= hi,
            None => r matches Err(e) && is_type_error(e, nan_fault(target@)),
        },
{
    match s {
        M1Scalar::Integer(v) => Ok(clamp(v as i64, lo, hi)),
        M1Scalar::UnsignedInteger(v) => Ok(clamp(v as i64, lo, hi)),
        M1Scalar::FloatingPoint(v) => {
            if v.is_nan() {
                Err(type_error(enclosed("NaN has no nearest M1 ", target, " value").as_str()))
            } else {
                let r: i64 = v.round_within(lo, hi);
                proof {
                    reveal(crate::float::binary32::F32::rounded_within);
                }
                Ok(r)
            }
        },
        M1Scalar::FixedPoint7dps(v) => Ok(clamp(round_fixed(v), lo, hi)),
    }
}

fn to_fixed(v: i64) -> (r: Result<Value, EvalError>)
    ensures
        match fixed_of(v as int) {
            Some(x) => r == Ok::<Value, EvalError>(x),
            None => r matches Err(e) && is_type_error(e, range_fault(v as int)),
        },
{
    if -214 <= v && v <= 214 {
        Ok(Value::M1(M1Scalar::FixedPoint7dps(FixedPoint7dps::from_raw((v * 10_000_000) as i32))))
    } else {
        let detail: String = enclosed(
            "Convert.ToFixed7DP input ",
            signed_text(v).as_str(),
            " is outside the Fixed Point 7dps range; integral inputs must be between -214 and 214",
        );
        Err(type_error(detail.as_str()))
    }
}

/// Evaluates one `Convert.<method>` call, or gives `None` for another name.
pub fn call(method: &str, args: &[Value]) -> (r: Result<Option<Value>, EvalError>)
    requires
        method@ == "ToInteger"@ || method@ == "ToUnsignedInteger"@ || method@ == "ToFixed7DP"@
            ==> args.len() >= 1,
    ensures
        match answer(method@, args@) {
            None => r == Ok::<Option<Value>, EvalError>(None),
            Some(None) => r matches Err(e) && is_type_error(e, fault(method@, args@)),
            Some(Some(v)) => r == Ok::<Option<Value>, EvalError>(Some(v)),
        },
{
    if same(method, "ToInteger") {
        let s = args[0].m1_scalar()?;
        let v: i64 = round_scalar(s, "Integer", -0x8000_0000, 0x7fff_ffff)?;
        Ok(Some(Value::m1_integer(v as i32)))
    } else if same(method, "ToUnsignedInteger") {
        let s = args[0].m1_scalar()?;
        let v: i64 = round_scalar(s, "UnsignedInteger", 0, 0xffff_ffff)?;
        Ok(Some(Value::m1_unsigned(v as u32)))
    } else if same(method, "ToFixed7DP") {
        match args[0].m1_scalar()? {
            M1Scalar::Integer(v) => Ok(Some(to_fixed(v as i64)?)),
            M1Scalar::UnsignedInteger(v) => Ok(Some(to_fixed(v as i64)?)),
            other => {
                let detail: String = joined(
                    "Convert.ToFixed7DP expects an M1 Integer or UnsignedInteger, got ",
                    show_scalar(other).as_str(),
                );
                Err(type_error(detail.as_str()))
            },
        }
    } else {
        Ok(None)
    }
}

} // verus!
