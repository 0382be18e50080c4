//! What the remaining pure methods, and the values that they take, hold to.

use crate::builtins::calculate::{self, HostMath, Outcome};
use crate::builtins::{convert, limit};
use crate::float::binary32::F32;
use crate::float::binary64::F64;
use crate::float::exact::{
    fine_slack, is_whole, law_conversions, law_double_arithmetic, law_double_order, law_floor_and_ceiling,
    law_integers, law_rounded, law_single_order, law_square_root, law_widening_is_exact,
    lemma_decimal_constants, lemma_double_rounding, lemma_narrow_within_reach,
    lemma_quotient_within_reach, lemma_reach, lemma_single_rounding, size, slack,
};
use crate::float::num::Format;
use crate::laws::pure::{of_one, of_two, signed, unsigned};
use crate::value::{M1Scalar, Value};
use vstd::prelude::*;

verus! {

/// The exact value of a scalar.
pub open spec fn worth(s: M1Scalar) -> real {
    match s {
        M1Scalar::Integer(v) => v as int as real,
        M1Scalar::UnsignedInteger(v) => v as int as real,
        M1Scalar::FloatingPoint(v) => v.exact(),
        M1Scalar::FixedPoint7dps(v) => (v.raw as int as real) / 10000000real,
    }
}

/// A quotient of two numbers that were rounded.
proof fn lemma_fixed(n: real, d: real, q: real, raw: real, t: real)
    requires
        size(n - raw) <= size(raw) / 9007199254740992real,
        size(d - 10000000real) <= 10000000real / 9007199254740992real,
        size(q - n / d) <= size(n / d) / 9007199254740992real + t,
        t > 0real,
    ensures
        size(q - raw / 10000000real) <= 4real * (size(raw / 10000000real) / 9007199254740992real + t),
{
    let r = raw / 10000000real;
    let w = n / d;
    assert(w * d == n) by (nonlinear_arith)
        requires
            d > 0real,
            w == n / d,
    ;
    assert(size(w - r) <= 5real * (size(r) / 18014398509481984real)) by (nonlinear_arith)
        requires
            w * d == n,
            r == raw / 10000000real,
            size(n - raw) <= size(raw) / 9007199254740992real,
            size(d - 10000000real) <= 10000000real / 9007199254740992real,
    {
        assert((w - r) * d == n - r * d);
        assert(r * d == raw + r * (d - 10000000real));
        assert(size(r * (d - 10000000real)) <= size(r) * (10000000real / 9007199254740992real));
        assert(size((w - r) * d) <= size(raw) / 9007199254740992real + size(r) * (10000000real
            / 9007199254740992real));
        assert(size(raw) == size(r) * 10000000real);
        assert(size((w - r) * d) == size(w - r) * d);
        assert(size(w - r) * d >= size(w - r) * 9999999real);
    }
}

/// A scalar in binary64 is its value, within rounding.
pub proof fn law_scalars_in_double(s: M1Scalar)
    requires
        s matches M1Scalar::FloatingPoint(v) ==> v.is_finite(),
    ensures
        s.wide().is_finite(),
        size(s.wide().exact() - worth(s)) <= 4real * fine_slack(worth(s)),
{
    lemma_double_rounding();
    match s {
        M1Scalar::Integer(v) => {
            law_integers(v as int);
        },
        M1Scalar::UnsignedInteger(v) => {
            law_integers(v as int);
        },
        M1Scalar::FloatingPoint(v) => {
            law_widening_is_exact(v);
        },
        M1Scalar::FixedPoint7dps(v) => {
            law_integers(v.raw as int);
            law_integers(10000000);
            lemma_reach();
            let (n, d) = (F64::nearest(v.raw as int), F64::nearest(10000000));
            let m = crate::float::exact::reach(Format::Binary64);
            assert(size(n.exact()) < m * size(d.exact())) by (nonlinear_arith)
                requires
                    size(n.exact()) <= 4294967296real,
                    size(d.exact()) >= 1000000real,
                    m > 1000000000000000real,
            ;
            lemma_quotient_within_reach(n, d);
            law_double_arithmetic(n, d);
            lemma_fixed(
                n.exact(),
                d.exact(),
                n.over(d).exact(),
                v.raw as int as real,
                crate::float::exact::smallest(Format::Binary64),
            );
        },
    }
}

/// A scalar in binary32 is its value, within rounding.
pub proof fn law_scalars_in_single(s: M1Scalar)
    requires
        s matches M1Scalar::FloatingPoint(v) ==> v.is_finite(),
    ensures
        s.single().is_finite(),
        size(s.single().exact() - worth(s)) <= 8real * slack(worth(s)),
{
    lemma_single_rounding();
    lemma_double_rounding();
    match s {
        M1Scalar::Integer(v) => {
            law_integers(v as int);
        },
        M1Scalar::UnsignedInteger(v) => {
            law_integers(v as int);
        },
        M1Scalar::FloatingPoint(v) => {},
        M1Scalar::FixedPoint7dps(v) => {
            law_scalars_in_double(s);
            lemma_reach();
            let w = v.wide();
            assert(size(worth(s)) <= 4294967296real);
            assert(size(w.exact()) <= 8589934592real);
            lemma_narrow_within_reach(w);
            law_conversions(F32 { bits: 0 }, w);
        },
    }
}

/// The names of the constants and of the functions of one number are distinct.
proof fn lemma_names(args: Seq<Value>)
    requires
        args.len() >= 1,
    ensures
        calculate::answer("PI"@, args) == Some(
            Some(calculate::float_outcome(F32 { bits: 0x4049_0fdb })),
        ),
        calculate::answer("NAN"@, args) == Some(
            Some(calculate::float_outcome(F32 { bits: 0x7fc0_0000 })),
        ),
        calculate::answer("Infinity"@, args) == Some(
            Some(calculate::float_outcome(F32 { bits: 0x7f80_0000 })),
        ),
        calculate::answer("MaximumFloat"@, args) == Some(
            Some(calculate::float_outcome(F32 { bits: 0x7f7f_ffff })),
        ),
        calculate::answer("Floor"@, args) == Some(
            calculate::with_one(args, |x: F32| calculate::float_outcome(x.floor())),
        ),
        calculate::answer("Ceiling"@, args) == Some(
            calculate::with_one(args, |x: F32| calculate::float_outcome(x.ceil())),
        ),
        calculate::answer("FastSquareRoot"@, args) == Some(
            calculate::with_one(args, |x: F32| calculate::float_outcome(x.sqrt())),
        ),
        calculate::answer("IsNAN"@, args) == Some(
            calculate::with_one(args, |x: F32| Outcome::Known(Value::Bool(x.is_nan()))),
        ),
        calculate::answer("IsFinite"@, args) == Some(
            calculate::with_one(args, |x: F32| Outcome::Known(Value::Bool(x.is_finite()))),
        ),
{
    lemma_spellings();
}

/// The spellings of the pure methods.
proof fn lemma_spellings()
    ensures
        "Max"@.len() == 3 && "Max"@[0] == 'M',
        "Min"@.len() == 3 && "Min"@[0] == 'M',
        "NAN"@.len() == 3 && "NAN"@[0] == 'N',
        "Absolute"@.len() == 8 && "Absolute"@[0] == 'A',
        "Infinity"@.len() == 8 && "Infinity"@[0] == 'I' && "Infinity"@[1] == 'n',
        "IsFinite"@.len() == 8 && "IsFinite"@[0] == 'I' && "IsFinite"@[1] == 's',
        "Average"@.len() == 7 && "Average"@[0] == 'A' && "Average"@[4] == 'a',
        "Ceiling"@.len() == 7 && "Ceiling"@[0] == 'C' && "Ceiling"@[4] == 'i',
        "FastSin"@.len() == 7 && "FastSin"@[0] == 'F' && "FastSin"@[4] == 'S',
        "FastCos"@.len() == 7 && "FastCos"@[0] == 'F' && "FastCos"@[4] == 'C',
        "FastTan"@.len() == 7 && "FastTan"@[0] == 'F' && "FastTan"@[4] == 'T',
        "Modulo"@.len() == 6,
        "Bias"@.len() == 4,
        "PI"@.len() == 2,
        "MaximumFloat"@.len() == 12,
        "Floor"@.len() == 5 && "Floor"@[0] == 'F',
        "Power"@.len() == 5 && "Power"@[0] == 'P',
        "IsNAN"@.len() == 5 && "IsNAN"@[0] == 'I',
        "FastSquareRoot"@.len() == 14,
        "InverseSin"@.len() == 10 && "InverseSin"@[7] == 'S',
        "InverseCos"@.len() == 10 && "InverseCos"@[7] == 'C',
        "InverseTan"@.len() == 10 && "InverseTan"@[7] == 'T',
        "InverseTan2"@.len() == 11,
{
    reveal_strlit("Max");
    reveal_strlit("Min");
    reveal_strlit("NAN");
    reveal_strlit("Absolute");
    reveal_strlit("Infinity");
    reveal_strlit("IsFinite");
    reveal_strlit("Average");
    reveal_strlit("Ceiling");
    reveal_strlit("FastSin");
    reveal_strlit("FastCos");
    reveal_strlit("FastTan");
    reveal_strlit("Modulo");
    reveal_strlit("Bias");
    reveal_strlit("PI");
    reveal_strlit("MaximumFloat");
    reveal_strlit("Floor");
    reveal_strlit("Power");
    reveal_strlit("IsNAN");
    reveal_strlit("FastSquareRoot");
    reveal_strlit("InverseSin");
    reveal_strlit("InverseCos");
    reveal_strlit("InverseTan");
    reveal_strlit("InverseTan2");
}

/// The constants: pi within rounding, a NaN, an infinity above every finite number, and a finite
/// number that no other exceeds.
pub proof fn law_constants(args: Seq<Value>, any: F32)
    requires
        args.len() >= 1,
    ensures
        calculate::answer("PI"@, args) matches Some(
            Some(Outcome::Known(Value::M1(M1Scalar::FloatingPoint(pi)))),
        ) && pi.is_finite() && size(pi.exact() - 31415926535real / 10000000000real) <= 1real
            / 10000000real,
        calculate::answer("NAN"@, args) matches Some(
            Some(Outcome::Known(Value::M1(M1Scalar::FloatingPoint(nan)))),
        ) && !nan.equals(nan),
        calculate::answer("Infinity"@, args) matches Some(
            Some(Outcome::Known(Value::M1(M1Scalar::FloatingPoint(top)))),
        ) && !top.is_finite() && (any.is_finite() ==> any.less(top)),
        calculate::answer("MaximumFloat"@, args) matches Some(
            Some(Outcome::Known(Value::M1(M1Scalar::FloatingPoint(top)))),
        ) && top.is_finite() && (any.is_finite() ==> any.at_most(top)),
{
    lemma_names(args);
    lemma_decimal_constants();
}

/// The floor of a number is the whole number just below it or at it, and its ceiling the one just
/// above it or at it.
pub proof fn law_floor_and_ceiling_of_values(s: M1Scalar)
    requires
        s.single().is_finite(),
    ensures
        of_one("Floor"@, Value::M1(s)) matches Some(
            Some(Outcome::Known(Value::M1(M1Scalar::FloatingPoint(f)))),
        ) && f.is_finite() && exists|m: int| #[trigger]
            is_whole(f.exact(), m) && m as real <= s.single().exact() && s.single().exact()
                < m as real + 1real,
        of_one("Ceiling"@, Value::M1(s)) matches Some(
            Some(Outcome::Known(Value::M1(M1Scalar::FloatingPoint(c)))),
        ) && c.is_finite() && exists|m: int| #[trigger]
            is_whole(c.exact(), m) && m as real >= s.single().exact() && s.single().exact()
                > m as real - 1real,
{
    lemma_names(seq![Value::M1(s)]);
    law_floor_and_ceiling(s.single());
}

/// The square of a root is the number, within rounding of the root.
pub proof fn law_square_root_of_values(s: M1Scalar)
    requires
        s.single().is_finite(),
        s.single().exact() >= 0real,
    ensures
        of_one("FastSquareRoot"@, Value::M1(s)) matches Some(
            Some(Outcome::Known(Value::M1(M1Scalar::FloatingPoint(y)))),
        ) && (y.is_finite() ==> {
            let (x, r) = (s.single().exact(), y.exact());
            let t = 4real * slack(r);
            r >= 0real && (r - t <= 0real || (r - t) * (r - t) <= x) && x <= (r + t) * (r + t)
        }),
{
    lemma_names(seq![Value::M1(s)]);
    if s.single().sqrt().is_finite() {
        law_square_root(s.single());
    }
}

/// A number is a NaN just where it does not equal itself, and finite just where its magnitude is
/// below infinity.
pub proof fn law_kinds_of_numbers(s: M1Scalar)
    ensures
        of_one("IsNAN"@, Value::M1(s)) == Some(
            Some(Outcome::Known(Value::Bool(!s.single().equals(s.single())))),
        ),
        of_one("IsFinite"@, Value::M1(s)) == Some(
            Some(Outcome::Known(Value::Bool(s.single().abs().less(F32 { bits: 0x7f80_0000 })))),
        ),
{
    lemma_names(seq![Value::M1(s)]);
}

/// A function of the host is asked of the operands, in their order.
pub proof fn law_host_questions(a: M1Scalar, b: M1Scalar)
    ensures
        of_two("Power"@, Value::M1(a), Value::M1(b)) == Some(
            Some(Outcome::Host(HostMath::Power(a.single(), b.single()))),
        ),
        of_two("InverseTan2"@, Value::M1(a), Value::M1(b)) == Some(
            Some(Outcome::Host(HostMath::InverseTan2(a.single(), b.single()))),
        ),
        of_one("FastSin"@, Value::M1(a)) == Some(Some(Outcome::Host(HostMath::Sin(a.single())))),
        of_one("FastCos"@, Value::M1(a)) == Some(Some(Outcome::Host(HostMath::Cos(a.single())))),
        of_one("FastTan"@, Value::M1(a)) == Some(Some(Outcome::Host(HostMath::Tan(a.single())))),
        of_one("InverseSin"@, Value::M1(a)) == Some(
            Some(Outcome::Host(HostMath::InverseSin(a.single()))),
        ),
        of_one("InverseCos"@, Value::M1(a)) == Some(
            Some(Outcome::Host(HostMath::InverseCos(a.single()))),
        ),
        of_one("InverseTan"@, Value::M1(a)) == Some(
            Some(Outcome::Host(HostMath::InverseTan(a.single()))),
        ),
{
    lemma_spellings();
}

/// The names of the limits are distinct.
proof fn lemma_limit_names()
    ensures
        "Max"@ != "Min"@ && "Range"@ != "Max"@ && "Range"@ != "Min"@,
{
    reveal_strlit("Max");
    reveal_strlit("Min");
    reveal_strlit("Range");
    assert("Max"@.len() == 3 && "Max"@[1] == 'a' && "Min"@.len() == 3 && "Min"@[1] == 'i');
    assert("Range"@.len() == 5);
}

/// An upper limit keeps an integer that does not exceed it and is the result for one that does;
/// a lower limit does the contrary, and a range both.
pub proof fn law_limits_of_integers(x: i32, bound: i32, lo: i32, hi: i32)
    requires
        lo <= hi,
    ensures
        limit::answer("Max"@, seq![signed(x), signed(bound)]) == Some(
            Some(signed(if x <= bound { x } else { bound })),
        ),
        limit::answer("Min"@, seq![signed(x), signed(bound)]) == Some(
            Some(signed(if x >= bound { x } else { bound })),
        ),
        limit::answer("Range"@, seq![signed(x), signed(lo), signed(hi)]) == Some(
            Some(signed(if x <= lo { lo } else if x >= hi { hi } else { x })),
        ),
{
    lemma_limit_names();
}

/// The limits of unsigned integers.
pub proof fn law_limits_of_unsigned(x: u32, bound: u32, lo: u32, hi: u32)
    requires
        lo <= hi,
    ensures
        limit::answer("Max"@, seq![unsigned(x), unsigned(bound)]) == Some(
            Some(unsigned(if x <= bound { x } else { bound })),
        ),
        limit::answer("Min"@, seq![unsigned(x), unsigned(bound)]) == Some(
            Some(unsigned(if x >= bound { x } else { bound })),
        ),
        limit::answer("Range"@, seq![unsigned(x), unsigned(lo), unsigned(hi)]) == Some(
            Some(unsigned(if x <= lo { lo } else if x >= hi { hi } else { x })),
        ),
{
    lemma_limit_names();
}

/// The limits of numbers, in exact values: a value within its bounds is kept, and another comes to
/// the bound that it passed.
pub proof fn law_limits_of_numbers(x: M1Scalar, lo: M1Scalar, hi: M1Scalar)
    requires
        x is FloatingPoint || x is FixedPoint7dps,
        x.single().is_finite(),
        lo.single().is_finite(),
        hi.single().is_finite(),
        lo.single().exact() <= hi.single().exact(),
    ensures
        limit::answer("Max"@, seq![Value::M1(x), Value::M1(hi)]) matches Some(
            Some(Value::M1(M1Scalar::FloatingPoint(v))),
        ) && v.is_finite() && v.exact() == (if x.single().exact() <= hi.single().exact() {
            x.single().exact()
        } else {
            hi.single().exact()
        }),
        limit::answer("Min"@, seq![Value::M1(x), Value::M1(lo)]) matches Some(
            Some(Value::M1(M1Scalar::FloatingPoint(v))),
        ) && v.is_finite() && v.exact() == (if x.single().exact() >= lo.single().exact() {
            x.single().exact()
        } else {
            lo.single().exact()
        }),
        limit::answer("Range"@, seq![Value::M1(x), Value::M1(lo), Value::M1(hi)]) matches Some(
            Some(Value::M1(M1Scalar::FloatingPoint(v))),
        ) && v.is_finite() && v.exact() == (if x.single().exact() < lo.single().exact() {
            lo.single().exact()
        } else if x.single().exact() > hi.single().exact() {
            hi.single().exact()
        } else {
            x.single().exact()
        }),
{
    lemma_limit_names();
    law_single_order(x.single(), hi.single());
    law_single_order(x.single(), lo.single());
    law_single_order(x.single().max(lo.single()), hi.single());
}

/// The names of the conversions are distinct.
proof fn lemma_convert_names()
    ensures
        "ToInteger"@ != "ToUnsignedInteger"@ && "ToFixed7DP"@ != "ToInteger"@ && "ToFixed7DP"@
            != "ToUnsignedInteger"@,
{
    reveal_strlit("ToInteger");
    reveal_strlit("ToUnsignedInteger");
    reveal_strlit("ToFixed7DP");
    assert("ToInteger"@.len() == 9 && "ToUnsignedInteger"@.len() == 17 && "ToFixed7DP"@.len() == 10);
}

/// Whether an integer is the one nearest to a value among those of a range: no further than a half,
/// a half only away from zero, or the end of the range on the value's side.
pub open spec fn is_nearest(v: int, x: real, lo: int, hi: int) -> bool {
    &&& lo <= v <= hi
    &&& x - v as real > 1real / 2real ==> v == hi
    &&& v as real - x > 1real / 2real ==> v == lo
    &&& x - v as real == 1real / 2real ==> x < 0real || v == hi
    &&& v as real - x == 1real / 2real ==> x > 0real || v == lo
}

/// A scalar converts to the nearest integer of the range of the target, halves away from zero; a
/// NaN does not convert, and an infinity converts to the end of the range on its side.
pub proof fn law_conversion_is_nearest(s: M1Scalar)
    ensures
        s matches M1Scalar::FloatingPoint(v) ==> (v.is_nan() ==> convert::answer(
            "ToInteger"@,
            seq![Value::M1(s)],
        ) == Some(None::<Value>) && convert::answer("ToUnsignedInteger"@, seq![Value::M1(s)]) == Some(
            None::<Value>,
        )),
        !(s matches M1Scalar::FloatingPoint(v) && !v.is_finite()) ==> (convert::answer(
            "ToInteger"@,
            seq![Value::M1(s)],
        ) matches Some(Some(Value::M1(M1Scalar::Integer(v)))) && is_nearest(
            v as int,
            worth(s),
            -0x8000_0000,
            0x7fff_ffff,
        )),
        !(s matches M1Scalar::FloatingPoint(v) && !v.is_finite()) ==> (convert::answer(
            "ToUnsignedInteger"@,
            seq![Value::M1(s)],
        ) matches Some(Some(Value::M1(M1Scalar::UnsignedInteger(v)))) && is_nearest(
            v as int,
            worth(s),
            0,
            0xffff_ffff,
        )),
        s matches M1Scalar::FloatingPoint(v) ==> (v.is_infinite() ==> convert::answer(
            "ToInteger"@,
            seq![Value::M1(s)],
        ) == Some(
            Some(signed(if v.less(F32 { bits: 0 }) { i32::MIN } else { i32::MAX })),
        ) && convert::answer("ToUnsignedInteger"@, seq![Value::M1(s)]) == Some(
            Some(unsigned(if v.less(F32 { bits: 0 }) { 0 } else { u32::MAX })),
        )),
{
    lemma_convert_names();
    match s {
        M1Scalar::FloatingPoint(v) => {
            reveal(F32::rounded_within);
            if v.is_finite() {
                law_rounded(v);
            }
        },
        M1Scalar::FixedPoint7dps(v) => {
            lemma_rounded_fixed(v.raw as int);
        },
        _ => {},
    }
}

proof fn lemma_rounded_fixed(raw: int)
    ensures
        ({
            let (v, x) = (convert::rounded_fixed(raw), (raw as real) / 10000000real);
            &&& size(x - v as real) <= 1real / 2real
            &&& x - v as real == 1real / 2real ==> x < 0real
            &&& v as real - x == 1real / 2real ==> x > 0real
        }),
{
    let m = if raw < 0 { -raw } else { raw };
    let w = (2 * m + 10000000) / 20000000;
    vstd::arithmetic::div_mod::lemma_fundamental_div_mod(2 * m + 10000000, 20000000);
    assert(20000000 * w <= 2 * m + 10000000 < 20000000 * w + 20000000);
}

/// A whole number from -214 to 214 converts to fixed point exactly; no other integer, and no
/// other scalar, converts.
pub proof fn law_conversion_to_fixed_point(s: M1Scalar)
    ensures
        convert::answer("ToFixed7DP"@, seq![Value::M1(s)]) matches Some(r) && match r {
            Some(v) => v matches Value::M1(t) && t is FixedPoint7dps && worth(t) == worth(s) && (
            s is Integer || s is UnsignedInteger),
            None => s is FloatingPoint || s is FixedPoint7dps || worth(s) < -214real || worth(s)
                > 214real,
        },
{
    lemma_convert_names();
    match s {
        M1Scalar::Integer(v) => {
            if -214 <= v <= 214 {
                lemma_fixed_value(v as int);
            }
        },
        M1Scalar::UnsignedInteger(v) => {
            if v <= 214 {
                lemma_fixed_value(v as int);
            }
        },
        _ => {},
    }
}

proof fn lemma_fixed_value(v: int)
    requires
        -214 <= v <= 214,
    ensures
        (((v * 10000000) as i32) as int as real) / 10000000real == v as real,
{
    assert(-0x8000_0000 <= v * 10000000 <= 0x7fff_ffff);
    crate::float::exact::lemma_real_product(v, 10000000);
}

/// The magnitude of a fixed-point value is a number, and its value but for the sign, within rounding.
pub proof fn law_absolute_of_fixed_point(s: M1Scalar)
    requires
        s is FixedPoint7dps,
    ensures
        of_one("Absolute"@, Value::M1(s)) matches Some(
            Some(Outcome::Known(Value::M1(M1Scalar::FloatingPoint(m)))),
        ) && m.is_finite() && size(m.exact() - size(worth(s))) <= 8real * slack(worth(s)),
{
    lemma_spellings();
    lemma_single_rounding();
    lemma_double_rounding();
    law_scalars_in_double(s);
    lemma_reach();
    let w = s.wide();
    law_double_order(w, w);
    assert(size(worth(s)) <= 4294967296real);
    lemma_narrow_within_reach(w.abs());
    law_conversions(F32 { bits: 0 }, w.abs());
}

} // verus!
