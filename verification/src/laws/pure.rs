//! What the pure methods of `Calculate`, `Limit` and `Convert` hold to.

use crate::builtins::calculate::{self, Outcome};
use crate::float::binary32::F32;
use crate::float::exact::{
    law_midpoint, law_remainder_of_numbers, law_single_arithmetic, law_single_order, leaves,
    lemma_constants, lemma_single_operands, lemma_single_rounding, size, slack, smallest,
};
use crate::float::num::Format;
use crate::laws::bounds::lemma_scaled;
use crate::laws::law_remainder;
use crate::value::{M1Scalar, Value};
use vstd::arithmetic::div_mod::*;
use vstd::prelude::*;

verus! {

/// A signed integer.
pub open spec fn signed(v: i32) -> Value {
    Value::M1(M1Scalar::Integer(v))
}

/// An unsigned integer.
pub open spec fn unsigned(v: u32) -> Value {
    Value::M1(M1Scalar::UnsignedInteger(v))
}

/// A floating-point number.
pub open spec fn number(v: F32) -> Value {
    Value::M1(M1Scalar::FloatingPoint(v))
}

/// What `Calculate.<method>` gives for one operand.
pub open spec fn of_one(method: Seq<char>, a: Value) -> Option<Option<Outcome>> {
    calculate::answer(method, seq![a])
}

/// What `Calculate.<method>` gives for two operands.
pub open spec fn of_two(method: Seq<char>, a: Value, b: Value) -> Option<Option<Outcome>> {
    calculate::answer(method, seq![a, b])
}

/// A known value as an answer.
pub open spec fn gives(v: Value) -> Option<Option<Outcome>> {
    Some(Some(Outcome::Known(v)))
}

/// The names of the arithmetic methods are distinct.
proof fn lemma_arithmetic_names()
    ensures
        "Max"@ != "Min"@,
        "Absolute"@ != "Max"@ && "Absolute"@ != "Min"@,
        "Average"@ != "Max"@ && "Average"@ != "Min"@ && "Average"@ != "Absolute"@,
        "Modulo"@ != "Max"@ && "Modulo"@ != "Min"@ && "Modulo"@ != "Absolute"@ && "Modulo"@
            != "Average"@,
        "Bias"@ != "Max"@ && "Bias"@ != "Min"@ && "Bias"@ != "Absolute"@ && "Bias"@ != "Average"@
            && "Bias"@ != "Modulo"@,
{
    reveal_strlit("Max");
    reveal_strlit("Min");
    reveal_strlit("Absolute");
    reveal_strlit("Average");
    reveal_strlit("Modulo");
    reveal_strlit("Bias");
    assert("Max"@.len() == 3 && "Max"@[1] == 'a' && "Min"@.len() == 3 && "Min"@[1] == 'i');
    assert("Absolute"@.len() == 8 && "Average"@.len() == 7 && "Modulo"@.len() == 6 && "Bias"@.len()
        == 4);
}

/// The greater of two integers of one kind bounds both and is one of them, and so does the lesser
/// from below.
pub proof fn law_extremes_of_integers(x: i32, y: i32, u: u32, v: u32)
    ensures
        of_two("Max"@, signed(x), signed(y)) matches Some(
            Some(Outcome::Known(Value::M1(M1Scalar::Integer(m)))),
        ) && m >= x && m >= y && (m == x || m == y),
        of_two("Min"@, signed(x), signed(y)) matches Some(
            Some(Outcome::Known(Value::M1(M1Scalar::Integer(m)))),
        ) && m <= x && m <= y && (m == x || m == y),
        of_two("Max"@, unsigned(u), unsigned(v)) matches Some(
            Some(Outcome::Known(Value::M1(M1Scalar::UnsignedInteger(m)))),
        ) && m >= u && m >= v && (m == u || m == v),
        of_two("Min"@, unsigned(u), unsigned(v)) matches Some(
            Some(Outcome::Known(Value::M1(M1Scalar::UnsignedInteger(m)))),
        ) && m <= u && m <= v && (m == u || m == v),
{
    lemma_arithmetic_names();
}

/// Where a signed integer meets an unsigned one, it counts by its pattern: the unsigned integer
/// that differs from it by a multiple of `2^32`.
pub proof fn law_extremes_of_mixed_integers(x: i32, u: u32, p: u32)
    requires
        p == x || p == x + 0x1_0000_0000,
    ensures
        of_two("Max"@, signed(x), unsigned(u)) == of_two("Max"@, unsigned(p), unsigned(u)),
        of_two("Max"@, unsigned(u), signed(x)) == of_two("Max"@, unsigned(u), unsigned(p)),
        of_two("Min"@, signed(x), unsigned(u)) == of_two("Min"@, unsigned(p), unsigned(u)),
        of_two("Min"@, unsigned(u), signed(x)) == of_two("Min"@, unsigned(u), unsigned(p)),
        of_two("Average"@, signed(x), unsigned(u)) == of_two("Average"@, unsigned(p), unsigned(u)),
        of_two("Modulo"@, signed(x), unsigned(u)) == of_two("Modulo"@, unsigned(p), unsigned(u)),
        of_two("Modulo"@, unsigned(u), signed(x)) == of_two("Modulo"@, unsigned(u), unsigned(p)),
{
    lemma_arithmetic_names();
}

/// Where one operand is floating, both count as floating-point numbers: the greater is no less
/// than either and is one of them, and so from below.
pub proof fn law_extremes_of_numbers(a: M1Scalar, b: M1Scalar)
    requires
        a is FloatingPoint || b is FloatingPoint || a is FixedPoint7dps || b is FixedPoint7dps,
        a.single().is_finite(),
        b.single().is_finite(),
    ensures
        of_two("Max"@, Value::M1(a), Value::M1(b)) matches Some(
            Some(Outcome::Known(Value::M1(M1Scalar::FloatingPoint(m)))),
        ) && m.is_finite() && m.exact() >= a.single().exact() && m.exact() >= b.single().exact() && (
        m.exact() == a.single().exact() || m.exact() == b.single().exact()),
        of_two("Min"@, Value::M1(a), Value::M1(b)) matches Some(
            Some(Outcome::Known(Value::M1(M1Scalar::FloatingPoint(m)))),
        ) && m.is_finite() && m.exact() <= a.single().exact() && m.exact() <= b.single().exact() && (
        m.exact() == a.single().exact() || m.exact() == b.single().exact()),
{
    lemma_arithmetic_names();
    law_single_order(a.single(), b.single());
}

/// The magnitude of an integer or a number is not negative, and is it or its opposite. The least
/// integer has none.
pub proof fn law_absolute(x: i32, u: u32, v: F32)
    ensures
        x > i32::MIN ==> (of_one("Absolute"@, signed(x)) matches Some(
            Some(Outcome::Known(Value::M1(M1Scalar::Integer(m)))),
        ) && m >= 0 && (m == x || m == -x)),
        of_one("Absolute"@, signed(i32::MIN)) == Some(None::<Outcome>),
        of_one("Absolute"@, unsigned(u)) == gives(unsigned(u)),
        v.is_finite() ==> (of_one("Absolute"@, number(v)) matches Some(
            Some(Outcome::Known(Value::M1(M1Scalar::FloatingPoint(m)))),
        ) && m.is_finite() && m.exact() == size(v.exact())),
{
    lemma_arithmetic_names();
    if v.is_finite() {
        law_single_order(v, v);
    }
}

/// Twice the mean of two integers is their sum, or one less in magnitude: a half is dropped
/// toward zero.
pub proof fn law_average_of_integers(x: i32, y: i32, u: u32, v: u32)
    ensures
        of_two("Average"@, signed(x), signed(y)) matches Some(
            Some(Outcome::Known(Value::M1(M1Scalar::Integer(m)))),
        ) && (x + y >= 0 ==> 0 <= x + y - 2 * m <= 1) && (x + y <= 0 ==> -1 <= x + y - 2 * m <= 0),
        of_two("Average"@, unsigned(u), unsigned(v)) matches Some(
            Some(Outcome::Known(Value::M1(M1Scalar::UnsignedInteger(m)))),
        ) && 0 <= u + v - 2 * m <= 1,
{
    lemma_arithmetic_names();
}

/// The mean of two numbers is half their sum, within rounding.
pub proof fn law_average_of_numbers(a: M1Scalar, b: M1Scalar)
    requires
        a is FloatingPoint || b is FloatingPoint || a is FixedPoint7dps || b is FixedPoint7dps,
        a.single().is_finite(),
        b.single().is_finite(),
    ensures
        of_two("Average"@, Value::M1(a), Value::M1(b)) matches Some(
            Some(Outcome::Known(Value::M1(M1Scalar::FloatingPoint(m)))),
        ) && (m.is_finite() ==> {
            let mean = (a.single().exact() + b.single().exact()) / 2real;
            size(m.exact() - mean) <= 4real * slack(mean)
        }),
{
    lemma_arithmetic_names();
    if a.single().midpoint(b.single()).is_finite() {
        law_midpoint(a.single(), b.single());
    }
}

/// The remainder of an unsigned division is below the divisor, and what it takes away from the
/// dividend is a multiple of the divisor.
pub proof fn law_modulo_of_unsigned(x: u32, y: u32)
    requires
        y != 0,
    ensures
        of_two("Modulo"@, unsigned(x), unsigned(y)) matches Some(
            Some(Outcome::Known(Value::M1(M1Scalar::UnsignedInteger(r)))),
        ) && r < y && r <= x && exists|q: int| #[trigger] (q * y) == x - r,
{
    lemma_arithmetic_names();
    lemma_fundamental_div_mod(x as int, y as int);
    lemma_mod_bound(x as int, y as int);
    lemma_mod_decreases(x as nat, y as nat);
    let q = x as int / y as int;
    assert(q * y == y * q) by (nonlinear_arith);
    assert(q * y == x - x % y);
}

/// The remainder of a signed division is smaller than the divisor, has the sign of the dividend,
/// and what it takes away from the dividend is a multiple of the divisor.
pub proof fn law_modulo_of_signed(x: i32, y: i32)
    requires
        y != 0,
    ensures
        of_two("Modulo"@, signed(x), signed(y)) matches Some(
            Some(Outcome::Known(Value::M1(M1Scalar::Integer(r)))),
        ) && (y > 0 ==> -y < r < y) && (y < 0 ==> y < r < -y) && (x >= 0 ==> 0 <= r <= x) && (x <= 0
            ==> x <= r <= 0) && exists|q: int| #[trigger] (q * y) == x - r,
{
    lemma_arithmetic_names();
    law_remainder(x as int, y as int);
    let r = calculate::truncated_remainder(x as int, y as int);
    let m = if y < 0 { -(y as int) } else { y as int };
    lemma_fundamental_div_mod(x - r, m);
    let q = (x - r) / m;
    if x < 0 {
        lemma_mod_decreases((-(x as int)) as nat, m as nat);
    } else {
        lemma_mod_decreases(x as nat, m as nat);
    }
    if y < 0 {
        assert((-q) * y == x - r) by (nonlinear_arith)
            requires
                x - r == m * q,
                m == -(y as int),
        ;
    } else {
        assert(q * y == x - r) by (nonlinear_arith)
            requires
                x - r == m * q,
                m == y,
        ;
    }
}

/// The remainder of a division of numbers has the sign of the dividend and is no greater than the
/// divisor, and within rounding it takes a whole number of divisors from the dividend.
pub proof fn law_modulo_of_numbers(a: M1Scalar, b: M1Scalar)
    requires
        a is FloatingPoint || b is FloatingPoint || a is FixedPoint7dps || b is FixedPoint7dps,
        a.single().is_finite(),
        b.single().is_finite(),
        b.single().exact() != 0real,
    ensures
        of_two("Modulo"@, Value::M1(a), Value::M1(b)) matches Some(
            Some(Outcome::Known(Value::M1(M1Scalar::FloatingPoint(r)))),
        ) && r.is_finite() && size(r.exact()) <= size(b.single().exact()) && (r.exact() == 0real || (
        r.exact() < 0real) == (a.single().exact() < 0real)) && exists|q: int| #[trigger]
            leaves(a.single().exact(), b.single().exact(), r.exact(), q),
{
    lemma_arithmetic_names();
    lemma_constants();
    law_single_order(b.single(), F32 { bits: 0 });
    law_remainder_of_numbers(a.single(), b.single());
}

/// There is no remainder by zero.
pub proof fn law_modulo_by_zero(x: i32, u: u32, v: F32, z: F32)
    requires
        z.is_finite(),
        z.exact() == 0real,
    ensures
        of_two("Modulo"@, signed(x), signed(0)) == Some(None::<Outcome>),
        of_two("Modulo"@, unsigned(u), unsigned(0)) == Some(None::<Outcome>),
        of_two("Modulo"@, number(v), number(z)) == Some(None::<Outcome>),
{
    lemma_arithmetic_names();
    lemma_constants();
    law_single_order(z, F32 { bits: 0 });
}

/// What a biased mean is off by at most.
pub open spec fn bias_play(x: real, y: real, bias: real) -> real {
    (size(x) + size(y)) * (1real + size(bias)) / 1048576real + 8real * smallest(Format::Binary32) * (
    1real + size(bias))
}

/// A biased mean is the mean moved by the bias in half separations, within rounding: toward the
/// greater operand where the bias is positive.
pub proof fn law_bias_moves_the_mean(x: F32, y: F32, bias: F32)
    requires
        x.is_finite(),
        y.is_finite(),
        bias.is_finite(),
        x.midpoint(y).is_finite(),
        x.midpoint(y.opposite()).is_finite(),
    ensures
        calculate::answer("Bias"@, seq![number(x), number(y), number(bias)]) matches Some(
            Some(Outcome::Known(Value::M1(M1Scalar::FloatingPoint(v)))),
        ) && (v.is_finite() ==> {
            let mean = (x.exact() + y.exact()) / 2real;
            let half = size(x.exact() - y.exact()) / 2real;
            size(v.exact() - (mean + bias.exact() * half)) <= bias_play(
                x.exact(),
                y.exact(),
                bias.exact(),
            )
        }),
{
    lemma_arithmetic_names();
    lemma_constants();
    lemma_single_rounding();
    let t = smallest(Format::Binary32);
    law_single_order(y, y);
    law_single_order(x, y);
    law_midpoint(x, y);
    law_midpoint(x, y.opposite());
    let (low, zero, high) = (F32 { bits: 0xbf80_0000 }, F32 { bits: 0 }, F32 { bits: 0x3f80_0000 });
    law_single_order(bias, low);
    law_single_order(bias, zero);
    law_single_order(bias, high);
    let m = x.midpoint(y);
    let d = x.midpoint(y.opposite());
    law_single_order(d, d);
    let h = d.abs();
    let p = bias.times(h);
    let v = m.plus(p);
    let (mean, half) = ((x.exact() + y.exact()) / 2real, size(x.exact() - y.exact()) / 2real);
    let k = size(x.exact()) + size(y.exact());
    let b = size(bias.exact());
    let (n, u) = (k * b, t * b);
    assert(k * (1real + b) == k + n && 8real * t * (1real + b) == 8real * t + 8real * u && n >= 0real
        && u >= 0real) by (nonlinear_arith)
        requires
            n == k * b,
            u == t * b,
            k >= 0real,
            b >= 0real,
            t > 0real,
    ;
    assert(size(mean) <= k && size(half) <= k);
    if bias.exact() == 0real {
        assert(bias.exact() * half == 0real) by (nonlinear_arith)
            requires
                bias.exact() == 0real,
        ;
    } else if bias.exact() == -1real {
        assert(bias.exact() * half == -half) by (nonlinear_arith)
            requires
                bias.exact() == -1real,
        ;
    } else if bias.exact() == 1real {
        assert(bias.exact() * half == half) by (nonlinear_arith)
            requires
                bias.exact() == 1real,
        ;
    } else if v.is_finite() {
        lemma_single_operands(m, p);
        law_single_arithmetic(bias, h);
        law_single_arithmetic(m, p);
        lemma_moved(mean, half, m.exact(), h.exact(), bias.exact(), p.exact(), v.exact(), k, t);
    }
}

proof fn lemma_displacement(half: real, h: real, b: real, p: real, k: real, t: real, n: real, u: real)
    requires
        t > 0real,
        size(half) <= k,
        size(h - half) <= 4real * (k / 16777216real + t),
        size(p - b * h) <= size(b * h) / 16777216real + t,
        n == k * size(b),
        u == t * size(b),
    ensures
        n >= 0real,
        u >= 0real,
        size(p - b * half) <= 6real * (n / 16777216real) + 5real * u + t,
        size(b * half) <= n,
{
    let e = 4real * (k / 16777216real + t);
    lemma_scaled(h - half, b, e);
    lemma_scaled(half, b, k);
    let s = size(b);
    assert(e * s == 4real * (n / 16777216real + u) && n >= 0real && u >= 0real) by (nonlinear_arith)
        requires
            e == 4real * (k / 16777216real + t),
            n == k * s,
            u == t * s,
            k >= 0real,
            s >= 0real,
            t > 0real,
    ;
    assert(b * h == (h - half) * b + half * b && half * b == b * half) by (nonlinear_arith);
    let (a, c, d) = ((h - half) * b, half * b, b * h);
    assert(size(a) <= 4real * (n / 16777216real + u));
    assert(size(d) <= 2real * n + 4real * u);
    assert(size(p - d) <= 2real * (n / 16777216real) + u + t);
}

proof fn lemma_moved(mean: real, half: real, m: real, h: real, b: real, p: real, v: real, k: real, t: real)
    requires
        t > 0real,
        size(mean) <= k,
        size(half) <= k,
        size(m - mean) <= 4real * (k / 16777216real + t),
        size(h - half) <= 4real * (k / 16777216real + t),
        size(p - b * h) <= size(b * h) / 16777216real + t,
        size(v - (m + p)) <= size(m + p) / 16777216real,
    ensures
        size(v - (mean + b * half)) <= k * (1real + size(b)) / 1048576real + 8real * t * (1real
            + size(b)),
{
    let s = size(b);
    let (n, u) = (k * s, t * s);
    lemma_displacement(half, h, b, p, k, t, n, u);
    assert(k * (1real + s) == k + n && 8real * t * (1real + s) == 8real * t + 8real * u)
        by (nonlinear_arith)
        requires
            n == k * s,
            u == t * s,
    ;
    let c = b * half;
    assert(size(m) <= 2real * k + 4real * t);
    assert(size(p) <= 2real * n + 5real * u + t);
    assert(size(m + p) <= 2real * k + 2real * n + 5real * u + 5real * t);
    assert(size(v - (m + p)) <= 2real * (k / 16777216real) + 2real * (n / 16777216real) + u + t);
}

} // verus!
