//! The exact values of numbers, and how far an operation is from them.

use super::binary32::F32;
use super::binary64::F64;
use super::laws::lemma_finite_widens;
use super::num::{
    ceiled, converted, floored, fractional, lemma_format, lemma_units_increase, lemma_units_zero, magnitude, near, of_int,
    product, quotient, stepped, sum, value, whole, Format, Num,
};
use super::ratio::{floor_mag, lemma_bracket, lemma_floor_mag, lemma_next, step};
use super::root::{floor_root, lemma_some_floor_root, marked_root};
use super::round::units;
use vstd::arithmetic::div_mod::*;
use vstd::arithmetic::power2::*;
use vstd::prelude::*;

verus! {

/// The magnitude of an exact value.
pub open spec fn size(x: real) -> real {
    if x < 0real {
        -x
    } else {
        x
    }
}

/// How many units make one.
pub open spec fn units_in_one(f: Format) -> real {
    pow2(f.scale()) as int as real
}

/// The exact value of a finite number.
pub open spec fn exact(f: Format, a: Num) -> real {
    (value(f, a) as real) / units_in_one(f)
}

/// The part of a value by which rounding moves it at most.
pub open spec fn rounding(f: Format) -> real {
    1real / (pow2(f.p()) as int as real)
}

/// What rounding moves a value by at most where it is too small for all its digits.
pub open spec fn smallest(f: Format) -> real {
    1real / units_in_one(f)
}

/// Rounding moves a quotient by half a step at most.
proof fn lemma_near_error(f: Format, n: nat, d: nat)
    requires
        d > 0,
        near(f, n, d) < f.inf(),
    ensures
        ({
            let e = units(near(f, n, d) as nat, f.p()) * d - n;
            &&& -(n + d * pow2((f.p() - 1) as nat)) <= e * pow2(f.p()) <= n + d * pow2(
                (f.p() - 1) as nat,
            )
            &&& d == 1 ==> -n <= e * pow2(f.p()) <= n
        }),
{
    lemma_format(f);
    let p = f.p();
    let h = pow2((p - 1) as nat);
    let a = floor_mag(n, d, p);
    lemma_floor_mag(n, d, p);
    lemma_bracket(n, d, a, p);
    lemma_next(a, p);
    lemma_pow2_unfold(p);
    lemma_pow2_pos((p - 1) as nat);
    let c = step(a, p);
    let m = near(f, n, d) as nat;
    assert(m == a || m == a + 1);
    let (x, y) = (units(a, p), units(m, p));
    let e = y * d - n;
    assert((x + c) * d == x * d + c * d) by (nonlinear_arith);
    assert((x + (x + c)) * d == 2 * (x * d) + c * d) by (nonlinear_arith);
    assert(-(c * d) <= 2 * e <= c * d);
    lemma_fundamental_div_mod(a as int, h as int);
    if a / h == 0 {
        assert(c == 1);
        assert(1 * d == d);
        assert(-(d * h) <= e * (2 * h) <= d * h) by (nonlinear_arith)
            requires
                -d <= 2 * e <= d,
                h > 0,
        ;
        if d == 1 {
            assert(x * 1 == x && y * 1 == y);
            assert(n == x);
            assert(e == 0);
            assert(0 * pow2(p) == 0);
        }
    } else {
        let g = a % h;
        assert(x == (g + h) * c);
        assert((c * d) * h <= x * d) by (nonlinear_arith)
            requires
                x == (g + h) * c,
                g >= 0,
                c >= 0,
                d > 0,
                h > 0,
        {
            assert(x >= h * c);
            assert(x * d >= (h * c) * d);
            assert((h * c) * d == (c * d) * h);
        }
        assert(-n <= e * (2 * h) <= n) by (nonlinear_arith)
            requires
                -(c * d) <= 2 * e <= c * d,
                (c * d) * h <= n,
                h > 0,
        {
            assert((2 * e) * h <= (c * d) * h);
            assert((2 * e) * h >= -((c * d) * h));
            assert((2 * e) * h == e * (2 * h));
        }
    }
}

/// The product of two integers as an exact value.
pub proof fn lemma_real_product(a: int, b: int)
    ensures
        (a * b) as real == (a as real) * (b as real),
    decreases
            if b < 0 {
                -b
            } else {
                b
            },
{
    if b > 0 {
        lemma_real_product(a, b - 1);
        assert(a * b == a * (b - 1) + a) by (nonlinear_arith);
        let (x, y) = (a as real, (b - 1) as real);
        assert(x * (y + 1real) == x * y + x) by (nonlinear_arith);
    } else if b < 0 {
        lemma_real_product(a, b + 1);
        assert(a * b == a * (b + 1) - a) by (nonlinear_arith);
        let (x, y) = (a as real, (b + 1) as real);
        assert(x * (y - 1real) == x * y - x) by (nonlinear_arith);
    } else {
        assert(a * 0 == 0);
        let x = a as real;
        assert(x * 0real == 0real) by (nonlinear_arith);
    }
}

/// A rounded quotient as an exact value.
proof fn lemma_rounded(f: Format, n: nat, d: nat)
    requires
        d > 0,
        near(f, n, d) < f.inf(),
    ensures
        ({
            let q = (n as int as real) / ((d as int as real) * units_in_one(f));
            let r = (units(near(f, n, d) as nat, f.p()) as int as real) / units_in_one(f);
            &&& q >= 0real && r >= 0real
            &&& size(r - q) <= rounding(f) * q + smallest(f)
            &&& d == 1 ==> size(r - q) <= rounding(f) * q
        }),
{
    lemma_near_error(f, n, d);
    lemma_format(f);
    lemma_pow2_pos(f.scale());
    lemma_pow2_pos(f.p());
    lemma_pow2_unfold(f.p());
    let u = units(near(f, n, d) as nat, f.p());
    let (ur, nr, dr, s) = (
        u as int as real,
        n as int as real,
        d as int as real,
        units_in_one(f),
    );
    let w = pow2(f.p()) as int as real;
    let h = pow2((f.p() - 1) as nat) as int as real;
    let e = u * d - n;
    let er = ur * dr - nr;
    lemma_real_product(u as int, d as int);
    lemma_real_product(e, pow2(f.p()) as int);
    lemma_real_product(d as int, pow2((f.p() - 1) as nat) as int);
    assert((u * d) as real == ur * dr);
    assert(er == e as real);
    assert((e * pow2(f.p())) as real == er * w);
    assert((d * pow2((f.p() - 1) as nat)) as real == dr * h);
    assert(w == 2real * h);
    let q = nr / (dr * s);
    let r = ur / s;
    assert(r - q == er / (dr * s)) by (nonlinear_arith)
        requires
            q == nr / (dr * s),
            r == ur / s,
            er == ur * dr - nr,
            dr > 0real,
            s > 0real,
    ;
    assert(q >= 0real && r >= 0real) by (nonlinear_arith)
        requires
            q == nr / (dr * s),
            r == ur / s,
            nr >= 0real,
            ur >= 0real,
            dr > 0real,
            s > 0real,
    ;
    let t = er / (dr * s);
    let z = dr * s;
    assert(z > 0real) by (nonlinear_arith)
        requires
            dr > 0real,
            s > 0real,
            z == dr * s,
    ;
    assert(t * z == er && q * z == nr) by (nonlinear_arith)
        requires
            t == er / z,
            q == nr / z,
            z > 0real,
    ;
    let (g, k) = (rounding(f), smallest(f));
    assert(g * w == 1real && k * s == 1real && g > 0real && k > 0real) by (nonlinear_arith)
        requires
            g == 1real / w,
            k == 1real / s,
            w > 0real,
            s > 0real,
    ;
    assert(t <= g * q + k && -t <= g * q + k) by (nonlinear_arith)
        requires
            t * z == er,
            q * z == nr,
            g * w == 1real,
            k * s == 1real,
            er * w <= nr + dr * h,
            -(nr + dr * h) <= er * w,
            w == 2real * h,
            z == dr * s,
            z > 0real,
            dr > 0real,
            s > 0real,
            h > 0real,
            k > 0real,
    {
        // er = (er * w) * g, and dr * h * g = dr / 2
        assert(er == (er * w) * g);
        assert((dr * h) * g == dr / 2real);
        assert((er * w) * g <= (nr + dr * h) * g);
        assert((er * w) * g >= (-(nr + dr * h)) * g);
        assert(er <= nr * g + dr / 2real);
        assert(-er <= nr * g + dr / 2real);
        assert((g * q + k) * z == g * nr + dr);
    }
    if d == 1 {
        assert(t <= g * q && -t <= g * q) by (nonlinear_arith)
            requires
                t * z == er,
                q * z == nr,
                g * w == 1real,
                er * w <= nr,
                -nr <= er * w,
                z > 0real,
                w > 0real,
                g > 0real,
        {
            assert(er == (er * w) * g);
            assert(er <= nr * g);
            assert(-er <= nr * g);
        }
    }
}

/// The sum of two finite numbers is off by rounding at most.
proof fn lemma_sum_error(f: Format, a: Num, b: Num)
    requires
        a.mag < f.inf(),
        b.mag < f.inf(),
        sum(f, a, b).mag < f.inf(),
    ensures
        size(exact(f, sum(f, a, b)) - (exact(f, a) + exact(f, b))) <= rounding(f) * size(
            exact(f, a) + exact(f, b),
        ),
{
    let (x, y) = (value(f, a), value(f, b));
    let v = x + y;
    let s = units_in_one(f);
    lemma_pow2_pos(f.scale());
    lemma_pow2_pos(f.p());
    assert((x as real) / s + (y as real) / s == (v as real) / s) by (nonlinear_arith)
        requires
            v as real == x as real + y as real,
            s > 0real,
    ;
    assert(rounding(f) >= 0real) by (nonlinear_arith)
        requires
            rounding(f) == 1real / (pow2(f.p()) as int as real),
            pow2(f.p()) as int as real > 0real,
    ;
    if v == 0 {
        lemma_units_zero(f, 0);
        assert(0real / s == 0real) by (nonlinear_arith)
            requires
                s > 0real,
        ;
        let g = rounding(f);
        assert(g * 0real == 0real) by (nonlinear_arith);
    } else {
        let n = magnitude(v);
        lemma_rounded(f, n, 1);
        assert(1real * s == s);
        let q = (n as int as real) / s;
        let u = units(near(f, n, 1) as nat, f.p()) as int as real;
        assert(size((v as real) / s) == q && ((v < 0) ==> (v as real) / s == -q) && ((v > 0) ==> (
        v as real) / s == q)) by (nonlinear_arith)
            requires
                q == (n as int as real) / s,
                v < 0 ==> n as int as real == -(v as real),
                v > 0 ==> n as int as real == v as real,
                v != 0,
                s > 0real,
        ;
        assert(-(u / s) == (-u) / s) by (nonlinear_arith)
            requires
                s > 0real,
        ;
    }
}

/// The exact value of a number by its sign and its units.
proof fn lemma_exact_sign(f: Format, neg: bool, mag: u64)
    ensures
        ({
            let u = (units(mag as nat, f.p()) as int as real) / units_in_one(f);
            &&& u >= 0real
            &&& exact(f, Num { neg, mag }) == if neg {
                -u
            } else {
                u
            }
        }),
        units_in_one(f) > 0real,
        rounding(f) > 0real,
        smallest(f) > 0real,
{
    lemma_pow2_pos(f.scale());
    lemma_pow2_pos(f.p());
    let s = units_in_one(f);
    let w = pow2(f.p()) as int as real;
    let u = units(mag as nat, f.p()) as int as real;
    assert(u / s >= 0real && (-u) / s == -(u / s) && 1real / w > 0real && 1real / s > 0real)
        by (nonlinear_arith)
        requires
            u >= 0real,
            s > 0real,
            w > 0real,
    ;
}

/// The product of two finite numbers is off by rounding at most.
proof fn lemma_product_error(f: Format, a: Num, b: Num)
    requires
        a.mag < f.inf(),
        b.mag < f.inf(),
        product(f, a, b).mag < f.inf(),
    ensures
        size(exact(f, product(f, a, b)) - exact(f, a) * exact(f, b)) <= rounding(f) * size(
            exact(f, a) * exact(f, b),
        ) + smallest(f),
{
    let (x, y) = (units(a.mag as nat, f.p()), units(b.mag as nat, f.p()));
    let (n, d) = (x * y, pow2(f.scale()));
    lemma_pow2_pos(f.scale());
    lemma_rounded(f, n, d);
    lemma_exact_sign(f, a.neg, a.mag);
    lemma_exact_sign(f, b.neg, b.mag);
    lemma_exact_sign(f, a.neg != b.neg, near(f, n, d));
    lemma_real_product(x as int, y as int);
    let s = units_in_one(f);
    let (xr, yr) = (x as int as real, y as int as real);
    let (u, v) = (xr / s, yr / s);
    let q = (xr * yr) / (s * s);
    assert(q == u * v) by (nonlinear_arith)
        requires
            q == (xr * yr) / (s * s),
            u == xr / s,
            v == yr / s,
            s > 0real,
    ;
    assert((-u) * v == -(u * v) && u * (-v) == -(u * v) && (-u) * (-v) == u * v)
        by (nonlinear_arith);
}

/// The quotient of two finite numbers is off by rounding at most.
proof fn lemma_quotient_error(f: Format, a: Num, b: Num)
    requires
        a.mag < f.inf(),
        0 < b.mag < f.inf(),
        quotient(f, a, b).mag < f.inf(),
    ensures
        exact(f, b) != 0real,
        size(exact(f, quotient(f, a, b)) - exact(f, a) / exact(f, b)) <= rounding(f) * size(
            exact(f, a) / exact(f, b),
        ) + smallest(f),
{
    let (x, y) = (units(a.mag as nat, f.p()), units(b.mag as nat, f.p()));
    let (n, d) = (x * pow2(f.scale()), y);
    lemma_pow2_pos(f.scale());
    lemma_units_zero(f, b.mag as nat);
    lemma_rounded(f, n, d);
    lemma_exact_sign(f, a.neg, a.mag);
    lemma_exact_sign(f, b.neg, b.mag);
    lemma_exact_sign(f, a.neg != b.neg, near(f, n, d));
    lemma_real_product(x as int, pow2(f.scale()) as int);
    let s = units_in_one(f);
    let (xr, yr) = (x as int as real, y as int as real);
    let (u, v) = (xr / s, yr / s);
    let q = (xr * s) / (yr * s);
    assert(v > 0real) by (nonlinear_arith)
        requires
            v == yr / s,
            yr > 0real,
            s > 0real,
    ;
    assert(q == u / v) by (nonlinear_arith)
        requires
            q == (xr * s) / (yr * s),
            u == xr / s,
            v == yr / s,
            yr > 0real,
            v > 0real,
            s > 0real,
    ;
    assert((-u) / v == -(u / v) && u / (-v) == -(u / v) && (-u) / (-v) == u / v)
        by (nonlinear_arith)
        requires
            v > 0real,
    ;
}

/// Conversion to another format is off by rounding at most.
proof fn lemma_conversion_error(from: Format, to: Format, a: Num)
    requires
        a.mag < from.inf(),
        converted(from, to, a).mag < to.inf(),
    ensures
        size(exact(to, converted(from, to, a)) - exact(from, a)) <= rounding(to) * size(
            exact(from, a),
        ) + smallest(to),
{
    let x = units(a.mag as nat, from.p());
    let (n, d) = (x * pow2(to.scale()), pow2(from.scale()));
    lemma_pow2_pos(from.scale());
    lemma_pow2_pos(to.scale());
    lemma_rounded(to, n, d);
    lemma_exact_sign(from, a.neg, a.mag);
    lemma_exact_sign(to, a.neg, near(to, n, d));
    lemma_real_product(x as int, pow2(to.scale()) as int);
    let (s, t) = (units_in_one(to), units_in_one(from));
    let xr = x as int as real;
    assert((xr * s) / (t * s) == xr / t) by (nonlinear_arith)
        requires
            s > 0real,
            t > 0real,
    ;
}

impl F32 {
    /// The exact value of a finite number.
    pub open spec fn exact(self) -> real {
        exact(Format::Binary32, self.num())
    }
}

impl F64 {
    /// The exact value of a finite number.
    pub open spec fn exact(self) -> real {
        exact(Format::Binary64, self.num())
    }
}

/// What rounding to binary32 moves a value by at most.
pub open spec fn slack(x: real) -> real {
    rounding(Format::Binary32) * size(x) + smallest(Format::Binary32)
}

/// What rounding to binary64 moves a value by at most.
pub open spec fn fine_slack(x: real) -> real {
    rounding(Format::Binary64) * size(x) + smallest(Format::Binary64)
}

/// The rounding of binary32 is a part in `2^24`.
pub proof fn lemma_single_rounding()
    ensures
        rounding(Format::Binary32) == 1real / 16777216real,
        smallest(Format::Binary32) > 0real,
        smallest(Format::Binary32) * 16777216real <= 1real,
{
    lemma_format(Format::Binary32);
    lemma_exact_sign(Format::Binary32, false, 0);
    lemma2_to64();
    lemma_pow2_strictly_increases(24, 149);
    let s = units_in_one(Format::Binary32);
    assert((1real / s) * 16777216real <= 1real) by (nonlinear_arith)
        requires
            s >= 16777216real,
    ;
}

/// A sum in single is the exact one within rounding.
proof fn lemma_single_sum(a: F32, b: F32)
    requires
        a.is_finite(),
        b.is_finite(),
        a.plus(b).is_finite(),
    ensures
        size(a.plus(b).exact() - (a.exact() + b.exact())) <= rounding(Format::Binary32) * size(
            a.exact() + b.exact(),
        ),
{
    reveal(F32::spec_plus);
    lemma_near_bounded();
    let f = Format::Binary32;
    assert(a.plus(b).num() == sum(f, a.num(), b.num()));
    lemma_sum_error(f, a.num(), b.num());
}

/// A product in single is the exact one within rounding.
proof fn lemma_single_product(a: F32, b: F32)
    requires
        a.is_finite(),
        b.is_finite(),
        a.times(b).is_finite(),
    ensures
        size(a.times(b).exact() - a.exact() * b.exact()) <= slack(a.exact() * b.exact()),
{
    reveal(F32::spec_times);
    lemma_near_bounded();
    let f = Format::Binary32;
    assert(a.times(b).num() == product(f, a.num(), b.num()));
    lemma_product_error(f, a.num(), b.num());
}

/// A quotient in single is the exact one within rounding.
proof fn lemma_single_quotient(a: F32, b: F32)
    requires
        a.is_finite(),
        b.is_finite(),
        a.over(b).is_finite(),
    ensures
        b.exact() != 0real,
        size(a.over(b).exact() - a.exact() / b.exact()) <= slack(a.exact() / b.exact()),
{
    reveal(F32::spec_over);
    lemma_near_bounded();
    let f = Format::Binary32;
    assert(a.over(b).num() == quotient(f, a.num(), b.num()));
    lemma_quotient_error(f, a.num(), b.num());
}

/// The operations of binary32 give the exact results of their operands within rounding.
pub proof fn law_single_arithmetic(a: F32, b: F32)
    requires
        a.is_finite(),
        b.is_finite(),
    ensures
        a.plus(b).is_finite() ==> size(a.plus(b).exact() - (a.exact() + b.exact())) <= rounding(
            Format::Binary32,
        ) * size(a.exact() + b.exact()),
        a.minus(b).is_finite() ==> size(a.minus(b).exact() - (a.exact() - b.exact())) <= rounding(
            Format::Binary32,
        ) * size(a.exact() - b.exact()),
        a.times(b).is_finite() ==> size(a.times(b).exact() - a.exact() * b.exact()) <= slack(
            a.exact() * b.exact(),
        ),
        a.over(b).is_finite() ==> b.exact() != 0real && size(
            a.over(b).exact() - a.exact() / b.exact(),
        ) <= slack(a.exact() / b.exact()),
{
    law_single_order(b, b);
    if a.plus(b).is_finite() {
        lemma_single_sum(a, b);
    }
    if a.minus(b).is_finite() {
        lemma_single_sum(a, b.opposite());
    }
    if a.times(b).is_finite() {
        lemma_single_product(a, b);
    }
    if a.over(b).is_finite() {
        lemma_single_quotient(a, b);
    }
}

/// A rounded magnitude is at most that of infinity.
proof fn lemma_near_bounded()
    ensures
        forall|f: Format, n: nat, d: nat| #[trigger] near(f, n, d) <= f.inf(),
{
    lemma_format(Format::Binary32);
    lemma_format(Format::Binary64);
}

/// A sum in double is the exact one within rounding.
proof fn lemma_double_sum(a: F64, b: F64)
    requires
        a.is_finite(),
        b.is_finite(),
        a.plus(b).is_finite(),
    ensures
        size(a.plus(b).exact() - (a.exact() + b.exact())) <= rounding(Format::Binary64) * size(
            a.exact() + b.exact(),
        ),
{
    reveal(F64::spec_plus);
    lemma_near_bounded();
    let f = Format::Binary64;
    assert(a.plus(b).num() == sum(f, a.num(), b.num()));
    lemma_sum_error(f, a.num(), b.num());
}

/// A product in double is the exact one within rounding.
proof fn lemma_double_product(a: F64, b: F64)
    requires
        a.is_finite(),
        b.is_finite(),
        a.times(b).is_finite(),
    ensures
        size(a.times(b).exact() - a.exact() * b.exact()) <= fine_slack(a.exact() * b.exact()),
{
    reveal(F64::spec_times);
    lemma_near_bounded();
    let f = Format::Binary64;
    assert(a.times(b).num() == product(f, a.num(), b.num()));
    lemma_product_error(f, a.num(), b.num());
}

/// A quotient in double is the exact one within rounding.
proof fn lemma_double_quotient(a: F64, b: F64)
    requires
        a.is_finite(),
        b.is_finite(),
        a.over(b).is_finite(),
    ensures
        b.exact() != 0real,
        size(a.over(b).exact() - a.exact() / b.exact()) <= fine_slack(a.exact() / b.exact()),
{
    reveal(F64::spec_over);
    lemma_near_bounded();
    let f = Format::Binary64;
    assert(a.over(b).num() == quotient(f, a.num(), b.num()));
    lemma_quotient_error(f, a.num(), b.num());
}

/// The operations of binary64 give the exact results of their operands within rounding.
pub proof fn law_double_arithmetic(a: F64, b: F64)
    requires
        a.is_finite(),
        b.is_finite(),
    ensures
        a.plus(b).is_finite() ==> size(a.plus(b).exact() - (a.exact() + b.exact())) <= rounding(
            Format::Binary64,
        ) * size(a.exact() + b.exact()),
        a.minus(b).is_finite() ==> size(a.minus(b).exact() - (a.exact() - b.exact())) <= rounding(
            Format::Binary64,
        ) * size(a.exact() - b.exact()),
        a.times(b).is_finite() ==> size(a.times(b).exact() - a.exact() * b.exact()) <= fine_slack(
            a.exact() * b.exact(),
        ),
        a.over(b).is_finite() ==> b.exact() != 0real && size(
            a.over(b).exact() - a.exact() / b.exact(),
        ) <= fine_slack(a.exact() / b.exact()),
{
    law_double_order(b, b);
    if a.plus(b).is_finite() {
        lemma_double_sum(a, b);
    }
    if a.minus(b).is_finite() {
        lemma_double_sum(a, b.opposite());
    }
    if a.times(b).is_finite() {
        lemma_double_product(a, b);
    }
    if a.over(b).is_finite() {
        lemma_double_quotient(a, b);
    }
}

/// Numbers are compared by their exact values.
proof fn lemma_compared(f: Format, a: Num, b: Num)
    ensures
        (value(f, a) < value(f, b)) == (exact(f, a) < exact(f, b)),
        (value(f, a) == value(f, b)) == (exact(f, a) == exact(f, b)),
{
    lemma_exact_sign(f, false, 0);
    let (x, y, s) = (value(f, a) as real, value(f, b) as real, units_in_one(f));
    assert((x < y) == (x / s < y / s) && (x == y) == (x / s == y / s)) by (nonlinear_arith)
        requires
            s > 0real,
    ;
}

/// Numbers of binary32 are ordered, and their signs, greater and lesser ones are taken, by their
/// exact values.
pub proof fn law_single_order(a: F32, b: F32)
    requires
        a.is_finite(),
        b.is_finite(),
    ensures
        a.less(b) == (a.exact() < b.exact()),
        a.equals(b) == (a.exact() == b.exact()),
        a.at_most(b) == (a.exact() <= b.exact()),
        a.abs().is_finite() && a.abs().exact() == size(a.exact()),
        a.opposite().is_finite() && a.opposite().exact() == -a.exact(),
        a.max(b).is_finite() && a.max(b).exact() == if a.exact() < b.exact() {
            b.exact()
        } else {
            a.exact()
        },
        a.min(b).is_finite() && a.min(b).exact() == if b.exact() < a.exact() {
            b.exact()
        } else {
            a.exact()
        },
{
    let f = Format::Binary32;
    let (x, y) = (a.num(), b.num());
    super::laws::law_order_is_by_value(a, b);
    lemma_compared(f, x, y);
    lemma_exact_sign(f, x.neg, x.mag);
    lemma_exact_sign(f, !x.neg, x.mag);
    lemma_exact_sign(f, false, x.mag);
    assert(a.abs().num() == (Num { neg: false, mag: x.mag }));
    assert(a.opposite().num() == (Num { neg: !x.neg, mag: x.mag }));
}

/// Numbers of binary64 are ordered, and their signs, greater and lesser ones are taken, by their
/// exact values.
pub proof fn law_double_order(a: F64, b: F64)
    requires
        a.is_finite(),
        b.is_finite(),
    ensures
        a.less(b) == (a.exact() < b.exact()),
        a.equals(b) == (a.exact() == b.exact()),
        a.at_most(b) == (a.exact() <= b.exact()),
        a.abs().is_finite() && a.abs().exact() == size(a.exact()),
        a.opposite().is_finite() && a.opposite().exact() == -a.exact(),
        a.max(b).is_finite() && a.max(b).exact() == if a.exact() < b.exact() {
            b.exact()
        } else {
            a.exact()
        },
        a.min(b).is_finite() && a.min(b).exact() == if b.exact() < a.exact() {
            b.exact()
        } else {
            a.exact()
        },
{
    let f = Format::Binary64;
    let (x, y) = (a.num(), b.num());
    lemma_units_zero(f, x.mag as nat);
    lemma_units_zero(f, y.mag as nat);
    if x.mag < y.mag {
        lemma_units_increase(f, x.mag as nat, y.mag as nat);
    } else if y.mag < x.mag {
        lemma_units_increase(f, y.mag as nat, x.mag as nat);
    }
    lemma_compared(f, x, y);
    lemma_exact_sign(f, x.neg, x.mag);
    lemma_exact_sign(f, !x.neg, x.mag);
    lemma_exact_sign(f, false, x.mag);
    assert(a.abs().num() == (Num { neg: false, mag: x.mag }));
    assert(a.opposite().num() == (Num { neg: !x.neg, mag: x.mag }));
}

/// Going to the other format and taking an integer as a number give the exact value within
/// rounding.
pub proof fn law_conversions(a: F32, b: F64)
    ensures
        a.is_finite() ==> a.widen().is_finite() && size(a.widen().exact() - a.exact()) <= fine_slack(
            a.exact(),
        ),
        b.is_finite() && b.narrow().is_finite() ==> size(b.narrow().exact() - b.exact()) <= slack(
            b.exact(),
        ),
{
    reveal(F32::spec_widen);
    reveal(F64::spec_narrow);
    lemma_near_bounded();
    if a.is_finite() {
        lemma_finite_widens(a);
        assert(a.widen().num() == converted(Format::Binary32, Format::Binary64, a.num()));
        lemma_conversion_error(Format::Binary32, Format::Binary64, a.num());
    }
    if b.is_finite() && b.narrow().is_finite() {
        assert(b.narrow().num() == converted(Format::Binary64, Format::Binary32, b.num()));
        lemma_conversion_error(Format::Binary64, Format::Binary32, b.num());
    }
}

/// The units of the magnitude with an exponent field and no fraction.
proof fn lemma_power_units(f: Format, e: nat)
    requires
        e >= 1,
    ensures
        units(e * pow2((f.p() - 1) as nat), f.p()) == pow2((f.p() - 1 + e - 1) as nat),
{
    let h = pow2((f.p() - 1) as nat);
    lemma_pow2_pos((f.p() - 1) as nat);
    let b = e * h;
    lemma_fundamental_div_mod_converse(b as int, h as int, e as int, 0);
    lemma_pow2_adds((f.p() - 1) as nat, (e - 1) as nat);
}

/// An integer of no more than 64 bits is a finite number of both formats, within rounding.
proof fn lemma_nearest(f: Format, v: int)
    requires
        -0x1_0000_0000_0000_0000 <= v <= 0x1_0000_0000_0000_0000,
    ensures
        of_int(f, v).mag < f.inf(),
        size(exact(f, of_int(f, v)) - v as real) <= rounding(f) * size(v as real),
{
    lemma_format(f);
    lemma_near_bounded();
    lemma2_to64();
    let s = pow2(f.scale());
    lemma_pow2_pos(f.scale());
    let m = magnitude(v);
    let n = m * s;
    let e: nat = match f {
        Format::Binary32 => 192,
        Format::Binary64 => 1088,
    };
    let b = e * pow2((f.p() - 1) as nat);
    lemma_power_units(f, e);
    lemma_pow2_adds(65, f.scale());
    lemma_pow2_unfold(65);
    assert((f.p() - 1 + e - 1) as nat == 65 + f.scale());
    assert(n < pow2(65) * s) by (nonlinear_arith)
        requires
            n == m * s,
            m < pow2(65),
            s > 0,
    ;
    assert(b < f.inf());
    super::ratio::lemma_round_below(f, n, 1, b);
    lemma_rounded(f, n, 1);
    lemma_exact_sign(f, v < 0, near(f, n, 1));
    lemma_real_product(m as int, s as int);
    let (mr, sr) = (m as int as real, units_in_one(f));
    assert((mr * sr) / (1real * sr) == mr) by (nonlinear_arith)
        requires
            sr > 0real,
    ;
}

/// An integer of no more than 64 bits as a number is the integer within rounding.
pub proof fn law_integers(v: int)
    requires
        -0x1_0000_0000_0000_0000 <= v <= 0x1_0000_0000_0000_0000,
    ensures
        F32::nearest(v).is_finite(),
        size(F32::nearest(v).exact() - v as real) <= rounding(Format::Binary32) * size(v as real),
        F64::nearest(v).is_finite(),
        size(F64::nearest(v).exact() - v as real) <= rounding(Format::Binary64) * size(v as real),
{
    reveal(F32::nearest);
    reveal(F64::nearest);
    lemma_nearest(Format::Binary32, v);
    lemma_nearest(Format::Binary64, v);
    assert(F32::nearest(v).num() == of_int(Format::Binary32, v));
    assert(F64::nearest(v).num() == of_int(Format::Binary64, v));
}

/// A whole number that a finite number rounds to is no farther than a half, and a half goes away
/// from zero.
pub proof fn law_rounded(x: F32)
    requires
        x.is_finite(),
    ensures
        size(x.exact() - x.rounded() as real) <= 1real / 2real,
        x.exact() - x.rounded() as real == 1real / 2real ==> x.exact() < 0real,
        x.rounded() as real - x.exact() == 1real / 2real ==> x.exact() > 0real,
{
    let f = Format::Binary32;
    let n = x.num();
    lemma_exact_sign(f, n.neg, n.mag);
    lemma_pow2_pos(f.scale());
    let (u, s) = (units(n.mag as nat, f.p()), pow2(f.scale()));
    let w = ((2 * u + s) / (2 * s)) as int;
    lemma_fundamental_div_mod((2 * u + s) as int, (2 * s) as int);
    let t = ((2 * u + s) % (2 * s)) as int;
    assert(2 * u + s == (2 * s) * w + t);
    lemma_real_product(s as int, w);
    let (ur, sr, wr) = (u as int as real, s as int as real, w as real);
    assert((2 * s) * w == 2 * (s * w)) by (nonlinear_arith);
    assert((s * w) as real == sr * wr);
    assert(2real * ur + sr == 2real * (sr * wr) + t as real);
    let q = ur / sr;
    assert(q - wr <= 1real / 2real && wr - q <= 1real / 2real && q - wr < 1real / 2real)
        by (nonlinear_arith)
        requires
            q == ur / sr,
            2real * ur + sr == 2real * (sr * wr) + t as real,
            0real <= t as real,
            (t as real) < 2real * sr,
            sr > 0real,
    {
        assert(q * sr == ur);
    }
    if wr - q == 1real / 2real {
        assert(q > 0real) by {
            if w <= 0 {
                assert(wr <= 0real);
            }
        }
    }
}

/// A significand of the format's precision times a power of two is a number of the format.
proof fn lemma_representable(f: Format, m: nat, j: nat)
    requires
        m < pow2(f.p()),
    ensures
        near(f, m * pow2(j), 1) < f.inf() ==> units(near(f, m * pow2(j), 1) as nat, f.p()) == m
            * pow2(j),
{
    lemma_format(f);
    let p = f.p();
    let n = m * pow2(j);
    let a = floor_mag(n, 1, p);
    lemma_floor_mag(n, 1, p);
    lemma_bracket(n, 1, a, p);
    lemma_next(a, p);
    let h = pow2((p - 1) as nat);
    lemma_pow2_pos((p - 1) as nat);
    lemma_pow2_pos(j);
    lemma_pow2_unfold(p);
    lemma2_to64();
    let (x, c) = (units(a, p), step(a, p));
    lemma_fundamental_div_mod(a as int, h as int);
    assert(n == x) by {
        let e = a / h;
        let g = a % h;
        if e <= 1 {
            assert(c == 1);
        } else {
            let i = (e - 1) as nat;
            assert(c == pow2(i) && x == (g + h) * c);
            lemma_pow2_pos(i);
            if i <= j {
                let t = pow2((j - i) as nat);
                lemma_pow2_adds(i, (j - i) as nat);
                let y = m * t;
                assert(n == y * c) by (nonlinear_arith)
                    requires
                        n == m * (c * t),
                        y == m * t,
                ;
                let z = g + h;
                assert(y == z) by (nonlinear_arith)
                    requires
                        z * c <= y * c,
                        y * c < z * c + c,
                        c > 0,
                ;
            } else {
                lemma_pow2_unfold(i);
                if j < i - 1 {
                    lemma_pow2_strictly_increases(j, (i - 1) as nat);
                }
                let v = pow2(j);
                assert(2 * v <= c);
                assert(x >= (2 * h) * v) by (nonlinear_arith)
                    requires
                        x == (g + h) * c,
                        g >= 0,
                        2 * v <= c,
                        h >= 0,
                ;
                assert(n < (2 * h) * v) by (nonlinear_arith)
                    requires
                        n == m * v,
                        m < 2 * h,
                        v > 0,
                ;
            }
        }
    }
}

/// Widening keeps the exact value.
pub proof fn law_widening_is_exact(a: F32)
    requires
        a.is_finite(),
    ensures
        a.widen().is_finite(),
        a.widen().exact() == a.exact(),
{
    reveal(F32::spec_widen);
    lemma_finite_widens(a);
    lemma_near_bounded();
    let (f, g) = (Format::Binary32, Format::Binary64);
    lemma_format(f);
    lemma_format(g);
    lemma2_to64();
    let mag = a.num().mag;
    let u = units(mag as nat, f.p());
    let h = pow2(23);
    lemma_fundamental_div_mod(mag as int, h as int);
    let e = mag as nat / h;
    let (m, k) = if e == 0 {
        (mag as nat % h, 0nat)
    } else {
        (mag as nat % h + h, (e - 1) as nat)
    };
    assert(u == m * pow2(k)) by {
        assert(m * 1 == m);
    }
    lemma_pow2_strictly_increases(24, 53);
    let (s, t) = (pow2(149), pow2(925));
    lemma_pow2_adds(925, 149);
    lemma_pow2_adds(k, 925);
    lemma_pow2_pos(149);
    assert(u * (t * s) == (u * t) * s) by (nonlinear_arith);
    crate::numeral::lemma_near_scale(g, u * t, 1, s);
    assert(1 * s == s);
    let j = k + 925;
    assert(u * t == m * pow2(j)) by (nonlinear_arith)
        requires
            u == m * pow2(k),
            pow2(j) == pow2(k) * t,
    ;
    let w = near(g, u * pow2(1074), s);
    assert(a.widen().num() == (Num { neg: a.num().neg, mag: w }));
    lemma_representable(g, m, j);
    lemma_exact_sign(f, a.num().neg, mag);
    lemma_exact_sign(g, a.num().neg, w);
    lemma_real_product(u as int, t as int);
    lemma_real_product(t as int, s as int);
    let (ur, tr, sr) = (u as int as real, t as int as real, s as int as real);
    lemma_pow2_pos(925);
    assert((ur * tr) / (tr * sr) == ur / sr) by (nonlinear_arith)
        requires
            tr > 0real,
            sr > 0real,
    ;
}

/// Whether an exact value is a whole number.
pub open spec fn is_whole(x: real, m: int) -> bool {
    x == m as real
}

/// A whole magnitude next to a finite one is a number.
proof fn lemma_whole(f: Format, mag: u64, raise: bool)
    requires
        mag < f.inf(),
    ensures
        near(f, stepped(f, mag, raise) * pow2(f.scale()), 1) < f.inf(),
        units(near(f, stepped(f, mag, raise) * pow2(f.scale()), 1) as nat, f.p()) == stepped(
            f,
            mag,
            raise,
        ) * pow2(f.scale()),
{
    lemma_format(f);
    lemma_near_bounded();
    lemma2_to64();
    let p = f.p();
    let (u, s) = (units(mag as nat, p), pow2(f.scale()));
    let h = pow2((p - 1) as nat);
    lemma_pow2_pos(f.scale());
    lemma_pow2_pos((p - 1) as nat);
    lemma_pow2_unfold(p);
    lemma_fundamental_div_mod(u as int, s as int);
    lemma_fundamental_div_mod(mag as int, h as int);
    let (q, r) = (u / s, u % s);
    let w = stepped(f, mag, raise);
    if r == 0 {
        assert(w * s == u) by (nonlinear_arith)
            requires
                u == s * q + r,
                r == 0,
                w == q,
        ;
        super::num::lemma_near_exact(f, mag);
    } else {
        let e = mag as nat / h;
        let g = mag as nat % h;
        // The step is below one, so the whole part has no more digits than the format.
        assert(u < pow2(p) * s) by {
            if e > 1 {
                let i = (e - 1) as nat;
                let c = pow2(i);
                assert(u == (g + h) * c);
                if i >= f.scale() {
                    lemma_pow2_adds(f.scale(), (i - f.scale()) as nat);
                    let t = pow2((i - f.scale()) as nat);
                    let z = (g + h) * t;
                    assert(u == z * s) by (nonlinear_arith)
                        requires
                            u == (g + h) * (s * t),
                            z == (g + h) * t,
                    ;
                    lemma_fundamental_div_mod_converse(u as int, s as int, z as int, 0);
                } else {
                    lemma_pow2_strictly_increases(i, f.scale());
                    assert(u < (2 * h) * s) by (nonlinear_arith)
                        requires
                            u == (g + h) * c,
                            g < h,
                            c < s,
                            c >= 0,
                    ;
                }
            } else {
                lemma_pow2_strictly_increases(p, f.scale());
                assert(u < 2 * h) by {
                    if e == 1 {
                        assert(u == (g + h) * pow2(0));
                        assert((g + h) * 1 == g + h);
                    }
                }
                assert(u < (2 * h) * s) by (nonlinear_arith)
                    requires
                        u < 2 * h,
                        s >= 1,
                ;
            }
        }
        assert(q < pow2(p)) by (nonlinear_arith)
            requires
                u == s * q + r,
                r >= 0,
                u < pow2(p) * s,
                s > 0,
        ;
        assert(w <= pow2(p));
        let b: nat = match f {
            Format::Binary32 => 192,
            Format::Binary64 => 1088,
        };
        lemma_power_units(f, b);
        lemma_pow2_adds(65, f.scale());
        assert((p - 1 + b - 1) as nat == 65 + f.scale());
        lemma_pow2_strictly_increases(p, 65);
        assert(w * s < pow2(65) * s) by (nonlinear_arith)
            requires
                w < pow2(65),
                s > 0,
        ;
        super::ratio::lemma_round_below(f, w * s, 1, b * h);
        assert(b * h < f.inf());
        if w < pow2(p) {
            lemma_representable(f, w, f.scale());
        } else {
            lemma_representable(f, h, f.scale() + 1);
            lemma_pow2_unfold(f.scale() + 1);
            assert(h * (2 * s) == (2 * h) * s) by (nonlinear_arith);
        }
    }
}

/// The whole numbers below and above a finite number.
pub proof fn law_floor_and_ceiling(x: F32)
    requires
        x.is_finite(),
    ensures
        x.floor().is_finite(),
        x.ceil().is_finite(),
        exists|m: int| #[trigger]
            is_whole(x.floor().exact(), m) && m as real <= x.exact() && x.exact() < m as real
                + 1real,
        exists|m: int| #[trigger]
            is_whole(x.ceil().exact(), m) && m as real >= x.exact() && x.exact() > m as real - 1real,
{
    reveal(F32::spec_floor);
    reveal(F32::spec_ceil);
    let f = Format::Binary32;
    let n = x.num();
    lemma_near_bounded();
    lemma_whole(f, n.mag, n.neg);
    lemma_whole(f, n.mag, !n.neg);
    lemma_exact_sign(f, n.neg, n.mag);
    let (u, s) = (units(n.mag as nat, f.p()), pow2(f.scale()));
    lemma_pow2_pos(f.scale());
    lemma_fundamental_div_mod(u as int, s as int);
    let (q, r) = ((u / s) as int, (u % s) as int);
    lemma_real_product(s as int, q);
    let (ur, sr, qr, rr) = (u as int as real, s as int as real, q as real, r as real);
    assert(ur == sr * qr + rr);
    let y = ur / sr;
    assert(qr <= y && y < qr + 1real && (rr == 0real ==> y == qr) && (rr > 0real ==> qr < y))
        by (nonlinear_arith)
        requires
            y == ur / sr,
            ur == sr * qr + rr,
            0real <= rr < sr,
            sr > 0real,
    {
        assert(y * sr == ur);
    }
    lemma_stepped_exact(f, n, n.neg, q, r);
    lemma_stepped_exact(f, n, !n.neg, q, r);
    let down = if n.neg {
        -(stepped(f, n.mag, n.neg) as int)
    } else {
        stepped(f, n.mag, n.neg) as int
    };
    let up = if n.neg {
        -(stepped(f, n.mag, !n.neg) as int)
    } else {
        stepped(f, n.mag, !n.neg) as int
    };
    assert(x.floor().num() == floored(f, n));
    assert(x.ceil().num() == ceiled(f, n));
    assert(is_whole(x.floor().exact(), down));
    assert(is_whole(x.ceil().exact(), up));
}

/// A whole magnitude as an exact value.
proof fn lemma_stepped_exact(f: Format, n: Num, raise: bool, q: int, r: int)
    requires
        n.mag < f.inf(),
        q == (units(n.mag as nat, f.p()) / pow2(f.scale())) as int,
        r == (units(n.mag as nat, f.p()) % pow2(f.scale())) as int,
    ensures
        ({
            let w = stepped(f, n.mag, raise) as int;
            let m = Num { neg: n.neg, mag: near(f, (w as nat) * pow2(f.scale()), 1) };
            &&& w == q + if raise && r != 0 {
                1int
            } else {
                0
            }
            &&& exact(f, m) == if n.neg {
                -(w as real)
            } else {
                w as real
            }
        }),
{
    lemma_whole(f, n.mag, raise);
    let w = stepped(f, n.mag, raise) as int;
    let mag = near(f, (w as nat) * pow2(f.scale()), 1);
    lemma_exact_sign(f, n.neg, mag);
    lemma_real_product(w, pow2(f.scale()) as int);
    lemma_pow2_pos(f.scale());
    let (wr, sr) = (w as real, units_in_one(f));
    assert((wr * sr) / sr == wr) by (nonlinear_arith)
        requires
            sr > 0real,
    ;
}

/// The remainder of a division is below the divisor, has the sign of the dividend, and is apart
/// from the dividend by a multiple of the divisor, within rounding.
pub proof fn law_remainder_of_numbers(x: F32, y: F32)
    requires
        x.is_finite(),
        y.is_finite(),
        y.exact() != 0real,
    ensures
        x.modulo(y).is_finite(),
        size(x.modulo(y).exact()) <= size(y.exact()),
        x.modulo(y).exact() == 0real || (x.modulo(y).exact() < 0real) == (x.exact() < 0real),
        exists|q: int| #[trigger]
            leaves(x.exact(), y.exact(), x.modulo(y).exact(), q),
{
    reveal(F32::spec_modulo);
    let f = Format::Binary32;
    let (a, b) = (x.num(), y.num());
    lemma_near_bounded();
    lemma_exact_sign(f, a.neg, a.mag);
    lemma_exact_sign(f, b.neg, b.mag);
    lemma_units_zero(f, b.mag as nat);
    let (u, v) = (units(a.mag as nat, f.p()), units(b.mag as nat, f.p()));
    assert(v > 0) by {
        if v == 0 {
            let s = units_in_one(f);
            assert(0real / s == 0real) by (nonlinear_arith)
                requires
                    s > 0real,
            ;
        }
    }
    lemma_fundamental_div_mod(u as int, v as int);
    let (q, r) = ((u / v) as int, (u % v) as int);
    super::num::lemma_near_exact(f, b.mag);
    super::ratio::lemma_round_monotone(f, r as nat, v, 1);
    let m = near(f, r as nat, 1);
    assert(m <= b.mag);
    if m < b.mag {
        lemma_units_increase(f, m as nat, b.mag as nat);
    }
    assert(x.modulo(y).num() == (Num { neg: a.neg, mag: m }));
    lemma_exact_sign(f, a.neg, m);
    lemma_rounded(f, r as nat, 1);
    let s = units_in_one(f);
    let w = units(m as nat, f.p());
    let (ur, vr, qr, rr, wr) = (
        u as int as real,
        v as int as real,
        q as real,
        r as real,
        w as int as real,
    );
    lemma_real_product(v as int, q);
    assert(ur == vr * qr + rr);
    assert(wr / s <= vr / s) by (nonlinear_arith)
        requires
            wr <= vr,
            s > 0real,
    ;
    assert(ur / s == qr * (vr / s) + rr / s) by (nonlinear_arith)
        requires
            ur == vr * qr + rr,
            s > 0real,
    ;
    assert(1real * s == s);
    let (xe, ye, z) = (ur / s, vr / s, rr / s);
    assert(z >= 0real && z <= xe) by (nonlinear_arith)
        requires
            z == rr / s,
            xe == ur / s,
            0real <= rr <= ur,
            s > 0real,
    {
    }
    assert(rr <= ur) by {
        assert(vr * qr >= 0real) by (nonlinear_arith)
            requires
                vr >= 0real,
                qr >= 0real,
        ;
    }
    assert(z < ye && (ur > 0real ==> xe > 0real) && (wr > 0real ==> wr / s > 0real) && (wr == 0real
        ==> wr / s == 0real)) by (nonlinear_arith)
        requires
            z == rr / s,
            ye == vr / s,
            xe == ur / s,
            rr < vr,
            s > 0real,
    ;
    super::num::lemma_near_exact(f, 0);
    lemma_units_zero(f, 0);
    lemma_units_zero(f, m as nat);
    assert((-qr) * ye == -(qr * ye) && (-qr) * (-ye) == qr * ye && qr * (-ye) == -(qr * ye))
        by (nonlinear_arith);
    let k = if a.neg == b.neg {
        q
    } else {
        -q
    };
    let left = x.exact() - (k as real) * y.exact();
    assert(left == if a.neg {
        -z
    } else {
        z
    });
    assert(leaves(x.exact(), y.exact(), x.modulo(y).exact(), k));
}

/// Whether a remainder is what a multiple leaves of a dividend, within rounding.
pub open spec fn leaves(x: real, y: real, r: real, q: int) -> bool {
    let left = x - (q as real) * y;
    size(r - left) <= rounding(Format::Binary32) * size(left) && size(left) <= size(y)
}

/// What gives a finite number has finite operands.
pub proof fn lemma_single_operands(a: F32, b: F32)
    ensures
        a.plus(b).is_finite() ==> a.is_finite() && b.is_finite(),
        a.minus(b).is_finite() ==> a.is_finite() && b.is_finite(),
        a.times(b).is_finite() ==> a.is_finite() && b.is_finite(),
        a.over(b).is_finite() && b.is_finite() ==> a.is_finite() && b.exact() != 0real,
{
    reveal(F32::spec_plus);
    reveal(F32::spec_times);
    reveal(F32::spec_over);
    if a.over(b).is_finite() && b.is_finite() {
        assert(a.is_finite());
        lemma_single_quotient(a, b);
    }
}

/// What gives a finite number has finite operands.
pub proof fn lemma_double_operands(a: F64, b: F64)
    ensures
        a.plus(b).is_finite() ==> a.is_finite() && b.is_finite(),
        a.minus(b).is_finite() ==> a.is_finite() && b.is_finite(),
        a.times(b).is_finite() ==> a.is_finite() && b.is_finite(),
        a.over(b).is_finite() && b.is_finite() ==> a.is_finite() && b.exact() != 0real,
{
    reveal(F64::spec_plus);
    reveal(F64::spec_times);
    reveal(F64::spec_over);
    if a.over(b).is_finite() && b.is_finite() {
        assert(a.is_finite());
        lemma_double_quotient(a, b);
    }
}

/// A number with no fraction bits is a power of two.
proof fn lemma_power_exact(f: Format, e: nat)
    requires
        1 <= e,
    ensures
        e >= 1 + f.scale() - (f.p() - 1) ==> (units(e * pow2((f.p() - 1) as nat), f.p()) as int as real)
            / units_in_one(f) == pow2((e - 1 - (f.scale() - (f.p() - 1))) as nat) as int as real,
        e < 1 + f.scale() - (f.p() - 1) ==> (units(e * pow2((f.p() - 1) as nat), f.p()) as int as real)
            / units_in_one(f) == 1real / (pow2((f.scale() - (f.p() - 1) - (e - 1)) as nat) as int as real),
{
    lemma_power_units(f, e);
    lemma_pow2_pos(f.scale());
    let top = (f.p() - 1 + e - 1) as nat;
    let s = units_in_one(f);
    if top >= f.scale() {
        let d = (top - f.scale()) as nat;
        lemma_pow2_adds(f.scale(), d);
        lemma_real_product(pow2(f.scale()) as int, pow2(d) as int);
        let x = pow2(d) as int as real;
        assert((s * x) / s == x) by (nonlinear_arith)
            requires
                s > 0real,
        ;
    } else {
        let d = (f.scale() - top) as nat;
        lemma_pow2_adds(top, d);
        lemma_pow2_pos(d);
        lemma_pow2_pos(top);
        lemma_real_product(pow2(top) as int, pow2(d) as int);
        let (x, y) = (pow2(top) as int as real, pow2(d) as int as real);
        assert(x / (x * y) == 1real / y) by (nonlinear_arith)
            requires
                x > 0real,
                y > 0real,
        ;
    }
}

/// The numbers that the operators use: nought, a half, one, minus one and two.
pub proof fn lemma_constants()
    ensures
        (F32 { bits: 0 }).is_finite() && (F32 { bits: 0 }).exact() == 0real,
        (F64 { bits: 0 }).is_finite() && (F64 { bits: 0 }).exact() == 0real,
        (F32 { bits: 0x3f80_0000 }).is_finite() && (F32 { bits: 0x3f80_0000 }).exact() == 1real,
        (F32 { bits: 0xbf80_0000 }).is_finite() && (F32 { bits: 0xbf80_0000 }).exact() == -1real,
        (F32 { bits: 0x3f00_0000 }).is_finite() && (F32 { bits: 0x3f00_0000 }).exact() == 1real
            / 2real,
        (F64 { bits: 0x4000_0000_0000_0000 }).is_finite() && (F64 {
            bits: 0x4000_0000_0000_0000,
        }).exact() == 2real,
{
    let (f, g) = (Format::Binary32, Format::Binary64);
    lemma_format(f);
    lemma_format(g);
    lemma2_to64();
    lemma_units_zero(f, 0);
    lemma_units_zero(g, 0);
    lemma_exact_sign(f, false, 0);
    lemma_exact_sign(g, false, 0);
    let (s, t) = (units_in_one(f), units_in_one(g));
    assert(0real / s == 0real && 0real / t == 0real) by (nonlinear_arith)
        requires
            s > 0real,
            t > 0real,
    ;
    lemma_power_exact(f, 127);
    lemma_power_exact(f, 126);
    lemma_power_exact(g, 1024);
    lemma_exact_sign(f, false, 0x3f80_0000);
    lemma_exact_sign(f, true, 0x3f80_0000);
    lemma_exact_sign(f, false, 0x3f00_0000);
    lemma_exact_sign(g, false, 0x4000_0000_0000_0000);
}

/// The rounding of binary64 is a part in `2^53`.
pub proof fn lemma_double_rounding()
    ensures
        rounding(Format::Binary64) == 1real / 9007199254740992real,
        smallest(Format::Binary64) > 0real,
        smallest(Format::Binary64) <= smallest(Format::Binary32),
{
    lemma_format(Format::Binary64);
    lemma_exact_sign(Format::Binary64, false, 0);
    lemma_exact_sign(Format::Binary32, false, 0);
    lemma_pow2_strictly_increases(149, 1074);
    let (s, t) = (units_in_one(Format::Binary32), units_in_one(Format::Binary64));
    assert(1real / t <= 1real / s) by (nonlinear_arith)
        requires
            0real < s <= t,
    ;
}

/// What narrows to a finite number is finite.
pub proof fn lemma_narrow_operand(b: F64)
    requires
        b.narrow().is_finite(),
    ensures
        b.is_finite(),
{
    reveal(F64::spec_narrow);
}

/// The midpoint of two numbers is their mean within rounding.
pub proof fn law_midpoint(x: F32, y: F32)
    requires
        x.is_finite(),
        y.is_finite(),
        x.midpoint(y).is_finite(),
    ensures
        size(x.midpoint(y).exact() - (x.exact() + y.exact()) / 2real) <= 4real * slack(
            (x.exact() + y.exact()) / 2real,
        ),
{
    let (a, b) = (x.widen(), y.widen());
    let two = F64 { bits: 0x4000_0000_0000_0000 };
    let sum = a.plus(b);
    let half = sum.over(two);
    law_widening_is_exact(x);
    law_widening_is_exact(y);
    lemma_constants();
    lemma_narrow_operand(half);
    lemma_double_operands(sum, two);
    law_double_arithmetic(a, b);
    law_double_arithmetic(sum, two);
    law_conversions(x, half);
    lemma_single_rounding();
    lemma_double_rounding();
    let (g, h) = (rounding(Format::Binary32), rounding(Format::Binary64));
    let (t, v) = (smallest(Format::Binary32), smallest(Format::Binary64));
    let s = x.exact() + y.exact();
    let (p, q, m) = (sum.exact(), half.exact(), x.midpoint(y).exact());
    assert(size(p - s) <= size(s) / 9007199254740992real);
    assert(size(q - p / 2real) <= size(p / 2real) / 9007199254740992real + v);
    assert(size(m - q) <= size(q) / 16777216real + t);
}

/// The square root of a positive number, squared, is the number within rounding of the root.
pub proof fn law_square_root(x: F32)
    requires
        x.is_finite(),
        x.exact() >= 0real,
        x.sqrt().is_finite(),
    ensures
        x.sqrt().exact() >= 0real,
        ({
            let r = x.sqrt().exact();
            let t = 4real * slack(r);
            (r - t <= 0real || (r - t) * (r - t) <= x.exact()) && x.exact() <= (r + t) * (r + t)
        }),
{
    reveal(F32::spec_sqrt);
    let f = Format::Binary32;
    let a = x.num();
    lemma_exact_sign(f, a.neg, a.mag);
    lemma_near_bounded();
    lemma_units_zero(f, a.mag as nat);
    lemma_single_rounding();
    let u = units(a.mag as nat, f.p());
    let s = units_in_one(f);
    if a.mag == 0 {
        assert(0real / s == 0real) by (nonlinear_arith)
            requires
                s > 0real,
        ;
        let t = 4real * slack(0real);
        assert(x.sqrt() == x);
        assert(0real <= t * t && (0real - t) <= 0real) by (nonlinear_arith)
            requires
                t >= 0real,
        ;
    } else {
        assert(!a.neg) by {
            let ur = u as int as real;
            assert(ur / s > 0real) by (nonlinear_arith)
                requires
                    ur > 0real,
                    s > 0real,
            ;
        }
        let n = u * pow2(f.scale());
        lemma_some_floor_root(n);
        let k = floor_root(n);
        let m = marked_root(n);
        let r = near(f, m, 2);
        assert(x.sqrt().num() == (Num { neg: false, mag: r }));
        lemma_near_error(f, m, 2);
        lemma_exact_sign(f, false, r);
        lemma_format(f);
        let w = units(r as nat, f.p());
        lemma_real_product(u as int, pow2(f.scale()) as int);
        lemma_real_product(k as int, k as int);
        lemma_real_product((k + 1) as int, (k + 1) as int);
        let (wr, kr, ur) = (w as int as real, k as int as real, u as int as real);
        // In units: the root is within four roundings of the written one.
        let z = (wr * 4real) / 16777216real + 4real;
        assert(kr + 1real <= wr + z && wr - z <= kr);
        let e = wr / s;
        let t = 4real * slack(e);
        assert(t == z / s && e * s == wr && t * s == z) by (nonlinear_arith)
            requires
                e == wr / s,
                z == (wr * 4real) / 16777216real + 4real,
                t == 4real * ((1real / 16777216real) * e + 1real / s),
                s > 0real,
        ;
        let y = ur / s;
        assert(y * (s * s) == ur * s) by (nonlinear_arith)
            requires
                y == ur / s,
                s > 0real,
        ;
        assert(kr * kr <= ur * s && ur * s <= (kr + 1real) * (kr + 1real));
        assert(y <= (e + t) * (e + t)) by (nonlinear_arith)
            requires
                y * (s * s) <= (kr + 1real) * (kr + 1real),
                0real <= kr + 1real <= wr + z,
                e * s == wr,
                t * s == z,
                s > 0real,
        {
            assert((kr + 1real) * (kr + 1real) <= (wr + z) * (wr + z));
            assert((wr + z) * (wr + z) == ((e + t) * (e + t)) * (s * s));
        }
        if e - t > 0real {
            assert((e - t) * (e - t) <= y) by (nonlinear_arith)
                requires
                    kr * kr <= y * (s * s),
                    e - t > 0real,
                    wr - z <= kr,
                    e * s == wr,
                    t * s == z,
                    s > 0real,
            {
                assert((e - t) * s == wr - z);
                assert((wr - z) >= 0real);
                assert((wr - z) * (wr - z) <= kr * kr);
                assert((wr - z) * (wr - z) == ((e - t) * (e - t)) * (s * s));
            }
        }
    }
}

/// A quotient below two is finite.
pub proof fn lemma_small_quotient(a: F32, b: F32)
    requires
        a.is_finite(),
        b.is_finite(),
        size(a.exact()) < 2real * size(b.exact()),
    ensures
        a.over(b).is_finite(),
{
    reveal(F32::spec_over);
    let f = Format::Binary32;
    lemma_format(f);
    let (x, y) = (a.num(), b.num());
    lemma_exact_sign(f, x.neg, x.mag);
    lemma_exact_sign(f, y.neg, y.mag);
    lemma_units_zero(f, y.mag as nat);
    let (u, v) = (units(x.mag as nat, f.p()), units(y.mag as nat, f.p()));
    let s = pow2(f.scale());
    lemma_pow2_pos(f.scale());
    let (ur, vr, sr) = (u as int as real, v as int as real, s as int as real);
    assert(0real <= ur / sr && 0real <= vr / sr && (ur / sr < 2real * (vr / sr) ==> ur < 2real * vr))
        by (nonlinear_arith)
        requires
            ur >= 0real,
            vr >= 0real,
            sr > 0real,
    ;
    assert(u < 2 * v);
    let two = 128 * pow2((f.p() - 1) as nat);
    lemma_power_units(f, 128);
    lemma_pow2_unfold(150);
    lemma2_to64();
    assert(u * s < units(two, f.p()) * v) by (nonlinear_arith)
        requires
            units(two, f.p()) == 2 * s,
            u < 2 * v,
            s > 0,
    ;
    super::ratio::lemma_round_below(f, u * s, v, two);
}

/// A value below which every result is a finite number: `2^127`, or `2^1023`.
pub open spec fn reach(f: Format) -> real {
    match f {
        Format::Binary32 => pow2(127) as int as real,
        Format::Binary64 => pow2(1023) as int as real,
    }
}

/// What is below the reach of a format rounds to a finite number.
proof fn lemma_within_reach(f: Format, n: nat, d: nat)
    requires
        d > 0,
        (n as int as real) < reach(f) * units_in_one(f) * (d as int as real),
    ensures
        near(f, n, d) < f.inf(),
{
    lemma_format(f);
    let (top, e): (nat, nat) = match f {
        Format::Binary32 => (127, 254),
        Format::Binary64 => (1023, 2046),
    };
    let b = e * pow2((f.p() - 1) as nat);
    lemma2_to64();
    lemma_power_units(f, e);
    lemma_pow2_adds(top, f.scale());
    lemma_real_product(pow2(top) as int, pow2(f.scale()) as int);
    let u = units(b, f.p());
    lemma_real_product(u as int, d as int);
    assert(n < u * d);
    assert(b < f.inf());
    super::ratio::lemma_round_below(f, n, d, b);
}

/// A sum within the reach of its format is finite.
proof fn lemma_sum_within_reach(f: Format, a: Num, b: Num)
    requires
        a.mag < f.inf(),
        b.mag < f.inf(),
        size(exact(f, a) + exact(f, b)) < reach(f),
    ensures
        sum(f, a, b).mag < f.inf(),
{
    lemma_format(f);
    lemma_exact_sign(f, false, 0);
    let v = value(f, a) + value(f, b);
    let s = units_in_one(f);
    let (x, y, z) = (value(f, a) as real, value(f, b) as real, v as real);
    let m = reach(f);
    assert(x / s + y / s == z / s && (-m < z / s < m ==> -(m * s) < z < m * s)) by (nonlinear_arith)
        requires
            s > 0real,
            z == x + y,
    ;
    assert((magnitude(v) as int as real) < m * s * 1real);
    lemma_within_reach(f, magnitude(v), 1);
}

/// A product within the reach of its format is finite.
proof fn lemma_product_within_reach(f: Format, a: Num, b: Num)
    requires
        a.mag < f.inf(),
        b.mag < f.inf(),
        size(exact(f, a) * exact(f, b)) < reach(f),
    ensures
        product(f, a, b).mag < f.inf(),
{
    lemma_format(f);
    lemma_exact_sign(f, a.neg, a.mag);
    lemma_exact_sign(f, b.neg, b.mag);
    let (u, v) = (units(a.mag as nat, f.p()), units(b.mag as nat, f.p()));
    lemma_real_product(u as int, v as int);
    lemma_pow2_pos(f.scale());
    let (x, y, s, m) = (u as int as real, v as int as real, units_in_one(f), reach(f));
    let (p, q) = (x / s, y / s);
    assert(size(exact(f, a) * exact(f, b)) == p * q) by (nonlinear_arith)
        requires
            p >= 0real,
            q >= 0real,
            exact(f, a) == p || exact(f, a) == -p,
            exact(f, b) == q || exact(f, b) == -q,
    ;
    assert(x * y < m * s * s) by (nonlinear_arith)
        requires
            p * q < m,
            p == x / s,
            q == y / s,
            s > 0real,
    {
        assert(p * s == x && q * s == y);
        assert((p * s) * (q * s) == (p * q) * (s * s));
    }
    lemma_within_reach(f, u * v, pow2(f.scale()));
}

/// Results within the reach of binary32 are finite.
pub proof fn lemma_single_within_reach(a: F32, b: F32)
    requires
        a.is_finite(),
        b.is_finite(),
    ensures
        size(a.exact() + b.exact()) < reach(Format::Binary32) ==> a.plus(b).is_finite(),
        size(a.exact() - b.exact()) < reach(Format::Binary32) ==> a.minus(b).is_finite(),
        size(a.exact() * b.exact()) < reach(Format::Binary32) ==> a.times(b).is_finite(),
{
    let f = Format::Binary32;
    law_single_order(b, b);
    if size(a.exact() + b.exact()) < reach(f) {
        reveal(F32::spec_plus);
        lemma_sum_within_reach(f, a.num(), b.num());
    }
    if size(a.exact() - b.exact()) < reach(f) {
        reveal(F32::spec_plus);
        lemma_sum_within_reach(f, a.num(), b.opposite().num());
    }
    if size(a.exact() * b.exact()) < reach(f) {
        reveal(F32::spec_times);
        lemma_product_within_reach(f, a.num(), b.num());
    }
}

/// Results within the reach of binary64 are finite.
pub proof fn lemma_double_within_reach(a: F64, b: F64)
    requires
        a.is_finite(),
        b.is_finite(),
    ensures
        size(a.exact() + b.exact()) < reach(Format::Binary64) ==> a.plus(b).is_finite(),
        size(a.exact() - b.exact()) < reach(Format::Binary64) ==> a.minus(b).is_finite(),
        size(a.exact() * b.exact()) < reach(Format::Binary64) ==> a.times(b).is_finite(),
{
    let f = Format::Binary64;
    law_double_order(b, b);
    if size(a.exact() + b.exact()) < reach(f) {
        reveal(F64::spec_plus);
        lemma_sum_within_reach(f, a.num(), b.num());
    }
    if size(a.exact() - b.exact()) < reach(f) {
        reveal(F64::spec_plus);
        lemma_sum_within_reach(f, a.num(), b.opposite().num());
    }
    if size(a.exact() * b.exact()) < reach(f) {
        reveal(F64::spec_times);
        lemma_product_within_reach(f, a.num(), b.num());
    }
}

/// The exact value of a number of binary32 by its exponent and fraction bits, where it is a fraction of `2^k`.
proof fn lemma_single_by_fields(bits: u32, e: nat, fraction: nat, k: nat)
    requires
        1 <= e < 255,
        fraction < 0x80_0000,
        bits == e * 0x80_0000 + fraction,
        e + k == 150,
    ensures
        (F32 { bits }).is_finite(),
        (F32 { bits }).exact() == ((fraction + 0x80_0000) as int as real) / (pow2(k) as int as real),
{
    let f = Format::Binary32;
    lemma_format(f);
    lemma2_to64();
    lemma_exact_sign(f, false, bits as u64);
    lemma_fundamental_div_mod_converse(bits as int, 0x80_0000, e as int, fraction as int);
    lemma_pow2_adds((e - 1) as nat, k);
    lemma_pow2_pos((e - 1) as nat);
    lemma_pow2_pos(k);
    let (m, a, b) = (fraction + 0x80_0000, pow2((e - 1) as nat), pow2(k));
    lemma_real_product(m as int, a as int);
    lemma_real_product(a as int, b as int);
    let (x, y, z) = (m as int as real, a as int as real, b as int as real);
    assert(units(bits as nat, f.p()) == m * a);
    assert((x * y) / (y * z) == x / z) by (nonlinear_arith)
        requires
            y > 0real,
            z > 0real,
    ;
}

/// The decimal constants of the operators: a tenth, a fifth, four fifths, and pi.
pub proof fn lemma_decimal_constants()
    ensures
        (F32 { bits: 0x3dcc_cccd }).is_finite(),
        size((F32 { bits: 0x3dcc_cccd }).exact() - 1real / 10real) <= 1real / 100000000real,
        (F32 { bits: 0x3e4c_cccd }).is_finite(),
        size((F32 { bits: 0x3e4c_cccd }).exact() - 1real / 5real) <= 1real / 100000000real,
        (F32 { bits: 0x3f4c_cccd }).is_finite(),
        size((F32 { bits: 0x3f4c_cccd }).exact() - 4real / 5real) <= 1real / 10000000real,
        (F32 { bits: 0x4049_0fdb }).is_finite(),
        size((F32 { bits: 0x4049_0fdb }).exact() - 31415926535real / 10000000000real) <= 1real
            / 10000000real,
{
    lemma2_to64();
    lemma_single_by_fields(0x3dcc_cccd, 123, 0x4c_cccd, 27);
    lemma_single_by_fields(0x3e4c_cccd, 124, 0x4c_cccd, 26);
    lemma_single_by_fields(0x3f4c_cccd, 126, 0x4c_cccd, 24);
    lemma_single_by_fields(0x4049_0fdb, 128, 0x49_0fdb, 22);
    assert(pow2(27) == 134217728 && pow2(26) == 67108864 && pow2(24) == 16777216 && pow2(22)
        == 4194304);
    assert((F32 { bits: 0x3dcc_cccd }).exact() == 13421773real / 134217728real);
    assert((F32 { bits: 0x3e4c_cccd }).exact() == 13421773real / 67108864real);
    assert((F32 { bits: 0x3f4c_cccd }).exact() == 13421773real / 16777216real);
    assert((F32 { bits: 0x4049_0fdb }).exact() == 13176795real / 4194304real);
}

/// A quotient of binary64 within its reach is finite.
pub proof fn lemma_quotient_within_reach(a: F64, b: F64)
    requires
        a.is_finite(),
        b.is_finite(),
        size(a.exact()) < reach(Format::Binary64) * size(b.exact()),
    ensures
        a.over(b).is_finite(),
{
    reveal(F64::spec_over);
    let f = Format::Binary64;
    lemma_format(f);
    let (x, y) = (a.num(), b.num());
    lemma_exact_sign(f, x.neg, x.mag);
    lemma_exact_sign(f, y.neg, y.mag);
    lemma_units_zero(f, y.mag as nat);
    let (u, v) = (units(x.mag as nat, f.p()), units(y.mag as nat, f.p()));
    let (ur, vr, s, m) = (u as int as real, v as int as real, units_in_one(f), reach(f));
    lemma_real_product(u as int, pow2(f.scale()) as int);
    assert(ur * s < m * s * vr && vr > 0real) by (nonlinear_arith)
        requires
            ur >= 0real,
            vr >= 0real,
            s > 0real,
            ur / s < m * (vr / s),
    {
        assert((ur / s) * s == ur && (vr / s) * s == vr);
        assert((ur / s) * s < (m * (vr / s)) * s);
        assert((m * (vr / s)) * s == m * ((vr / s) * s));
        assert(ur < m * vr);
        assert(ur * s < (m * vr) * s);
        assert((m * vr) * s == m * s * vr);
    }
    lemma_within_reach(f, u * pow2(f.scale()), v);
}

/// What is within the reach of binary32 narrows to a finite number.
pub proof fn lemma_narrow_within_reach(b: F64)
    requires
        b.is_finite(),
        size(b.exact()) < reach(Format::Binary32),
    ensures
        b.narrow().is_finite(),
{
    reveal(F64::spec_narrow);
    let (from, to) = (Format::Binary64, Format::Binary32);
    lemma_format(from);
    lemma_format(to);
    let a = b.num();
    lemma_exact_sign(from, a.neg, a.mag);
    lemma_exact_sign(to, false, 0);
    let x = units(a.mag as nat, from.p());
    lemma_pow2_pos(from.scale());
    lemma_real_product(x as int, pow2(to.scale()) as int);
    let (xr, s, t, m) = (x as int as real, units_in_one(to), units_in_one(from), reach(to));
    assert(xr * s < m * s * t) by (nonlinear_arith)
        requires
            xr >= 0real,
            s > 0real,
            t > 0real,
            xr / t < m,
    {
        assert((xr / t) * t == xr);
        assert(xr < m * t);
        assert(xr * s < (m * t) * s);
        assert((m * t) * s == m * s * t);
    }
    lemma_within_reach(to, x * pow2(to.scale()), pow2(from.scale()));
}

/// Everyday values are within reach of both formats.
pub proof fn lemma_reach()
    ensures
        reach(Format::Binary32) > 1000000000000000real,
        reach(Format::Binary64) > 1000000000000000real,
{
    lemma2_to64();
    lemma_pow2_strictly_increases(64, 127);
    lemma_pow2_strictly_increases(64, 1023);
    assert(pow2(64) > 1000000000000000);
}

/// Narrowing keeps the sign.
pub proof fn lemma_narrow_sign(b: F64)
    requires
        b.is_finite(),
        b.narrow().is_finite(),
        b.narrow().exact() > 0real,
    ensures
        b.exact() > 0real,
{
    reveal(F64::spec_narrow);
    let (from, to) = (Format::Binary64, Format::Binary32);
    let a = b.num();
    lemma_near_bounded();
    let c = converted(from, to, a);
    assert(b.narrow().num() == c);
    lemma_exact_sign(from, a.neg, a.mag);
    lemma_exact_sign(to, c.neg, c.mag);
    if b.exact() <= 0real && !a.neg {
        let (u, s) = (units(a.mag as nat, from.p()), units_in_one(from));
        let ur = u as int as real;
        assert(ur == 0real) by (nonlinear_arith)
            requires
                ur / s <= 0real,
                ur >= 0real,
                s > 0real,
        ;
        lemma_pow2_pos(from.scale());
        lemma_format(to);
        assert(u * pow2(to.scale()) == 0) by (nonlinear_arith)
            requires
                u == 0,
        ;
        let (d, h) = (pow2(from.scale()), pow2((to.p() - 1) as nat));
        lemma_near_error(to, 0, d);
        lemma_pow2_unfold(to.p());
        lemma_pow2_pos((to.p() - 1) as nat);
        let w = units(c.mag as nat, to.p());
        assert(w == 0) by (nonlinear_arith)
            requires
                (w * d) * (2 * h) <= d * h,
                w >= 0,
                d > 0,
                h > 0,
        {
            if w >= 1 {
                assert(w * d >= d);
                assert((w * d) * (2 * h) >= d * (2 * h));
                assert(d * (2 * h) == 2 * (d * h));
                assert(d * h > 0);
            }
        }
        let t = units_in_one(to);
        assert(0real / t == 0real) by (nonlinear_arith)
            requires
                t > 0real,
        ;
    }
}

/// The whole part of a magnitude, and the next whole number where there is a fraction.
proof fn lemma_whole_part(f: Format, mag: u64)
    ensures
        ({
            let x = (units(mag as nat, f.p()) as int as real) / units_in_one(f);
            let w = whole(f, mag as nat) as int as real;
            &&& w <= x < w + 1real
            &&& fractional(f, mag as nat) == (x != w)
        }),
{
    let (u, s) = (units(mag as nat, f.p()) as int, pow2(f.scale()) as int);
    lemma_pow2_pos(f.scale());
    lemma_fundamental_div_mod(u, s);
    lemma_mod_bound(u, s);
    let (q, r) = (u / s, u % s);
    lemma_real_product(s, q);
    let (ur, sr, qr, rr) = (u as real, s as real, q as real, r as real);
    let x = ur / sr;
    assert(qr <= x && x < qr + 1real && (rr == 0real) == (x == qr)) by (nonlinear_arith)
        requires
            x == ur / sr,
            ur == sr * qr + rr,
            0real <= rr < sr,
    {
        assert(x * sr == ur);
    }
}

/// The whole part of a number that is not negative is the whole number at or just below it.
pub proof fn law_whole_part(x: F32)
    requires
        x.is_finite(),
        x.exact() >= 0real,
    ensures
        x.whole_part() as int as real <= x.exact() < x.whole_part() as int as real + 1real,
        x.has_fraction() == (x.exact() != x.whole_part() as int as real),
{
    let f = Format::Binary32;
    let n = x.num();
    lemma_exact_sign(f, n.neg, n.mag);
    lemma_whole_part(f, n.mag);
}

/// The whole number toward one side of a number is at it, or less than one from it on that side.
pub proof fn law_whole_toward(x: F64)
    requires
        x.is_finite(),
    ensures
        x.whole_toward(false) as real <= x.exact() < x.whole_toward(false) as real + 1real,
        x.whole_toward(true) as real - 1real < x.exact() <= x.whole_toward(true) as real,
{
    reveal(F64::whole_toward);
    let f = Format::Binary64;
    let n = x.num();
    lemma_exact_sign(f, n.neg, n.mag);
    lemma_whole_part(f, n.mag);
}

/// A day has `86400` seconds, in binary32 too.
pub proof fn lemma_day_constant()
    ensures
        (F32 { bits: 0x47a8_c000 }).is_finite(),
        (F32 { bits: 0x47a8_c000 }).exact() == 86400real,
{
    lemma2_to64();
    lemma_single_by_fields(0x47a8_c000, 143, 0x28_c000, 7);
    assert(pow2(7) == 128);
    assert((F32 { bits: 0x47a8_c000 }).exact() == 11059200real / 128real);
}

/// The bound on instants: a millionth of a millionth.
pub proof fn lemma_instant_constant()
    ensures
        (F64 { bits: 0x3d71_9799_812d_ea11 }).is_finite(),
        size((F64 { bits: 0x3d71_9799_812d_ea11 }).exact() - 1real / 1000000000000real) <= 1real
            / 1000000000000000000000000real,
{
    let f = Format::Binary64;
    lemma_format(f);
    lemma2_to64();
    let mag: u64 = 0x3d71_9799_812d_ea11;
    lemma_exact_sign(f, false, mag);
    lemma_fundamental_div_mod_converse(mag as int, 0x10_0000_0000_0000, 983, 0x1_9799_812d_ea11);
    lemma_pow2_adds(982, 92);
    lemma_pow2_adds(64, 28);
    lemma_pow2_pos(982);
    let (m, a, b): (int, int, int) = (0x11_9799_812d_ea11, pow2(982) as int, pow2(92) as int);
    assert(pow2(28) == 0x1000_0000);
    assert(b == 4951760157141521099596496896);
    lemma_real_product(m, a);
    lemma_real_product(a, b);
    let (x, y, z) = (m as real, a as real, b as real);
    assert((x * y) / (y * z) == x / z) by (nonlinear_arith)
        requires
            y > 0real,
            z > 0real,
    ;
    assert((F64 { bits: mag }).exact() == 4951760157141521real / 4951760157141521099596496896real);
}

/// The product of a finite number with one of no more than one is finite.
pub proof fn lemma_lesser_product(a: F64, b: F64)
    requires
        a.is_finite(),
        b.is_finite(),
        size(b.exact()) < 1real,
    ensures
        a.times(b).is_finite(),
{
    reveal(F64::spec_times);
    let f = Format::Binary64;
    lemma_format(f);
    let (x, y) = (a.num(), b.num());
    lemma_exact_sign(f, y.neg, y.mag);
    let (u, v, s) = (units(x.mag as nat, f.p()), units(y.mag as nat, f.p()), pow2(f.scale()));
    lemma_pow2_pos(f.scale());
    let (vr, sr) = (v as int as real, s as int as real);
    assert(vr < sr) by (nonlinear_arith)
        requires
            vr / sr < 1real,
            sr > 0real,
    ;
    if u == 0 {
        assert(u * v == 0) by (nonlinear_arith)
            requires
                u == 0,
        ;
        lemma_units_zero(f, 1);
        assert(u * v < units(1, f.p()) * s) by (nonlinear_arith)
            requires
                u * v == 0,
                units(1, f.p()) > 0,
                s > 0,
        ;
        super::ratio::lemma_round_below(f, u * v, s, 1);
    } else {
        assert(u * v < u * s) by (nonlinear_arith)
            requires
                u > 0,
                v < s,
        ;
        super::ratio::lemma_round_below(f, u * v, s, x.mag as nat);
    }
}

/// A rounded quotient of units is the exact one within rounding, with its sign.
pub(crate) proof fn lemma_near_exact(f: Format, n: nat, d: nat, neg: bool)
    requires
        d > 0,
    ensures
        near(f, n, d) <= f.inf(),
        units_in_one(f) > 0real,
        near(f, n, d) < f.inf() ==> ({
            let q = (n as int as real) / ((d as int as real) * units_in_one(f));
            size(
                exact(f, Num { neg, mag: near(f, n, d) }) - if neg {
                    -q
                } else {
                    q
                },
            ) <= rounding(f) * q + smallest(f)
        }),
{
    lemma_near_bounded();
    lemma_exact_sign(f, neg, near(f, n, d));
    if near(f, n, d) < f.inf() {
        lemma_rounded(f, n, d);
    }
}

/// Neighbouring magnitudes are no further apart than twice the rounding, or the smallest number.
proof fn lemma_neighbours(f: Format, mag: u64)
    requires
        mag < 0xffff_ffff_ffff_ffff,
    ensures
        ({
            let x = (units(mag as nat, f.p()) as int as real) / units_in_one(f);
            let y = (units((mag + 1) as nat, f.p()) as int as real) / units_in_one(f);
            x < y && y - x <= 2real * rounding(f) * x + smallest(f)
        }),
{
    lemma_format(f);
    lemma_next(mag as nat, f.p());
    lemma_exact_sign(f, false, mag);
    let p = f.p();
    let h = pow2((p - 1) as nat);
    lemma_pow2_pos((p - 1) as nat);
    lemma_pow2_unfold(p);
    let (u, c) = (units(mag as nat, p), step(mag as nat, p));
    let e = mag as nat / h;
    if e > 0 {
        lemma_pow2_pos((e - 1) as nat);
        let k = pow2((e - 1) as nat);
        let g = mag as nat % h;
        assert(c * h <= u) by (nonlinear_arith)
            requires
                u == (g + h) * k,
                c == k,
                g >= 0,
        ;
    }
    assert(c >= 1 && (c == 1 || c * h <= u));
    let (ur, cr, hr, s) = (u as int as real, c as int as real, h as int as real, units_in_one(f));
    lemma_real_product(c as int, h as int);
    let r = rounding(f);
    assert(r * (2real * hr) == 1real) by (nonlinear_arith)
        requires
            r == 1real / (2real * hr),
            hr > 0real,
    ;
    let (x, y) = (ur / s, (ur + cr) / s);
    assert(x < y && y - x <= 2real * r * x + 1real / s) by (nonlinear_arith)
        requires
            x == ur / s,
            y == (ur + cr) / s,
            s > 0real,
            r > 0real,
            ur >= 0real,
            cr >= 1real,
            r * (2real * hr) == 1real,
            cr == 1real || cr * hr <= ur,
    {
        let z = cr / s;
        assert(z * s == cr && x * s == ur && y * s == ur + cr);
        assert(y - x == z) by (nonlinear_arith)
            requires
                y * s == ur + cr,
                x * s == ur,
                z * s == cr,
                s > 0real,
        ;
        assert(z > 0real);
        if cr != 1real {
            assert((2real * r) * (cr * hr) <= (2real * r) * ur);
            assert((2real * r) * (cr * hr) == cr * (r * (2real * hr)));
            assert(cr <= 2real * r * ur);
            assert(z * s <= (2real * r * x) * s);
            assert(z <= 2real * r * x);
        } else {
            assert(x >= 0real);
            assert(2real * r * x >= 0real);
        }
    }
}

/// The number after a number is above it, by no more than twice the rounding or a few of the
/// smallest numbers; the one before it is below it.
pub proof fn law_neighbours(v: F32)
    requires
        v.is_finite(),
    ensures
        v.next_up().is_finite() ==> v.exact() < v.next_up().exact() && v.next_up().exact() - v.exact()
            <= 4real * slack(v.exact()),
        v.next_down().is_finite() ==> v.next_down().exact() < v.exact() && v.exact()
            - v.next_down().exact() <= 4real * slack(v.exact()),
{
    law_single_order(v, v);
    lemma_next_up(v);
    lemma_next_up(v.opposite());
    let w = v.opposite().next_up();
    if w.is_finite() {
        law_single_order(w, w);
    }
    assert(v.next_down() == w.opposite());
}

proof fn lemma_next_up(v: F32)
    requires
        v.is_finite(),
    ensures
        v.next_up().is_finite() ==> v.exact() < v.next_up().exact() && v.next_up().exact() - v.exact()
            <= 4real * slack(v.exact()),
{
    let f = Format::Binary32;
    let (a, b) = (v.num(), v.next_up().num());
    lemma_exact_sign(f, a.neg, a.mag);
    lemma_exact_sign(f, b.neg, b.mag);
    lemma_single_rounding();
    if a.mag == 0 {
        lemma_neighbours(f, 0);
        assert(b == (Num { neg: false, mag: 1 }));
        lemma_units_zero(f, 0);
        let s = units_in_one(f);
        assert(0real / s == 0real) by (nonlinear_arith)
            requires
                s > 0real,
        ;
    } else if !a.neg {
        lemma_neighbours(f, a.mag);
        assert(b == (Num { neg: false, mag: (a.mag + 1) as u64 }) || !v.next_up().is_finite());
    } else {
        lemma_neighbours(f, (a.mag - 1) as u64);
        assert(b == (Num { neg: true, mag: (a.mag - 1) as u64 }));
    }
}

} // verus!
