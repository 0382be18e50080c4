//! Laws of the arithmetic.

use super::binary32::F32;
use super::binary64::F64;
use super::num::{
    lemma_format, lemma_near_exact, lemma_units_increase, lemma_units_zero, magnitude, near,
    of_int, quotient, sum, value, Format,
};
use super::ratio::{lemma_round_below, lemma_round_monotone};
use super::round::units;
use vstd::arithmetic::div_mod::*;
use vstd::arithmetic::power2::*;
use vstd::prelude::*;

verus! {

/// One unit is the least magnitude.
proof fn lemma_one_unit(f: Format)
    ensures
        units(1, f.p()) == 1,
{
    lemma_format(f);
    lemma2_to64();
    let h = pow2((f.p() - 1) as nat);
    lemma_basic_div(1, h as int);
    lemma_small_mod(1, h);
}

/// A positive quotient of at least one unit is not rounded to zero.
proof fn lemma_near_positive(f: Format, n: nat)
    requires
        n >= 1,
    ensures
        near(f, n, 1) >= 1,
{
    lemma_one_unit(f);
    lemma_near_exact(f, 1);
    lemma_round_monotone(f, 1, n, 1);
}

/// The magnitude of a small integer in binary64.
proof fn lemma_small_int(v: int)
    requires
        -0x8000_0000 <= v <= 0x8000_0000,
    ensures
        of_int(Format::Binary64, v).mag < Format::Binary64.inf(),
        v != 0 ==> of_int(Format::Binary64, v).mag > 0,
{
    let f = Format::Binary64;
    lemma_format(f);
    lemma2_to64();
    lemma2_to64_rest();
    let b: nat = 0x41f0_0000_0000_0000;
    let h = pow2(52);
    assert(b == h * 0x41f);
    assert(0x41f * h == h * 0x41f) by (nonlinear_arith);
    lemma_fundamental_div_mod_converse(b as int, h as int, 0x41f, 0);
    let w = pow2(1074);
    lemma_pow2_pos(1074);
    lemma_pow2_adds(52, 1054);
    lemma_pow2_adds(32, 1074);
    assert(units(b, 53) == (0 + h) * pow2(1054));
    assert(units(b, 53) == 0x1_0000_0000 * w);
    let m = magnitude(v);
    assert(m * w < 0x1_0000_0000 * w) by (nonlinear_arith)
        requires
            m < 0x1_0000_0000,
            w > 0,
    ;
    assert(units(b, 53) * 1 == units(b, 53));
    lemma_round_below(f, m * w, 1, b);
    if v != 0 {
        assert(m * w >= 1) by (nonlinear_arith)
            requires
                m >= 1,
                w >= 1,
        ;
        lemma_near_positive(f, m * w);
    }
}

/// The magnitude of the quotient of two small integers grows with the first.
proof fn lemma_quotient_grows(a: nat, b: nat, k: nat)
    requires
        a <= b <= 0x8000_0000,
        0 < k <= 0x8000_0000,
    ensures
        ({
            let f = Format::Binary64;
            let x = quotient(f, of_int(f, a as int), of_int(f, k as int)).mag;
            let y = quotient(f, of_int(f, b as int), of_int(f, k as int)).mag;
            x <= y <= f.inf()
        }),
{
    let f = Format::Binary64;
    lemma_small_int(a as int);
    lemma_small_int(b as int);
    lemma_small_int(k as int);
    let w = pow2(1074);
    assert(a * w <= b * w) by (nonlinear_arith)
        requires
            a <= b,
            w >= 0,
    ;
    lemma_round_monotone(f, a * w, b * w, 1);
    let x = of_int(f, a as int).mag as nat;
    let y = of_int(f, b as int).mag as nat;
    let z = of_int(f, k as int).mag as nat;
    if x < y {
        lemma_units_increase(f, x, y);
    }
    lemma_units_zero(f, z);
    let p = units(x, 53);
    let q = units(y, 53);
    assert(p * w <= q * w) by (nonlinear_arith)
        requires
            p <= q,
            w >= 0,
    ;
    lemma_round_monotone(f, p * w, q * w, units(z, 53));
}

/// Dividing integers by a positive integer keeps their order.
pub proof fn lemma_scaled_ordered(a: int, b: int, k: int)
    requires
        -0x8000_0000 <= a <= b <= 0x7fff_ffff,
        0 < k <= 0x7fff_ffff,
    ensures
        F64::nearest(a).over(F64::nearest(k)).at_most(F64::nearest(b).over(F64::nearest(k))),
{
    reveal(F64::nearest);
    reveal(F64::spec_over);
    let f = Format::Binary64;
    lemma_small_int(a);
    lemma_small_int(b);
    lemma_small_int(k);
    let (x, y) = (magnitude(a), magnitude(b));
    assert(of_int(f, a).mag == of_int(f, x as int).mag);
    assert(of_int(f, b).mag == of_int(f, y as int).mag);
    let na = of_int(f, a);
    let nb = of_int(f, b);
    let nk = of_int(f, k);
    assert(F64::nearest(a).num() == na);
    assert(F64::nearest(b).num() == nb);
    assert(F64::nearest(k).num() == nk);
    if x <= y {
        lemma_quotient_grows(x, y, k as nat);
    } else {
        lemma_quotient_grows(y, x, k as nat);
    }
    let qa = quotient(f, na, nk);
    let qb = quotient(f, nb, nk);
    assert(qa.mag == quotient(f, of_int(f, x as int), nk).mag);
    assert(qb.mag == quotient(f, of_int(f, y as int), nk).mag);
    assert(qa.neg == (a < 0) && qb.neg == (b < 0));
}

/// The sum does not depend on the order of its operands.
pub proof fn law_sum_commutes(a: F32, b: F32)
    ensures
        a.plus(b) == b.plus(a),
{
    reveal(F32::spec_plus);
}

/// The product does not depend on the order of its operands.
pub proof fn law_product_commutes(a: F32, b: F32)
    ensures
        a.times(b) == b.times(a),
{
    reveal(F32::spec_times);
    let f = Format::Binary32;
    let (x, y) = (units(a.num().mag as nat, f.p()), units(b.num().mag as nat, f.p()));
    assert(x * y == y * x) by (nonlinear_arith);
}

/// One number is less than another exactly where its value is less.
pub proof fn law_order_is_by_value(a: F32, b: F32)
    requires
        a.is_finite(),
        b.is_finite(),
    ensures
        a.less(b) == (value(Format::Binary32, a.num()) < value(Format::Binary32, b.num())),
        a.equals(b) == (value(Format::Binary32, a.num()) == value(Format::Binary32, b.num())),
{
    let f = Format::Binary32;
    let (x, y) = (a.num().mag as nat, b.num().mag as nat);
    lemma_units_zero(f, x);
    lemma_units_zero(f, y);
    if x < y {
        lemma_units_increase(f, x, y);
    } else if y < x {
        lemma_units_increase(f, y, x);
    }
}

/// A finite difference is zero exactly where the numbers are the same.
pub proof fn law_difference_with_itself(a: F64)
    requires
        a.is_finite(),
    ensures
        a.minus(a) == (F64 { bits: 0 }),
{
    reveal(F64::spec_plus);
    let f = Format::Binary64;
    assert(value(f, a.num()) + value(f, a.opposite().num()) == 0);
}

/// A finite binary32 number is finite in binary64.
pub proof fn lemma_finite_widens(a: F32)
    requires
        a.is_finite(),
    ensures
        a.widen().is_finite(),
{
    reveal(F32::spec_widen);
    let (f, g) = (Format::Binary32, Format::Binary64);
    lemma_format(f);
    lemma_format(g);
    lemma2_to64();
    lemma2_to64_rest();
    let m = a.num().mag as nat;
    let top: nat = 0x7f80_0000;
    let h = pow2(23);
    assert(top == h * 0xff);
    assert(0xff * h == h * 0xff) by (nonlinear_arith);
    lemma_fundamental_div_mod_converse(top as int, h as int, 0xff, 0);
    lemma_pow2_adds(23, 254);
    assert(units(top, 24) == pow2(277));
    lemma_units_increase(f, m, top);
    let b: nat = 0x47f0_0000_0000_0000;
    let k = pow2(52);
    assert(b == k * 0x47f);
    assert(0x47f * k == k * 0x47f) by (nonlinear_arith);
    lemma_fundamental_div_mod_converse(b as int, k as int, 0x47f, 0);
    lemma_pow2_adds(52, 1150);
    assert(units(b, 53) == pow2(1202));
    let n = units(m, 24) * pow2(1074);
    let d = pow2(149);
    lemma_pow2_pos(149);
    lemma_pow2_pos(1074);
    lemma_pow2_adds(277, 1074);
    lemma_pow2_adds(1202, 149);
    assert(n < pow2(277) * pow2(1074)) by (nonlinear_arith)
        requires
            n == units(m, 24) * pow2(1074),
            units(m, 24) < pow2(277),
            pow2(1074) > 0,
    ;
    lemma_round_below(g, n, d, b);
}

} // verus!
