//! How rounding adds up over the formulas of the operators.

use crate::builtins::stateful::{blend, blended};
use crate::float::binary32::F32;
use crate::float::exact::{
    law_single_arithmetic, law_single_order, lemma_constants, lemma_single_operands,
    lemma_single_rounding, lemma_small_quotient, size, smallest,
};
use crate::float::num::Format;
use vstd::prelude::*;

verus! {

/// What a formula of a few operations on two numbers is off by at most: a part in `2^20` of
/// their sizes, and a few of the smallest numbers.
pub open spec fn play(a: real, b: real) -> real {
    (size(a) + size(b)) / 1048576real + 4real * smallest(Format::Binary32)
}

/// The share of the way from `x0` to `x1` that `x` has gone.
pub open spec fn share(x: real, x0: real, x1: real) -> real {
    (x - x0) / (x1 - x0)
}

/// A product is bounded by the bound of a factor.
pub proof fn lemma_scaled(a: real, b: real, c: real)
    requires
        size(a) <= c,
    ensures
        size(a * b) <= c * size(b),
{
    assert(size(a * b) <= c * size(b)) by (nonlinear_arith)
        requires
            size(a) <= c,
    ;
}

/// A quotient of two rounded numbers, rounded.
proof fn lemma_ratio(n: real, d: real, q: real, en: real, ed: real, t: real)
    requires
        0real <= en <= ed,
        ed > 0real,
        size(n - en) <= en / 16777216real,
        size(d - ed) <= ed / 16777216real,
        size(q - n / d) <= size(n / d) / 16777216real + t,
        0real < t <= 1real / 16777216real,
    ensures
        d > 0real,
        0real <= en / ed <= 1real,
        size(q - en / ed) <= 6real / 16777216real,
{
    let r = en / ed;
    let w = n / d;
    assert(r * ed == en && 0real <= r <= 1real) by (nonlinear_arith)
        requires
            0real <= en <= ed,
            ed > 0real,
            r == en / ed,
    ;
    assert(w * d == n && w >= 0real) by (nonlinear_arith)
        requires
            d > 0real,
            n >= 0real,
            w == n / d,
    ;
    assert(w <= r + 3real / 16777216real) by (nonlinear_arith)
        requires
            r * ed == en,
            0real <= r <= 1real,
            w * d == n,
            w >= 0real,
            ed > 0real,
            n <= en + en / 16777216real,
            d >= ed - ed / 16777216real,
    {
        let g = 1real / 16777216real;
        let z = r + 3real * g;
        if w > z {
            assert(w * d >= w * (ed - ed * g));
            assert(w * (ed - ed * g) == (w - w * g) * ed);
            assert((w - w * g) > (z - z * g));
            assert((z - z * g) >= r + r * g);
            assert((w - w * g) * ed > (r + r * g) * ed);
            assert((r + r * g) * ed == en + en * g);
        }
    }
    assert(w >= r - 3real / 16777216real) by (nonlinear_arith)
        requires
            r * ed == en,
            0real <= r <= 1real,
            w * d == n,
            w >= 0real,
            ed > 0real,
            n >= en - en / 16777216real,
            d <= ed + ed / 16777216real,
    {
        let g = 1real / 16777216real;
        let z = r - 3real * g;
        if w < z {
            assert(w * d <= w * (ed + ed * g));
            assert(w * (ed + ed * g) == (w + w * g) * ed);
            assert((w + w * g) < (z + z * g));
            assert((z + z * g) <= r - r * g);
            assert((w + w * g) * ed < (r - r * g) * ed);
            assert((r - r * g) * ed == en - en * g);
        }
    }
}

/// Part of a rounded product of a share and a distance.
proof fn lemma_part(d: real, q: real, m: real, p: real, s: real, t: real)
    requires
        0real <= s <= 1real,
        size(q - s) <= 6real / 16777216real,
        size(m - d) <= size(d) / 16777216real,
        size(p - q * m) <= size(q * m) / 16777216real + t,
        0real < t,
    ensures
        size(p - s * d) <= 12real * (size(d) / 16777216real) + t,
{
    lemma_scaled(q - s, m, 6real / 16777216real);
    lemma_scaled(s, m - d, 1real);
    lemma_scaled(q, m, 2real);
    assert(q * m == (q - s) * m + s * (m - d) + s * d) by (nonlinear_arith);
    let (a, b, c, e) = ((q - s) * m, s * (m - d), s * d, q * m);
    let k = size(d);
    assert(size(m) <= k + k / 16777216real);
    assert(size(a) <= 7real * k / 16777216real);
    assert(size(b) <= k / 16777216real);
    assert(size(e) <= 3real * k);
    assert(size(p - e) <= 3real * k / 16777216real + t);
    assert(size(e - c) <= 8real * k / 16777216real);
}

/// A mean of two numbers is no greater than both.
proof fn lemma_mean(y: real, z: real, s: real)
    requires
        0real <= s <= 1real,
    ensures
        size(y + s * (z - y)) <= size(y) + size(z),
{
    lemma_scaled(1real - s, y, 1real);
    lemma_scaled(s, z, 1real);
    assert(y + s * (z - y) == (1real - s) * y + s * z) by (nonlinear_arith);
}

/// A number that has gone a share of the way from one to another.
proof fn lemma_along(y: real, z: real, q: real, m: real, p: real, r: real, s: real, t: real)
    requires
        0real <= s <= 1real,
        size(q - s) <= 6real / 16777216real,
        size(m - (z - y)) <= size(z - y) / 16777216real,
        size(p - q * m) <= size(q * m) / 16777216real + t,
        size(r - (y + p)) <= size(y + p) / 16777216real,
        0real < t,
    ensures
        size(r - (y + s * (z - y))) <= (size(y) + size(z)) / 1048576real + 4real * t,
{
    lemma_part(z - y, q, m, p, s, t);
    lemma_mean(y, z, s);
    let c = s * (z - y);
    let k = size(y) + size(z);
    assert(size(z - y) <= k);
    assert(size(p - c) <= 12real * (k / 16777216real) + t);
    assert(size(y + p) <= k + 12real * (k / 16777216real) + t);
    assert(size(r - (y + p)) <= 2real * (k / 16777216real) + t);
}

/// A point between two others, in rounded operations, is on their line within rounding.
pub proof fn lemma_on_line(x: F32, x0: F32, x1: F32, y0: F32, y1: F32)
    requires
        x.is_finite(),
        x0.is_finite(),
        x1.is_finite(),
        x0.exact() <= x.exact() <= x1.exact(),
        x0.exact() < x1.exact(),
        x1.minus(x0).is_finite(),
        y0.plus(x.minus(x0).over(x1.minus(x0)).times(y1.minus(y0))).is_finite(),
    ensures
        y0.is_finite(),
        y1.is_finite(),
        size(
            y0.plus(x.minus(x0).over(x1.minus(x0)).times(y1.minus(y0))).exact() - (y0.exact() + share(
                x.exact(),
                x0.exact(),
                x1.exact(),
            ) * (y1.exact() - y0.exact())),
        ) <= play(y0.exact(), y1.exact()),
{
    let n = x.minus(x0);
    let d = x1.minus(x0);
    let q = n.over(d);
    let m = y1.minus(y0);
    let p = q.times(m);
    lemma_single_operands(y0, p);
    lemma_single_operands(q, m);
    lemma_single_operands(y1, y0);
    lemma_single_operands(n, d);
    law_single_arithmetic(x, x0);
    law_single_arithmetic(x1, x0);
    law_single_arithmetic(n, d);
    law_single_arithmetic(y1, y0);
    law_single_arithmetic(q, m);
    law_single_arithmetic(y0, p);
    lemma_single_rounding();
    let t = smallest(Format::Binary32);
    lemma_ratio(
        n.exact(),
        d.exact(),
        q.exact(),
        x.exact() - x0.exact(),
        x1.exact() - x0.exact(),
        t,
    );
    lemma_along(
        y0.exact(),
        y1.exact(),
        q.exact(),
        m.exact(),
        p.exact(),
        y0.plus(p).exact(),
        share(x.exact(), x0.exact(), x1.exact()),
        t,
    );
}

/// A rounded product with a weight.
proof fn lemma_weighed(x: real, a: real, u: real, s: real, t: real)
    requires
        0real <= s <= 1real,
        size(a - s) <= 8real / 16777216real,
        size(u - a * x) <= size(a * x) / 16777216real + t,
        0real < t,
    ensures
        size(u - s * x) <= 10real * (size(x) / 16777216real) + t,
        size(s * x) <= size(x),
{
    lemma_scaled(a - s, x, 8real / 16777216real);
    lemma_scaled(a, x, 2real);
    lemma_scaled(s, x, 1real);
    assert(a * x == (a - s) * x + s * x) by (nonlinear_arith);
}

/// A sum of two numbers by weights that make one.
proof fn lemma_weights(x: real, y: real, a: real, b: real, u: real, v: real, r: real, s: real, t: real)
    requires
        0real <= s <= 1real,
        0real <= a <= 1real,
        size(a - s) <= 6real / 16777216real,
        size(b - (1real - a)) <= (1real - a) / 16777216real,
        size(u - a * x) <= size(a * x) / 16777216real + t,
        size(v - b * y) <= size(b * y) / 16777216real + t,
        size(r - (u + v)) <= size(u + v) / 16777216real,
        0real < t,
    ensures
        size(r - (s * x + (1real - s) * y)) <= (size(x) + size(y)) / 1048576real + 4real * t,
{
    lemma_weighed(x, a, u, s, t);
    lemma_weighed(y, b, v, 1real - s, t);
    let (c, e) = (s * x, (1real - s) * y);
    let k = size(x) + size(y);
    assert(size((u + v) - (c + e)) <= 10real * (k / 16777216real) + 2real * t);
    assert(size(c + e) <= k);
    assert(size(u + v) <= 2real * k + 2real * t);
}

/// A first-order step, in rounded operations, is the weighted mean of the input and the
/// previous output within rounding: the input has the weight of the step and the previous
/// output that of the time constant.
pub proof fn lemma_blended(x: F32, p: F32, tc: F32, dt: F32)
    requires
        x.is_finite(),
        p.is_finite(),
        tc.is_finite(),
        dt.is_finite(),
        tc.exact() >= 0real,
        dt.exact() > 0real,
        tc.plus(dt).is_finite(),
        blended(
            blend(tc, dt),
            x,
            p,
        ).is_finite(),
    ensures
        tc.exact() + dt.exact() > 0real,
        size(
            blended(
                blend(tc, dt),
                x,
                p,
            ).exact() - (share(dt.exact(), 0real, tc.exact() + dt.exact()) * x.exact() + (1real
                - share(dt.exact(), 0real, tc.exact() + dt.exact())) * p.exact()),
        ) <= play(x.exact(), p.exact()),
{
    let (zero, unit) = (F32 { bits: 0 }, F32 { bits: 0x3f80_0000 });
    lemma_constants();
    lemma_single_rounding();
    let d = tc.plus(dt);
    let q = dt.over(d);
    let a = blend(tc, dt);
    let b = unit.minus(a);
    let u = a.times(x);
    let v = b.times(p);
    lemma_single_operands(u, v);
    lemma_single_operands(a, x);
    lemma_single_operands(b, p);
    law_single_arithmetic(tc, dt);
    law_single_order(d, zero);
    let t = smallest(Format::Binary32);
    let s = share(dt.exact(), 0real, tc.exact() + dt.exact());
    lemma_small_quotient(dt, d);
    law_single_arithmetic(dt, d);
    lemma_ratio(dt.exact(), d.exact(), q.exact(), dt.exact(), tc.exact() + dt.exact(), t);
    law_single_order(q, zero);
    law_single_order(unit, q);
    law_single_arithmetic(unit, a);
    law_single_arithmetic(a, x);
    law_single_arithmetic(b, p);
    law_single_arithmetic(u, v);
    lemma_weights(
        x.exact(),
        p.exact(),
        a.exact(),
        b.exact(),
        u.exact(),
        v.exact(),
        u.plus(v).exact(),
        s,
        t,
    );
}

} // verus!
