//! Rounding of exact quotients of any size.

use super::num::{decode, lemma_units_increase, near, Format};
use super::round::{
    excess, infinity_mag, lemma_excess, lemma_excess_bounds, lemma_quotient_bounds, nearest_even,
    round_mag, units,
};
use crate::big::Big;
use crate::builtins::scalars::Order;
use vstd::arithmetic::div_mod::*;
use vstd::arithmetic::power2::*;
use vstd::prelude::*;

verus! {

/// The step from one magnitude to the next.
pub open spec fn step(b: nat, p: nat) -> nat {
    let e = b / pow2((p - 1) as nat);
    if e == 0 {
        1
    } else {
        pow2((e - 1) as nat)
    }
}

/// The next magnitude is one step away.
pub(crate) proof fn lemma_next(b: nat, p: nat)
    requires
        p >= 2,
    ensures
        units(b + 1, p) == units(b, p) + step(b, p),
{
    let h = pow2((p - 1) as nat);
    lemma_pow2_pos((p - 1) as nat);
    lemma2_to64();
    let e = b / h;
    let f = b % h;
    lemma_fundamental_div_mod(b as int, h as int);
    if f + 1 < h {
        lemma_fundamental_div_mod_converse((b + 1) as int, h as int, e as int, (f + 1) as int);
        if e > 0 {
            let c = pow2((e - 1) as nat);
            assert((f + 1 + h) * c == (f + h) * c + c) by (nonlinear_arith);
        }
    } else {
        assert(b + 1 == h * (e + 1)) by (nonlinear_arith)
            requires
                b == h * e + f,
                f + 1 == h,
        ;
        assert((e + 1) * h == h * (e + 1)) by (nonlinear_arith);
        lemma_fundamental_div_mod_converse((b + 1) as int, h as int, (e + 1) as int, 0);
        if e > 0 {
            let c = pow2((e - 1) as nat);
            lemma_pow2_unfold(e);
            assert(h * (2 * c) == (f + h) * c + c) by (nonlinear_arith)
                requires
                    f + 1 == h,
            ;
        } else {
            assert(h * pow2(0) == h) by (nonlinear_arith)
                requires
                    pow2(0) == 1,
            ;
        }
    }
}

/// The magnitude that a quotient rounds to before saturation, from the magnitude just below it.
pub(crate) proof fn lemma_bracket(n: nat, d: nat, b: nat, p: nat)
    requires
        p >= 2,
        d > 0,
        units(b, p) * d <= n < units(b + 1, p) * d,
    ensures
        ({
            let s = excess(n / d, p);
            let mag = s * pow2((p - 1) as nat) + nearest_even(n, d * pow2(s));
            let twice = (units(b, p) + units(b + 1, p)) * d;
            mag == if 2 * n < twice || (2 * n == twice && b % 2 == 0) {
                b
            } else {
                b + 1
            }
        }),
{
    let h = pow2((p - 1) as nat);
    lemma_pow2_pos((p - 1) as nat);
    lemma2_to64();
    lemma_pow2_unfold((p - 1) as nat);
    lemma_pow2_unfold(p);
    lemma_next(b, p);
    let e = b / h;
    let f = b % h;
    lemma_fundamental_div_mod(b as int, h as int);
    let u = units(b, p);
    let c = step(b, p);
    let s = if e == 0 {
        0
    } else {
        (e - 1) as nat
    };
    let q = if e == 0 {
        f
    } else {
        f + h
    };
    lemma_pow2_pos(s);
    assert(c == pow2(s));
    assert(u == q * c);
    assert(q < pow2(p));
    assert((q + 1) * c == q * c + c) by (nonlinear_arith);
    assert(d * u <= n < d * (u + c)) by (nonlinear_arith)
        requires
            u * d <= n < (u + c) * d,
    ;
    lemma_quotient_bounds(n, d, u, u + c);
    if e == 0 {
        lemma_excess(n / d, p, 0);
    } else {
        lemma_pow2_adds((p - 1) as nat, s);
        lemma_pow2_adds(p, s);
        assert(h * c <= q * c && q * c + c <= pow2(p) * c) by (nonlinear_arith)
            requires
                h <= q,
                q + 1 <= pow2(p),
                c > 0,
        ;
        if s > 0 {
            assert((p + s - 1) as nat == (p - 1) as nat + s);
        } else {
            assert(pow2(0) == 1);
            assert(pow2(p) * c == pow2(p)) by (nonlinear_arith)
                requires
                    c == 1,
            ;
        }
        lemma_excess(n / d, p, s);
    }
    let dd = d * c;
    let r = (n - u * d) as nat;
    assert(n == q * dd + r && r < dd) by (nonlinear_arith)
        requires
            u == q * c,
            dd == d * c,
            r == n - u * d,
            n < (u + c) * d,
    ;
    lemma_fundamental_div_mod_converse(n as int, dd as int, q as int, r as int);
    assert((u + (u + c)) * d == 2 * (u * d) + dd) by (nonlinear_arith)
        requires
            dd == d * c,
    ;
    assert(s * h + q == b) by (nonlinear_arith)
        requires
            b == h * e + f,
            e == 0 ==> s == 0 && q == f,
            e > 0 ==> s == e - 1 && q == f + h,
    ;
    assert(q % 2 == b % 2) by {
        let g = pow2((p - 2) as nat);
        assert(h == 2 * g);
        assert(s * h == 2 * (s * g)) by (nonlinear_arith)
            requires
                h == 2 * g,
        ;
    }
}

/// A quotient at or above the units of infinity saturates.
pub proof fn lemma_saturates(n: nat, d: nat, p: nat, top: nat)
    requires
        p >= 2,
        d > 0,
        top >= 2,
        n >= (pow2((p - 1) as nat) * pow2((top - 1) as nat)) * d,
    ensures
        round_mag(n, d, p, top) == infinity_mag(p, top),
{
    let h = pow2((p - 1) as nat);
    let w = pow2((top - 1) as nat);
    let v = n / d;
    lemma_pow2_pos((p - 1) as nat);
    lemma_pow2_unfold(p);
    lemma_fundamental_div_mod(n as int, d as int);
    assert(v >= h * w) by (nonlinear_arith)
        requires
            n >= (h * w) * d,
            n < d * v + d,
            d > 0,
    {
        if v < h * w {
            assert(d * (v + 1) <= d * (h * w));
            assert(d * (v + 1) == d * v + d);
            assert(d * (h * w) == (h * w) * d);
        }
    }
    let s = excess(v, p);
    lemma_excess_bounds(v, p);
    lemma_pow2_adds(p, s);
    lemma_pow2_adds((p - 1) as nat, (top - 1) as nat);
    assert(s + 1 >= top) by {
        if s + 1 < top {
            lemma_pow2_adds((p - 1) as nat, (s + 1) as nat);
            assert((p - 1) + (s + 1) == p + s);
            if p + s < p - 1 + (top - 1) {
                lemma_pow2_strictly_increases(p + s, (p - 1 + (top - 1)) as nat);
            }
        }
    }
    assert(s > 0);
    let c = pow2(s);
    lemma_pow2_pos(s);
    lemma_pow2_adds((p - 1) as nat, s);
    assert((p + s - 1) as nat == (p - 1) as nat + s);
    let dd = d * c;
    assert(dd * h <= n) by (nonlinear_arith)
        requires
            h * c <= v,
            d * v <= n,
            dd == d * c,
            d > 0,
    {
        assert(d * (h * c) <= d * v);
        assert(dd * h == d * (h * c));
    }
    assert(dd > 0) by (nonlinear_arith)
        requires
            dd == d * c,
            d > 0,
            c > 0,
    ;
    lemma_fundamental_div_mod(n as int, dd as int);
    let q = n / dd;
    assert(h <= q) by (nonlinear_arith)
        requires
            dd * h <= n,
            n < dd * q + dd,
            dd > 0,
    {
        if q < h {
            assert(dd * (q + 1) <= dd * h);
            assert(dd * (q + 1) == dd * q + dd);
        }
    }
    assert(s * h + h >= top * h) by (nonlinear_arith)
        requires
            s + 1 >= top,
            h >= 0,
    ;
}

/// The magnitude nearest to a quotient of large integers, in units.
pub(crate) fn round_ratio(f: Format, n: &Big, d: &Big) -> (mag: u64)
    requires
        d.value() > 0,
    ensures
        mag == near(f, n.value(), d.value()),
{
    let (p, top, hidden, inf): (u32, u32, u64, u64) = match f {
        Format::Binary32 => (24, 0xff, 0x80_0000, 0x7f80_0000),
        Format::Binary64 => (53, 0x7ff, 0x10_0000_0000_0000, 0x7ff0_0000_0000_0000),
    };
    proof {
        super::num::lemma_format(f);
    }
    let edge: Big = d.times_plus(hidden, 0).shifted(top - 1);
    proof {
        let w = pow2((top - 1) as nat);
        assert((d.value() * hidden) * w == (hidden * w) * d.value()) by (nonlinear_arith);
    }
    match n.order(&edge) {
        Order::Less => {},
        _ => {
            proof {
                lemma_saturates(n.value(), d.value(), p as nat, top as nat);
            }
            return inf;
        },
    }
    let mut lo: u64 = 0;
    let mut hi: u64 = inf;
    proof {
        lemma2_to64();
        let h = hidden as nat;
        assert(inf as nat == h * top) by {
            match f {
                Format::Binary32 => {},
                Format::Binary64 => {},
            }
        }
        assert((top as nat) * h == h * top) by (nonlinear_arith);
        lemma_fundamental_div_mod_converse(inf as int, h as int, top as int, 0);
        assert(units(inf as nat, p as nat) == (0 + h) * pow2((top - 1) as nat));
        lemma_fundamental_div_mod_converse(0, h as int, 0, 0);
        assert(units(0, p as nat) == 0);
        assert(0 * d.value() == 0) by (nonlinear_arith);
    }
    while hi - lo > 1
        invariant
            p == f.p(),
            inf == f.inf(),
            lo < hi <= inf,
            units(lo as nat, p as nat) * d.value() <= n.value() < units(hi as nat, p as nat)
                * d.value(),
        decreases hi - lo,
    {
        let mid: u64 = lo + (hi - lo) / 2;
        let (m, k) = decode(f, mid);
        let t: Big = d.times_plus(m, 0).shifted(k as u32);
        proof {
            let w = pow2(k as nat);
            assert((d.value() * m) * w == (m * w) * d.value()) by (nonlinear_arith);
        }
        match n.order(&t) {
            Order::Less => {
                hi = mid;
            },
            _ => {
                lo = mid;
            },
        }
    }
    let (m, k) = decode(f, lo);
    let twice: Big = n.times_plus(2, 0);
    let middle: Big = d.times_plus(2 * m + 1, 0).shifted(k as u32);
    proof {
        lemma_bracket(n.value(), d.value(), lo as nat, p as nat);
        lemma_next(lo as nat, p as nat);
        lemma_decoded_step(f, lo, m, k);
        let w = pow2(k as nat);
        let x = d.value();
        let u = units(lo as nat, p as nat);
        assert((x * (2 * m + 1)) * w == (u + (u + w)) * x) by (nonlinear_arith)
            requires
                u == m * w,
        ;
    }
    match twice.order(&middle) {
        Order::Less => lo,
        Order::Equal => {
            if lo % 2 == 0 {
                lo
            } else {
                lo + 1
            }
        },
        Order::Greater => lo + 1,
    }
}

/// The exponent of a decoded magnitude is that of its step.
proof fn lemma_decoded_step(f: Format, mag: u64, m: u64, k: i32)
    requires
        mag < f.inf(),
        0 <= k,
        k == decoded_exponent(f, mag),
    ensures
        step(mag as nat, f.p()) == pow2(k as nat),
{
    lemma2_to64();
    super::num::lemma_format(f);
}

/// The power of two that a magnitude's significand is scaled by.
pub open spec fn decoded_exponent(f: Format, mag: u64) -> int {
    let e = mag as nat / pow2((f.p() - 1) as nat);
    if e == 0 {
        0
    } else {
        e - 1
    }
}

/// The greatest magnitude not above a quotient.
pub open spec fn floor_mag(n: nat, d: nat, p: nat) -> nat {
    let s = excess(n / d, p);
    s * pow2((p - 1) as nat) + n / (d * pow2(s))
}

/// A quotient lies between its floor magnitude and the next.
pub(crate) proof fn lemma_floor_mag(n: nat, d: nat, p: nat)
    requires
        p >= 2,
        d > 0,
    ensures
        units(floor_mag(n, d, p), p) * d <= n < units(floor_mag(n, d, p) + 1, p) * d,
{
    let h = pow2((p - 1) as nat);
    let s = excess(n / d, p);
    let c = pow2(s);
    let dd = d * c;
    let q = n / dd;
    let b = floor_mag(n, d, p);
    lemma_pow2_pos((p - 1) as nat);
    lemma_pow2_pos(s);
    lemma_pow2_unfold(p);
    lemma2_to64();
    lemma_excess_bounds(n / d, p);
    assert(dd > 0) by (nonlinear_arith)
        requires
            dd == d * c,
            d > 0,
            c > 0,
    ;
    lemma_fundamental_div_mod(n as int, dd as int);
    lemma_fundamental_div_mod(n as int, d as int);
    lemma_next(b, p);
    assert((q + 1) * dd == q * dd + dd) by (nonlinear_arith);
    assert(q * dd == dd * q) by (nonlinear_arith);
    assert(q * dd == (q * c) * d && (q + 1) * dd == (q * c + c) * d) by (nonlinear_arith)
        requires
            dd == d * c,
    ;
    assert(units(b, p) == q * c && step(b, p) == c) by {
        if s == 0 {
            assert(dd == d) by (nonlinear_arith)
                requires
                    dd == d * c,
                    c == 1,
            ;
            assert(0 * h == 0) by (nonlinear_arith);
            assert(b == q);
            assert(q * c == q) by (nonlinear_arith)
                requires
                    c == 1,
            ;
            if q < h {
                lemma_fundamental_div_mod_converse(b as int, h as int, 0, q as int);
            } else {
                assert(q == n / d);
                assert(p + s == p);
                assert(q < 2 * h);
                assert(b == 1 * h + (q - h));
                lemma_fundamental_div_mod_converse(b as int, h as int, 1, q - h);
                assert(pow2(0) == 1);
            }
        } else {
            let v = n / d;
            lemma_pow2_adds((p - 1) as nat, s);
            lemma_pow2_adds(p, s);
            assert((p + s - 1) as nat == (p - 1) as nat + s);
            assert(dd * h <= n < dd * (2 * h)) by (nonlinear_arith)
                requires
                    h * c <= v < (2 * h) * c,
                    d * v <= n < d * v + d,
                    dd == d * c,
                    d > 0,
            {
                assert(d * (h * c) <= d * v);
                assert(dd * h == d * (h * c));
                assert(d * (v + 1) <= d * ((2 * h) * c));
                assert(d * (v + 1) == d * v + d);
                assert(dd * (2 * h) == d * ((2 * h) * c));
            }
            lemma_quotient_bounds(n, dd, h, 2 * h);
            assert(b == (s + 1) * h + (q - h)) by (nonlinear_arith)
                requires
                    b == s * h + q,
            ;
            lemma_fundamental_div_mod_converse(b as int, h as int, (s + 1) as int, q - h);
        }
    }
}

/// A greater quotient rounds to a magnitude that is no less.
pub proof fn lemma_round_monotone(f: Format, n: nat, m: nat, d: nat)
    requires
        d > 0,
        n <= m,
    ensures
        near(f, n, d) <= near(f, m, d) <= f.inf(),
{
    super::num::lemma_format(f);
    let p = f.p();
    let a = floor_mag(n, d, p);
    let b = floor_mag(m, d, p);
    lemma_floor_mag(n, d, p);
    lemma_floor_mag(m, d, p);
    lemma_bracket(n, d, a, p);
    lemma_bracket(m, d, b, p);
    if b < a {
        if b + 1 < a {
            lemma_units_increase(f, b + 1, a);
        }
        let x = units(b + 1, p);
        let y = units(a, p);
        assert(x * d <= y * d) by (nonlinear_arith)
            requires
                x <= y,
                d > 0,
        ;
    }
}

/// A quotient below the units of a magnitude rounds to no more than it.
pub proof fn lemma_round_below(f: Format, n: nat, d: nat, b: nat)
    requires
        d > 0,
        n < units(b, f.p()) * d,
        b <= f.inf(),
    ensures
        near(f, n, d) <= b,
{
    super::num::lemma_format(f);
    let p = f.p();
    let a = floor_mag(n, d, p);
    lemma_floor_mag(n, d, p);
    lemma_bracket(n, d, a, p);
    if b <= a {
        if b < a {
            lemma_units_increase(f, b, a);
        }
        let x = units(b, p);
        let y = units(a, p);
        assert(x * d <= y * d) by (nonlinear_arith)
            requires
                x <= y,
                d > 0,
        ;
    }
}

} // verus!
