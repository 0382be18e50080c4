//! Rounding to nearest, ties to even, for any binary format.
//!
//! A format has a precision `p` (bits of significand) and a reserved exponent
//! field `top`, which marks infinities and NaNs. A magnitude is the bits of a
//! number without its sign: the exponent field above `p - 1` fraction bits.

use vstd::arithmetic::div_mod::*;
use vstd::arithmetic::mul::*;
use vstd::arithmetic::power2::*;
use vstd::prelude::*;

verus! {

/// The number of low bits of `v` that do not fit in `p` bits.
pub open spec fn excess(v: nat, p: nat) -> nat
    decreases v,
{
    if v < pow2(p) || v == 0 {
        0
    } else {
        1 + excess(v / 2, p)
    }
}

/// The integer nearest to `n / d`; of two equally near, the even one.
pub open spec fn nearest_even(n: nat, d: nat) -> nat {
    let q = n / d;
    let r = n % d;
    if 2 * r < d || (2 * r == d && q % 2 == 0) {
        q
    } else {
        q + 1
    }
}

/// The magnitude bits of the infinity of a format.
pub open spec fn infinity_mag(p: nat, top: nat) -> nat {
    top * pow2((p - 1) as nat)
}

/// The magnitude bits of the representable number nearest to `n / d` units.
pub open spec fn round_mag(n: nat, d: nat, p: nat, top: nat) -> nat {
    let s = excess(n / d, p);
    let mag = s * pow2((p - 1) as nat) + nearest_even(n, d * pow2(s));
    if mag < infinity_mag(p, top) {
        mag
    } else {
        infinity_mag(p, top)
    }
}

/// The value of magnitude bits, in units of the smallest subnormal.
pub open spec fn units(mag: nat, p: nat) -> nat {
    let hidden = pow2((p - 1) as nat);
    let e = mag / hidden;
    let f = mag % hidden;
    if e == 0 {
        f
    } else {
        (f + hidden) * pow2((e - 1) as nat)
    }
}

/// `excess` by its bounds.
pub proof fn lemma_excess(v: nat, p: nat, s: nat)
    requires
        s == 0 ==> v < pow2(p),
        s > 0 ==> pow2((p + s - 1) as nat) <= v < pow2(p + s),
    ensures
        excess(v, p) == s,
    decreases s,
{
    lemma_pow2_pos(p);
    if s > 0 {
        let t = (s - 1) as nat;
        lemma_pow2_unfold((p + s) as nat);
        if s == 1 {
            assert(v / 2 < pow2(p));
        } else {
            lemma_pow2_unfold((p + s - 1) as nat);
        }
        assert(pow2(p) <= v) by {
            if s > 1 {
                lemma_pow2_strictly_increases(p, (p + s - 1) as nat);
            }
        }
        lemma_excess(v / 2, p, t);
    }
}

/// Scaling both sides of a quotient does not change its rounding.
pub proof fn lemma_nearest_even_scale(n: nat, d: nat, c: nat)
    requires
        d > 0,
        c > 0,
    ensures
        nearest_even(n * c, d * c) == nearest_even(n, d),
{
    let q = n / d;
    let r = n % d;
    lemma_fundamental_div_mod(n as int, d as int);
    assert(n * c == q * (d * c) + r * c) by (nonlinear_arith)
        requires
            n == d * q + r,
    ;
    assert(0 <= r * c < d * c) by (nonlinear_arith)
        requires
            0 <= r < d,
            c > 0,
    ;
    lemma_fundamental_div_mod_converse((n * c) as int, (d * c) as int, q as int, (r * c) as int);
    assert(2 * (r * c) < d * c <==> 2 * r < d) by (nonlinear_arith)
        requires
            c > 0,
    ;
    assert(2 * (r * c) == d * c <==> 2 * r == d) by (nonlinear_arith)
        requires
            c > 0,
    ;
}

/// Rounding a quotient that is known down to `1 / 2^t` of the result's step.
proof fn lemma_nearest_even_dropped(x: nat, e: nat, m: nat, w: nat, h: nat, sticky: bool)
    requires
        e > 0,
        w == 2 * h,
        h > 0,
        m * e <= x < (m + 1) * e,
        sticky == (m * e != x),
    ensures
        nearest_even(x, e * w) == if m % w > h || (m % w == h && (sticky || (m / w) % 2 == 1)) {
            m / w + 1
        } else {
            m / w
        },
{
    let q = m / w;
    let r = m % w;
    let delta = (x - m * e) as nat;
    lemma_fundamental_div_mod(m as int, w as int);
    assert(delta < e) by (nonlinear_arith)
        requires
            x < (m + 1) * e,
            delta == x - m * e,
    ;
    assert(x == q * (e * w) + (r * e + delta)) by (nonlinear_arith)
        requires
            m == w * q + r,
            x == m * e + delta,
    ;
    assert(r * e + delta < e * w) by (nonlinear_arith)
        requires
            r < w,
            delta < e,
    ;
    let rem = r * e + delta;
    lemma_fundamental_div_mod_converse(x as int, (e * w) as int, q as int, rem as int);
    assert(e * w == 2 * (h * e)) by (nonlinear_arith)
        requires
            w == 2 * h,
    ;
    if r > h {
        assert(rem > h * e) by (nonlinear_arith)
            requires
                r >= h + 1,
                e > 0,
                rem == r * e + delta,
                delta >= 0,
        ;
    } else if r < h {
        assert(rem < h * e) by (nonlinear_arith)
            requires
                r + 1 <= h,
                rem == r * e + delta,
                delta < e,
        ;
    }
}

/// The number of bits of `m`.
pub fn bit_length(m: u128) -> (l: u32)
    ensures
        l <= 128,
        m == 0 <==> l == 0,
        m < pow2(l as nat),
        l > 0 ==> pow2((l - 1) as nat) <= m,
{
    let mut l: u32 = 0;
    let mut rest: u128 = m;
    proof {
        lemma2_to64();
        lemma2_to64_rest();
        lemma_pow2_adds(64, 64);
        assert(pow2(128) == 0x1_0000_0000_0000_0000_0000_0000_0000_0000);
        assert(m == m * pow2(0));
    }
    while rest > 0
        invariant
            l <= 128,
            rest * pow2(l as nat) <= m < (rest + 1) * pow2(l as nat),
            rest < pow2((128 - l) as nat),
            l > 0 ==> pow2((l - 1) as nat) <= m || rest > 0,
            m == 0 ==> l == 0,
            l == 0 ==> rest == m,
        decreases rest,
    {
        proof {
            if l == 128 {
                lemma2_to64();
            }
            lemma_pow2_unfold((l + 1) as nat);
            lemma_pow2_unfold((128 - l) as nat);
            let w = pow2(l as nat);
            assert((rest / 2) * (2 * w) <= rest * w) by (nonlinear_arith)
                requires
                    rest >= 0,
                    w >= 0,
            ;
            assert((rest + 1) * w <= (rest / 2 + 1) * (2 * w)) by (nonlinear_arith)
                requires
                    rest >= 0,
                    w >= 0,
            ;
            assert(w <= rest * w) by (nonlinear_arith)
                requires
                    rest >= 1,
                    w >= 0,
            ;
        }
        rest = rest / 2;
        l = l + 1;
    }
    assert((rest + 1) * pow2(l as nat) == pow2(l as nat)) by (nonlinear_arith)
        requires
            rest == 0,
    ;
    l
}

/// Two to the power `t`.
pub fn power_of_two(t: u32) -> (w: u128)
    requires
        t < 128,
    ensures
        w == pow2(t as nat),
{
    let mut w: u128 = 1;
    let mut i: u32 = 0;
    proof {
        lemma2_to64();
    }
    while i < t
        invariant
            i <= t < 128,
            w == pow2(i as nat),
        decreases t - i,
    {
        proof {
            lemma_pow2_unfold((i + 1) as nat);
            lemma2_to64();
            lemma2_to64_rest();
            lemma_pow2_adds(64, 63);
            if i + 1 < 127 {
                lemma_pow2_strictly_increases((i + 1) as nat, 127);
            }
            assert(pow2(127) == 0x8000_0000_0000_0000_0000_0000_0000_0000);
        }
        w = w * 2;
        i = i + 1;
    }
    w
}

/// The positive and negative parts of an exponent.
pub open spec fn up(k: int) -> nat {
    if k > 0 {
        k as nat
    } else {
        0
    }
}

/// `n / d` units is known as `m` steps of `2^k` units, and, where `sticky`, a part of one more.
pub open spec fn is_truncation(n: nat, d: nat, m: nat, k: int, sticky: bool) -> bool {
    &&& d > 0
    &&& m * (pow2(up(k)) * d) <= n * pow2(up(-k)) < (m + 1) * (pow2(up(k)) * d)
    &&& sticky == (m * (pow2(up(k)) * d) != n * pow2(up(-k)))
}

/// The excess of a truncated quotient, from the bit length of what is known of it.
proof fn lemma_truncated_excess(n: nat, d: nat, m: nat, k: int, sticky: bool, p: nat, l: nat)
    requires
        is_truncation(n, d, m, k, sticky),
        l > 0,
        pow2((l - 1) as nat) <= m < pow2(l),
    ensures
        excess(n / d, p) == up(l + k - p),
{
    let a = up(k);
    let b = up(-k);
    let s = up(l + k - p);
    lemma_pow2_pos(a);
    lemma_pow2_pos(b);
    let x = n * pow2(b);
    let e = pow2(a) * d;
    lemma_pow2_adds(l, a);
    lemma_pow2_adds((l - 1) as nat, a);
    assert(d * pow2((l - 1 + a) as nat) <= x) by (nonlinear_arith)
        requires
            m * e <= x,
            e == pow2(a) * d,
            pow2((l - 1) as nat) <= m,
            pow2((l - 1 + a) as nat) == pow2((l - 1) as nat) * pow2(a),
    ;
    assert(x < d * pow2(l + a)) by (nonlinear_arith)
        requires
            x < (m + 1) * e,
            e == pow2(a) * d,
            m + 1 <= pow2(l),
            pow2(l + a) == pow2(l) * pow2(a),
    ;
    if s > 0 {
        let j = (p + s) as nat;
        assert(j + b == l + a);
        lemma_pow2_adds(j, b);
        lemma_pow2_adds((j - 1) as nat, b);
        assert(d * pow2((j - 1) as nat) <= n) by (nonlinear_arith)
            requires
                d * (pow2((j - 1) as nat) * pow2(b)) <= n * pow2(b),
                pow2(b) > 0,
        ;
        assert(n < d * pow2(j)) by (nonlinear_arith)
            requires
                n * pow2(b) < d * (pow2(j) * pow2(b)),
                pow2(b) > 0,
        ;
        lemma_quotient_bounds(n, d, pow2((j - 1) as nat), pow2(j));
    } else {
        assert(l + a <= p + b);
        if l + a < p + b {
            lemma_pow2_strictly_increases(l + a, p + b);
        }
        lemma_pow2_adds(p, b);
        assert(n < d * pow2(p)) by (nonlinear_arith)
            requires
                n * pow2(b) < d * pow2(l + a),
                pow2(l + a) <= pow2(p) * pow2(b),
                d > 0,
                pow2(b) > 0,
        ;
        lemma_quotient_bounds(n, d, 0, pow2(p));
    }
    lemma_excess(n / d, p, s);
}

/// Bounds on a quotient from bounds on its numerator.
pub proof fn lemma_quotient_bounds(n: nat, d: nat, lo: nat, hi: nat)
    requires
        d > 0,
        d * lo <= n < d * hi,
    ensures
        lo <= n / d < hi,
{
    lemma_fundamental_div_mod(n as int, d as int);
    let q = n / d;
    assert(d * (q + 1) == d * q + d) by (nonlinear_arith);
    assert(lo <= q) by (nonlinear_arith)
        requires
            d * lo <= n,
            n < d * (q + 1),
            d > 0,
    {
        if q + 1 <= lo {
            assert(d * (q + 1) <= d * lo);
        }
    }
    assert(q < hi) by (nonlinear_arith)
        requires
            d * q <= n,
            n < d * hi,
            d > 0,
    {
        if hi <= q {
            assert(d * hi <= d * q);
        }
    }
}

/// Rounds the quotient `n / d` units, known by its truncation.
pub(crate) fn round_truncation(
    m: u128,
    k: i32,
    sticky: bool,
    p: u32,
    top: u32,
    n: Ghost<nat>,
    d: Ghost<nat>,
) -> (mag: u64)
    requires
        2 <= p <= 53,
        0 < top <= 0x7ff,
        -5000 <= k <= 5000,
        m < pow2(127),
        is_truncation(n@, d@, m as nat, k as int, sticky),
        sticky ==> m >= pow2(p as nat),
    ensures
        mag == round_mag(n@, d@, p as nat, top as nat),
{
    let l: u32 = bit_length(m);
    let hidden: u128 = power_of_two(p - 1);
    proof {
        lemma2_to64();
        lemma_pow2_pos(p as nat);
        lemma_pow2_pos((p - 1) as nat);
        if p < 53 {
            lemma_pow2_strictly_increases((p - 1) as nat, 52);
        }
        assert(pow2(52) == 0x10_0000_0000_0000) by {
            lemma2_to64_rest();
        }
        assert(0 <= top * hidden <= 0x7ff * 0x10_0000_0000_0000) by (nonlinear_arith)
            requires
                0 <= top <= 0x7ff,
                0 <= hidden <= 0x10_0000_0000_0000,
        ;
    }
    let infinity: u128 = (top as u128) * hidden;
    if m == 0 {
        proof {
            lemma_pow2_pos(up(-k));
            assert(n@ == 0) by (nonlinear_arith)
                requires
                    n@ * pow2(up(-k)) == m * (pow2(up(k as int)) * d@),
                    m == 0,
                    pow2(up(-k)) > 0,
            ;
            lemma_small_div_zero(d@);
            lemma_excess(0, p as nat, 0);
        }
        return 0;
    }
    let e: i32 = l as i32 + k - p as i32;
    let s: i32 = if e > 0 { e } else { 0 };
    let t: i32 = s - k;
    let ghost g = nearest_even(n@, d@ * pow2(s as nat));
    proof {
        lemma_truncated_excess(n@, d@, m as nat, k as int, sticky, p as nat, l as nat);
    }
    let q: u128 = if t <= 0 {
        assert(!sticky) by {
            if sticky {
                lemma_pow2_order(p as nat, l as nat, m as nat);
            }
        }
        proof {
            lemma_exact_step(n@, d@, m as nat, k as int, s as nat);
        }
        assert(-t <= p - l);
        let w: u128 = power_of_two((-t) as u32);
        assert(m * w < pow2(p as nat)) by {
            lemma_pow2_pos((-t) as nat);
            lemma_pow2_adds((-t) as nat, l as nat);
            if l - t < p {
                lemma_pow2_strictly_increases((l - t) as nat, p as nat);
            }
            assert(m * w < pow2(l as nat) * w) by (nonlinear_arith)
                requires
                    m < pow2(l as nat),
                    w > 0,
            ;
            assert(pow2(l as nat) * w == w * pow2(l as nat)) by (nonlinear_arith);
        }
        proof {
            if p < 53 {
                lemma_pow2_strictly_increases(p as nat, 53);
            }
            lemma_pow2_unfold(53);
        }
        m * w
    } else {
        proof {
            lemma_dropped_step(n@, d@, m as nat, k as int, sticky, s as nat);
        }
        if t >= 128 {
            proof {
                lemma_pow2_unfold(t as nat);
                if t > 128 {
                    lemma_pow2_strictly_increases(127, (t - 1) as nat);
                }
                lemma_small_mod(m as nat, pow2(t as nat));
                lemma_basic_div(m as int, pow2(t as nat) as int);
            }
            0
        } else {
            let w: u128 = power_of_two(t as u32);
            let h: u128 = w / 2;
            proof {
                lemma_pow2_unfold(t as nat);
                lemma_pow2_pos((t - 1) as nat);
                lemma_div_nonincreasing(m as int, w as int);
                lemma2_to64_rest();
                lemma_pow2_adds(64, 63);
                assert(pow2(127) == 0x8000_0000_0000_0000_0000_0000_0000_0000);
            }
            let q0: u128 = m / w;
            let r: u128 = m % w;
            if r > h || (r == h && (sticky || q0 % 2 == 1)) {
                q0 + 1
            } else {
                q0
            }
        }
    };
    assert(q == g);
    if s >= top as i32 {
        assert(s * hidden >= infinity) by (nonlinear_arith)
            requires
                s >= top,
                infinity == top * hidden,
                hidden >= 0,
        ;
        infinity as u64
    } else {
        assert(0 <= s * hidden < infinity) by (nonlinear_arith)
            requires
                0 <= s < top,
                infinity == top * hidden,
                hidden > 0,
        ;
        let base: u128 = (s as u128) * hidden;
        if q >= infinity - base {
            infinity as u64
        } else {
            (base + q) as u64
        }
    }
}

proof fn lemma_small_div_zero(d: nat)
    requires
        d > 0,
    ensures
        0nat / d == 0,
        nearest_even(0, d * pow2(0)) == 0,
{
    lemma2_to64();
    lemma_div_of0(d as int);
    lemma_small_mod(0, d);
}

/// A number of `l` bits that is at least `2^p` has more than `p` bits.
proof fn lemma_pow2_order(p: nat, l: nat, m: nat)
    requires
        pow2(p) <= m < pow2(l),
    ensures
        p < l,
{
    if l < p {
        lemma_pow2_strictly_increases(l, p);
    }
}

/// A quotient that is exact in steps no finer than the result's.
proof fn lemma_exact_step(n: nat, d: nat, m: nat, k: int, s: nat)
    requires
        is_truncation(n, d, m, k, false),
        s <= k,
    ensures
        nearest_even(n, d * pow2(s)) == m * pow2((k - s) as nat),
{
    lemma2_to64();
    let w = pow2((k - s) as nat);
    lemma_pow2_adds(s, (k - s) as nat);
    lemma_pow2_pos(s);
    assert(up(k) == k as nat);
    assert(up(-k) == 0);
    let q = m * w;
    assert(n == q * (d * pow2(s))) by (nonlinear_arith)
        requires
            n * 1 == m * ((pow2(s) * w) * d),
            q == m * w,
    ;
    assert(d * pow2(s) > 0) by (nonlinear_arith)
        requires
            d > 0,
            pow2(s) > 0,
    ;
    lemma_fundamental_div_mod_converse(n as int, (d * pow2(s)) as int, q as int, 0);
}

/// A quotient that is known in steps finer than the result's.
proof fn lemma_dropped_step(n: nat, d: nat, m: nat, k: int, sticky: bool, s: nat)
    requires
        is_truncation(n, d, m, k, sticky),
        s > k,
    ensures
        ({
            let w = pow2((s - k) as nat);
            let h = pow2((s - k - 1) as nat);
            nearest_even(n, d * pow2(s)) == if m % w > h || (m % w == h && (sticky || (m / w) % 2
                == 1)) {
                m / w + 1
            } else {
                m / w
            }
        }),
{
    let a = up(k);
    let b = up(-k);
    let t = (s - k) as nat;
    let w = pow2(t);
    let h = pow2((t - 1) as nat);
    lemma_pow2_unfold(t);
    lemma_pow2_pos((t - 1) as nat);
    lemma_pow2_pos(a);
    lemma_pow2_pos(b);
    lemma_pow2_pos(s);
    let x = n * pow2(b);
    let e = pow2(a) * d;
    assert(e > 0) by (nonlinear_arith)
        requires
            e == pow2(a) * d,
            pow2(a) > 0,
            d > 0,
    ;
    lemma_nearest_even_dropped(x, e, m, w, h, sticky);
    lemma_pow2_adds(s, b);
    lemma_pow2_adds(a, t);
    assert(s + b == a + t);
    let dd = d * pow2(s);
    assert(dd > 0) by (nonlinear_arith)
        requires
            dd == d * pow2(s),
            d > 0,
            pow2(s) > 0,
    ;
    assert(dd * pow2(b) == e * w) by (nonlinear_arith)
        requires
            dd == d * pow2(s),
            e == pow2(a) * d,
            pow2(s) * pow2(b) == pow2(a) * w,
    ;
    lemma_nearest_even_scale(n, dd, pow2(b));
}

/// The bounds that `excess` puts on a value.
pub proof fn lemma_excess_bounds(v: nat, p: nat)
    ensures
        v < pow2(p + excess(v, p)),
        excess(v, p) > 0 ==> pow2((p + excess(v, p) - 1) as nat) <= v,
    decreases v,
{
    lemma_pow2_pos(p);
    if v >= pow2(p) && v != 0 {
        lemma_excess_bounds(v / 2, p);
        let t = excess(v / 2, p);
        lemma_pow2_unfold((p + t + 1) as nat);
        if t > 0 {
            lemma_pow2_unfold((p + t) as nat);
        }
    }
}

} // verus!
