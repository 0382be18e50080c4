//! Square roots.

use super::num::{is_inf, is_nan, nan, near, Format, Num};
use super::round::{bit_length, is_truncation, power_of_two, round_truncation, units, up};
use vstd::arithmetic::power2::*;
use vstd::prelude::*;

verus! {

/// The whole part of the square root of `n`.
pub open spec fn floor_root(n: nat) -> nat {
    choose|r: nat| is_floor_root(r, n)
}

/// Whether `r` is the whole part of the square root of `n`.
pub open spec fn is_floor_root(r: nat, n: nat) -> bool {
    r * r <= n < (r + 1) * (r + 1)
}

/// The whole part of a square root, doubled, and one more where a fraction is left.
pub open spec fn marked_root(n: nat) -> nat {
    let r = floor_root(n);
    2 * r + if r * r == n {
        0nat
    } else {
        1
    }
}

/// The square root of a binary32 number.
///
/// The root of a positive number is at least `2^74` units, so its whole part and
/// the mark of a left fraction decide the rounding.
pub open spec fn root(a: Num) -> Num {
    let f = Format::Binary32;
    if is_nan(f, a) {
        nan(f)
    } else if a.mag == 0 {
        a
    } else if a.neg {
        nan(f)
    } else if is_inf(f, a) {
        a
    } else {
        Num { neg: false, mag: near(f, marked_root(units(a.mag as nat, f.p()) * pow2(f.scale())), 2) }
    }
}

/// The whole part of the square root of `n`.
fn integer_root(n: u64) -> (r: u64)
    ensures
        is_floor_root(r as nat, n as nat),
        r <= 0xffff_ffff,
{
    let mut lo: u64 = 0;
    let mut hi: u64 = 0x1_0000_0000;
    while hi - lo > 1
        invariant
            lo < hi <= 0x1_0000_0000,
            lo * lo <= n < hi * hi,
        decreases hi - lo,
    {
        let mid: u64 = lo + (hi - lo) / 2;
        assert(mid * mid <= 0xffff_ffff_ffff_ffff) by (nonlinear_arith)
            requires
                mid <= 0xffff_ffff,
        ;
        if mid * mid <= n {
            lo = mid;
        } else {
            hi = mid;
        }
    }
    lo
}

/// The truncated root of a scaled significand is a truncation of the whole root.
proof fn lemma_root_truncation(n: nat, m: nat, h: nat, s: nat)
    requires
        n == m * (pow2(h) * pow2(h)),
        is_floor_root(s, m),
    ensures
        is_truncation(marked_root(n), 2, s, h as int, s * s != m),
{
    let c = pow2(h);
    lemma_pow2_pos(h);
    lemma2_to64();
    let r = floor_root(n);
    lemma_some_floor_root(n);
    assert(is_floor_root(r, n));
    assert(n == (m * c) * c) by (nonlinear_arith)
        requires
            n == m * (c * c),
    ;
    assert((s * c) * (s * c) <= n < ((s + 1) * c) * ((s + 1) * c)) by (nonlinear_arith)
        requires
            n == (m * c) * c,
            s * s <= m,
            m < (s + 1) * (s + 1),
            c > 0,
    {
        assert((s * c) * (s * c) == (s * s) * (c * c));
        assert(((s + 1) * c) * ((s + 1) * c) == ((s + 1) * (s + 1)) * (c * c));
        assert((m * c) * c == m * (c * c));
        assert(c * c > 0);
        assert((s * s) * (c * c) <= m * (c * c));
        assert(m * (c * c) < ((s + 1) * (s + 1)) * (c * c));
    }
    let lo = s * c;
    let hi = (s + 1) * c;
    assert(lo <= r < hi) by (nonlinear_arith)
        requires
            lo * lo <= n,
            n < hi * hi,
            r * r <= n,
            n < (r + 1) * (r + 1),
            lo >= 0,
            hi >= 0,
            r >= 0,
    {
        if r < lo {
            assert((r + 1) * (r + 1) <= lo * lo);
        }
        if hi <= r {
            assert(hi * hi <= r * r);
        }
    }
    assert(s * s == m <==> lo * lo == n) by (nonlinear_arith)
        requires
            n == (m * c) * c,
            lo == s * c,
            c > 0,
    {
        assert(lo * lo == (s * s) * (c * c));
        assert(n == m * (c * c));
        assert(c * c > 0);
    }
    assert(s * (c * 2) == 2 * lo && (s + 1) * (c * 2) == 2 * hi) by (nonlinear_arith)
        requires
            lo == s * c,
            hi == (s + 1) * c,
    ;
    assert(r == lo ==> r * r == lo * lo);
    assert(r != lo ==> lo * lo < r * r) by (nonlinear_arith)
        requires
            lo <= r,
            lo >= 0,
    ;
    assert(up(h as int) == h && up(-(h as int)) == 0);
    assert(marked_root(n) * pow2(0) == marked_root(n));
}

/// Every number has a whole square root part.
pub(crate) proof fn lemma_some_floor_root(n: nat)
    ensures
        is_floor_root(floor_root(n), n),
    decreases n,
{
    if n == 0 {
        assert(is_floor_root(0, 0)) by (nonlinear_arith);
    } else {
        lemma_some_floor_root((n - 1) as nat);
        let r = floor_root((n - 1) as nat);
        if n < (r + 1) * (r + 1) {
            assert(is_floor_root(r, n));
        } else {
            assert((r + 2) * (r + 2) > (r + 1) * (r + 1)) by (nonlinear_arith);
            assert(is_floor_root(r + 1, n));
        }
    }
}

/// Takes the square root.
pub fn square_root(a: Num) -> (r: Num)
    ensures
        r == root(a),
{
    let f = Format::Binary32;
    if a.mag > 0x7f80_0000 {
        return Num { neg: false, mag: 0x7fc0_0000 };
    }
    if a.mag == 0 {
        return a;
    }
    if a.neg {
        return Num { neg: false, mag: 0x7fc0_0000 };
    }
    if a.mag == 0x7f80_0000 {
        return a;
    }
    let (m, k) = super::num::decode(f, a.mag);
    let l: u32 = bit_length(m as u128);
    proof {
        lemma2_to64();
        lemma2_to64_rest();
        if l > 24 {
            if l > 25 {
                lemma_pow2_strictly_increases(24, (l - 1) as nat);
            }
        }
    }
    assert(l <= 24);
    let wide: u32 = 62 - l;
    let sh: u32 = if (k as u32 + 149 + wide) % 2 == 0 {
        wide
    } else {
        wide + 1
    };
    let w: u128 = power_of_two(sh);
    let h: i32 = (k + 149 - sh as i32) / 2;
    proof {
        lemma_pow2_adds(l as nat, sh as nat);
        lemma_pow2_adds((l - 1) as nat, sh as nat);
        lemma_pow2_pos(sh as nat);
        if l + sh < 63 {
            lemma_pow2_strictly_increases((l + sh) as nat, 63);
        }
        assert(pow2((l - 1 + sh) as nat) <= m * w < pow2((l + sh) as nat)) by (nonlinear_arith)
            requires
                pow2((l - 1) as nat) <= m < pow2(l as nat),
                w == pow2(sh as nat),
                w > 0,
                pow2((l - 1 + sh) as nat) == pow2((l - 1) as nat) * pow2(sh as nat),
                pow2((l + sh) as nat) == pow2(l as nat) * pow2(sh as nat),
        ;
        assert(pow2(61) <= m * w) by {
            if l - 1 + sh > 61 {
                lemma_pow2_strictly_increases(61, (l - 1 + sh) as nat);
            }
        }
    }
    let x: u64 = ((m as u128) * w) as u64;
    let s: u64 = integer_root(x);
    let ghost n = units(a.mag as nat, f.p()) * pow2(f.scale());
    proof {
        assert(h * 2 + sh == k + 149);
        lemma_pow2_adds(h as nat, h as nat);
        lemma_pow2_adds((h + h) as nat, sh as nat);
        lemma_pow2_adds(k as nat, 149);
        assert(n == x * (pow2(h as nat) * pow2(h as nat))) by (nonlinear_arith)
            requires
                n == (m * pow2(k as nat)) * pow2(149),
                x == m * pow2(sh as nat),
                (pow2(h as nat) * pow2(h as nat)) * pow2(sh as nat) == pow2(k as nat) * pow2(149),
        ;
        lemma_root_truncation(n, x as nat, h as nat, s as nat);
        assert(s >= pow2(24)) by (nonlinear_arith)
            requires
                pow2(24) == 0x100_0000,
                x >= 0x2000_0000_0000_0000,
                x < (s + 1) * (s + 1),
        ;
        assert(pow2(127) == 0x8000_0000_0000_0000_0000_0000_0000_0000) by {
            lemma_pow2_adds(64, 63);
        }
        assert(s * s <= 0xffff_ffff_ffff_ffff) by (nonlinear_arith)
            requires
                s <= 0xffff_ffff,
        ;
    }
    let mag: u64 = round_truncation(
        s as u128,
        h,
        s * s != x,
        24,
        0xff,
        Ghost(marked_root(n)),
        Ghost(2nat),
    );
    Num { neg: false, mag }
}

} // verus!
