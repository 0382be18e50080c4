//! Arithmetic on sign and magnitude, for both formats.

use super::round::{
    bit_length, infinity_mag, is_truncation, lemma_excess, lemma_quotient_bounds, nearest_even,
    power_of_two, round_mag, round_truncation, units, up,
};
use vstd::arithmetic::div_mod::*;
use vstd::arithmetic::power2::*;
use vstd::prelude::*;

verus! {

/// A binary interchange format.
#[derive(Clone, Copy, PartialEq, Eq, Structural, Debug)]
pub enum Format {
    /// 32 bits, 24 of them significand.
    Binary32,
    /// 64 bits, 53 of them significand.
    Binary64,
}

/// A number of some format: its sign and its magnitude bits.
#[derive(Clone, Copy, PartialEq, Eq, Structural, Debug)]
pub struct Num {
    /// Whether the sign bit is set.
    pub neg: bool,
    /// The exponent field and the fraction.
    pub mag: u64,
}

impl Format {
    /// Bits of significand.
    pub open spec fn p(self) -> nat {
        match self {
            Format::Binary32 => 24,
            Format::Binary64 => 53,
        }
    }

    /// The exponent field of infinities and NaNs.
    pub open spec fn top(self) -> nat {
        match self {
            Format::Binary32 => 0xff,
            Format::Binary64 => 0x7ff,
        }
    }

    /// One is `2^scale` units.
    pub open spec fn scale(self) -> nat {
        match self {
            Format::Binary32 => 149,
            Format::Binary64 => 1074,
        }
    }

    /// The magnitude bits of infinity.
    pub open spec fn inf(self) -> nat {
        match self {
            Format::Binary32 => 0x7f80_0000,
            Format::Binary64 => 0x7ff0_0000_0000_0000,
        }
    }

    /// The magnitude bits of the quiet NaN without payload.
    pub open spec fn quiet(self) -> u64 {
        match self {
            Format::Binary32 => 0x7fc0_0000,
            Format::Binary64 => 0x7ff8_0000_0000_0000,
        }
    }

    fn precision(self) -> (r: u32)
        ensures
            r == self.p(),
    {
        match self {
            Format::Binary32 => 24,
            Format::Binary64 => 53,
        }
    }

    fn top_field(self) -> (r: u32)
        ensures
            r == self.top(),
    {
        match self {
            Format::Binary32 => 0xff,
            Format::Binary64 => 0x7ff,
        }
    }

    fn scale_bits(self) -> (r: i32)
        ensures
            r == self.scale(),
    {
        match self {
            Format::Binary32 => 149,
            Format::Binary64 => 1074,
        }
    }

    fn infinity(self) -> (r: u64)
        ensures
            r == self.inf(),
    {
        match self {
            Format::Binary32 => 0x7f80_0000,
            Format::Binary64 => 0x7ff0_0000_0000_0000,
        }
    }

    fn nan(self) -> (r: Num)
        ensures
            r == nan(self),
    {
        match self {
            Format::Binary32 => Num { neg: false, mag: 0x7fc0_0000 },
            Format::Binary64 => Num { neg: false, mag: 0x7ff8_0000_0000_0000 },
        }
    }
}

/// The constants of a format agree with its precision.
pub proof fn lemma_format(f: Format)
    ensures
        infinity_mag(f.p(), f.top()) == f.inf(),
        pow2((f.p() - 1) as nat) == match f {
            Format::Binary32 => 0x80_0000nat,
            Format::Binary64 => 0x10_0000_0000_0000nat,
        },
        pow2(f.p()) == match f {
            Format::Binary32 => 0x100_0000nat,
            Format::Binary64 => 0x20_0000_0000_0000nat,
        },
{
    lemma2_to64();
    lemma2_to64_rest();
    match f {
        Format::Binary32 => {
            assert(infinity_mag(24, 0xff) == 0xff * pow2(23));
        },
        Format::Binary64 => {
            assert(infinity_mag(53, 0x7ff) == 0x7ff * pow2(52));
        },
    }
}

/// The NaN that every invalid operation gives.
pub open spec fn nan(f: Format) -> Num {
    Num { neg: false, mag: f.quiet() }
}

/// Whether `a` is a NaN.
pub open spec fn is_nan(f: Format, a: Num) -> bool {
    a.mag > f.inf()
}

/// Whether `a` is an infinity.
pub open spec fn is_inf(f: Format, a: Num) -> bool {
    a.mag == f.inf()
}

/// Whether `a` is a number, zeros included.
pub open spec fn is_fin(f: Format, a: Num) -> bool {
    a.mag < f.inf()
}

/// The value of a finite number in units, with its sign.
pub open spec fn value(f: Format, a: Num) -> int {
    if a.neg {
        -(units(a.mag as nat, f.p()) as int)
    } else {
        units(a.mag as nat, f.p()) as int
    }
}

/// The magnitude nearest to `n / d` units.
pub open spec fn near(f: Format, n: nat, d: nat) -> u64 {
    round_mag(n, d, f.p(), f.top()) as u64
}

/// The absolute value of an integer.
pub open spec fn magnitude(v: int) -> nat {
    if v < 0 {
        (-v) as nat
    } else {
        v as nat
    }
}

/// The sum of two numbers.
pub open spec fn sum(f: Format, a: Num, b: Num) -> Num {
    if is_nan(f, a) || is_nan(f, b) {
        nan(f)
    } else if is_inf(f, a) {
        if is_inf(f, b) && a.neg != b.neg {
            nan(f)
        } else {
            a
        }
    } else if is_inf(f, b) {
        b
    } else {
        let v = value(f, a) + value(f, b);
        if v == 0 {
            Num { neg: a.neg && b.neg, mag: 0 }
        } else {
            Num { neg: v < 0, mag: near(f, magnitude(v), 1) }
        }
    }
}

/// The number with the opposite sign.
pub open spec fn opposite(a: Num) -> Num {
    Num { neg: !a.neg, mag: a.mag }
}

/// The product of two numbers.
pub open spec fn product(f: Format, a: Num, b: Num) -> Num {
    let neg = a.neg != b.neg;
    if is_nan(f, a) || is_nan(f, b) {
        nan(f)
    } else if is_inf(f, a) || is_inf(f, b) {
        if a.mag == 0 || b.mag == 0 {
            nan(f)
        } else {
            Num { neg, mag: f.inf() as u64 }
        }
    } else {
        Num {
            neg,
            mag: near(
                f,
                units(a.mag as nat, f.p()) * units(b.mag as nat, f.p()),
                pow2(f.scale()),
            ),
        }
    }
}

/// The quotient of two numbers.
pub open spec fn quotient(f: Format, a: Num, b: Num) -> Num {
    let neg = a.neg != b.neg;
    if is_nan(f, a) || is_nan(f, b) {
        nan(f)
    } else if is_inf(f, a) {
        if is_inf(f, b) {
            nan(f)
        } else {
            Num { neg, mag: f.inf() as u64 }
        }
    } else if is_inf(f, b) {
        Num { neg, mag: 0 }
    } else if b.mag == 0 {
        if a.mag == 0 {
            nan(f)
        } else {
            Num { neg, mag: f.inf() as u64 }
        }
    } else {
        Num {
            neg,
            mag: near(
                f,
                units(a.mag as nat, f.p()) * pow2(f.scale()),
                units(b.mag as nat, f.p()),
            ),
        }
    }
}

/// A finite magnitude as a significand and a power of two.
pub(crate) fn decode(f: Format, mag: u64) -> (r: (u64, i32))
    requires
        mag < f.inf(),
    ensures
        0 <= r.1 < f.top(),
        units(mag as nat, f.p()) == r.0 * pow2(r.1 as nat),
        r.0 < pow2(f.p()),
        r.1 > 0 ==> r.0 >= pow2((f.p() - 1) as nat),
        r.0 == 0 <==> mag == 0,
        r.1 == super::ratio::decoded_exponent(f, mag),
{
    proof {
        lemma_format(f);
        lemma2_to64();
    }
    let hidden: u64 = match f {
        Format::Binary32 => 0x80_0000,
        Format::Binary64 => 0x10_0000_0000_0000,
    };
    let e: u64 = mag / hidden;
    let m: u64 = mag % hidden;
    proof {
        assert(e < f.top() && m < hidden && mag == e * hidden + m) by {
            match f {
                Format::Binary32 => {},
                Format::Binary64 => {},
            }
        }
    }
    if e == 0 {
        assert(m * pow2(0) == m);
        (m, 0)
    } else {
        (m + hidden, e as i32 - 1)
    }
}

/// Only zero is zero units.
pub proof fn lemma_units_zero(f: Format, mag: nat)
    ensures
        units(mag, f.p()) == 0 <==> mag == 0,
{
    lemma_format(f);
    let hidden = pow2((f.p() - 1) as nat);
    let e = mag / hidden;
    let m = mag % hidden;
    lemma_fundamental_div_mod(mag as int, hidden as int);
    if e > 0 {
        lemma_pow2_pos((e - 1) as nat);
        assert((m + hidden) * pow2((e - 1) as nat) > 0) by (nonlinear_arith)
            requires
                m + hidden > 0,
                pow2((e - 1) as nat) > 0,
        ;
    }
}

/// A power of two below the widest shift.
proof fn lemma_wide(f: Format)
    ensures
        pow2(127) == 0x8000_0000_0000_0000_0000_0000_0000_0000,
        pow2(f.p()) <= pow2(53) == 0x20_0000_0000_0000,
        pow2(64) == 0x1_0000_0000_0000_0000,
{
    lemma2_to64();
    lemma2_to64_rest();
    lemma_pow2_adds(64, 63);
}

/// The product of two finite magnitudes.
fn multiply_finite(f: Format, x: u64, y: u64) -> (mag: u64)
    requires
        x < f.inf(),
        y < f.inf(),
    ensures
        mag == near(f, units(x as nat, f.p()) * units(y as nat, f.p()), pow2(f.scale())),
{
    let (mx, kx) = decode(f, x);
    let (my, ky) = decode(f, y);
    let b: i32 = f.scale_bits();
    let k: i32 = kx + ky - b;
    let ghost n = units(x as nat, f.p()) * units(y as nat, f.p());
    let ghost d = pow2(f.scale());
    proof {
        lemma_wide(f);
        assert(0 <= mx * my < 0x20_0000_0000_0000 * 0x20_0000_0000_0000) by (nonlinear_arith)
            requires
                0 <= mx < 0x20_0000_0000_0000,
                0 <= my < 0x20_0000_0000_0000,
        ;
        let m = (mx * my) as nat;
        let j = (kx + ky) as nat;
        lemma_pow2_adds(kx as nat, ky as nat);
        assert(n == m * pow2(j)) by (nonlinear_arith)
            requires
                n == (mx * pow2(kx as nat)) * (my * pow2(ky as nat)),
                m == mx * my,
                pow2(j) == pow2(kx as nat) * pow2(ky as nat),
        ;
        lemma_exact_truncation(n, d, m, j, f.scale(), k as int);
    }
    round_truncation(
        (mx as u128) * (my as u128),
        k,
        false,
        f.precision(),
        f.top_field(),
        Ghost(n),
        Ghost(d),
    )
}

/// `m * 2^j` units over `2^b` is `m` steps of `2^(j - b)` units.
proof fn lemma_exact_truncation(n: nat, d: nat, m: nat, j: nat, b: nat, k: int)
    requires
        n == m * pow2(j),
        d == pow2(b),
        k == j - b,
    ensures
        is_truncation(n, d, m, k, false),
{
    lemma_pow2_pos(b);
    lemma2_to64();
    lemma_pow2_adds(up(k), b);
    lemma_pow2_adds(j, up(-k));
    assert(up(k) + b == j + up(-k));
    let e = pow2(up(k)) * d;
    lemma_pow2_pos(up(k) + b);
    assert(m * e == n * pow2(up(-k))) by (nonlinear_arith)
        requires
            n == m * pow2(j),
            e == pow2(j) * pow2(up(-k)),
    ;
    assert((m + 1) * e > m * e) by (nonlinear_arith)
        requires
            e > 0,
    ;
}

/// The quotient of two finite magnitudes, the second not zero.
fn divide_finite(f: Format, x: u64, y: u64) -> (mag: u64)
    requires
        x < f.inf(),
        0 < y < f.inf(),
    ensures
        mag == near(f, units(x as nat, f.p()) * pow2(f.scale()), units(y as nat, f.p())),
{
    let (mx, kx) = decode(f, x);
    let (my, ky) = decode(f, y);
    let b: i32 = f.scale_bits();
    let l: u32 = bit_length(mx as u128);
    proof {
        lemma_wide(f);
        if l > 64 {
            lemma_pow2_strictly_increases(64, l as nat);
            if l > 65 {
                lemma_pow2_strictly_increases(64, (l - 1) as nat);
            }
        }
    }
    assert(l <= 64);
    let sh: u32 = 126 - l;
    let w: u128 = power_of_two(sh);
    let k: i32 = kx - ky + b - sh as i32;
    let ghost n = units(x as nat, f.p()) * pow2(f.scale());
    let ghost d = units(y as nat, f.p());
    proof {
        lemma_units_zero(f, y as nat);
        lemma_pow2_adds(sh as nat, l as nat);
        lemma_pow2_pos(sh as nat);
        lemma_pow2_unfold(127);
        assert(mx * w < pow2(126)) by (nonlinear_arith)
            requires
                mx < pow2(l as nat),
                w == pow2(sh as nat),
                w > 0,
                pow2(126) == pow2(sh as nat) * pow2(l as nat),
        ;
    }
    let num: u128 = (mx as u128) * w;
    let q: u128 = num / (my as u128);
    let r: u128 = num % (my as u128);
    proof {
        lemma_fundamental_div_mod(num as int, my as int);
        lemma_div_nonincreasing(num as int, my as int);
        let a = up(k as int);
        let c = up(-k);
        let j = (ky + a) as nat;
        assert(j + sh == kx + f.scale() + c);
        lemma_pow2_adds(a, ky as nat);
        lemma_pow2_adds(j, sh as nat);
        lemma_pow2_adds(kx as nat, f.scale());
        lemma_pow2_adds((kx + f.scale()) as nat, c);
        lemma_pow2_pos(j);
        let e = pow2(a) * d;
        assert(e == my * pow2(j)) by (nonlinear_arith)
            requires
                e == pow2(a) * d,
                d == my * pow2(ky as nat),
                pow2(j) == pow2(a) * pow2(ky as nat),
        ;
        assert(n * pow2(c) == num * pow2(j)) by (nonlinear_arith)
            requires
                n == (mx * pow2(kx as nat)) * pow2(f.scale()),
                num == mx * pow2(sh as nat),
                pow2(kx as nat) * pow2(f.scale()) * pow2(c) == pow2(j) * pow2(sh as nat),
        ;
        assert(q * e + r * pow2(j) == n * pow2(c)) by (nonlinear_arith)
            requires
                n * pow2(c) == num * pow2(j),
                e == my * pow2(j),
                num == my * q + r,
        ;
        assert(0 <= r * pow2(j) < e && (r == 0 <==> r * pow2(j) == 0)) by (nonlinear_arith)
            requires
                0 <= r < my,
                e == my * pow2(j),
                pow2(j) > 0,
        ;
        assert((q + 1) * e == q * e + e) by (nonlinear_arith);
        if r != 0 {
            lemma_wide_quotient(f, mx as nat, my as nat, l as nat, sh as nat, q as nat, r as nat);
        }
    }
    round_truncation(q, k, r != 0, f.precision(), f.top_field(), Ghost(n), Ghost(d))
}

/// A quotient of a widened significand has more bits than the format.
proof fn lemma_wide_quotient(f: Format, mx: nat, my: nat, l: nat, sh: nat, q: nat, r: nat)
    requires
        mx < pow2(l),
        l > 0 ==> pow2((l - 1) as nat) <= mx,
        l <= 64,
        sh == 126 - l,
        my < pow2(f.p()),
        mx * pow2(sh) == my * q + r,
        0 < r < my,
    ensures
        q >= pow2(f.p()),
{
    lemma_wide(f);
    assert(mx > 0) by (nonlinear_arith)
        requires
            mx * pow2(sh) == my * q + r,
            r > 0,
            my >= 0,
            q >= 0,
            mx >= 0,
    ;
    assert(l > 0) by {
        lemma2_to64();
    }
    lemma_pow2_adds((l - 1) as nat, sh);
    lemma_pow2_adds(72, 53);
    lemma2_to64();
    lemma_pow2_adds(64, 8);
    assert(mx * pow2(sh) >= pow2(125)) by (nonlinear_arith)
        requires
            mx >= pow2((l - 1) as nat),
            pow2(125) == pow2((l - 1) as nat) * pow2(sh),
    ;
    assert(q + 1 > pow2(72)) by (nonlinear_arith)
        requires
            my * q + r >= pow2(72) * pow2(53),
            r < my,
            my <= pow2(53),
            my > 0,
    {
        if q + 1 <= pow2(72) {
            assert(my * (q + 1) <= my * pow2(72));
            assert(my * pow2(72) <= pow2(53) * pow2(72));
        }
    }
}

/// The sum of two finite numbers, the first with the greater exponent.
fn add_finite(f: Format, a: Num, b: Num) -> (r: Num)
    requires
        is_fin(f, a),
        is_fin(f, b),
    ensures
        r == sum(f, a, b),
{
    let (ma, ka) = decode(f, a.mag);
    let (mb, kb) = decode(f, b.mag);
    if ka >= kb {
        add_decoded(f, a, b, ma, ka, mb, kb)
    } else {
        assert(value(f, a) + value(f, b) == value(f, b) + value(f, a));
        add_decoded(f, b, a, mb, kb, ma, ka)
    }
}

/// The sum of two finite numbers from their significands.
fn add_decoded(f: Format, a: Num, b: Num, ma: u64, ka: i32, mb: u64, kb: i32) -> (r: Num)
    requires
        is_fin(f, a),
        is_fin(f, b),
        0 <= kb <= ka < f.top(),
        units(a.mag as nat, f.p()) == ma * pow2(ka as nat),
        units(b.mag as nat, f.p()) == mb * pow2(kb as nat),
        ma < pow2(f.p()),
        mb < pow2(f.p()),
        ka > 0 ==> ma >= pow2((f.p() - 1) as nat),
        mb == 0 <==> b.mag == 0,
    ensures
        r == sum(f, a, b),
{
    let ghost ua = units(a.mag as nat, f.p());
    let ghost ub = units(b.mag as nat, f.p());
    let ghost v = value(f, a) + value(f, b);
    let dk: i32 = ka - kb;
    proof {
        lemma_wide(f);
        lemma2_to64();
        lemma_pow2_adds(kb as nat, dk as nat);
        lemma_pow2_pos(kb as nat);
        lemma_pow2_pos(dk as nat);
    }
    if dk <= 64 {
        let w: u128 = power_of_two(dk as u32);
        proof {
            if dk < 64 {
                lemma_pow2_strictly_increases(dk as nat, 64);
            }
            assert(0 <= ma * w < 0x20_0000_0000_0000 * 0x1_0000_0000_0000_0000) by (nonlinear_arith)
                requires
                    0 <= ma < 0x20_0000_0000_0000,
                    0 <= w <= 0x1_0000_0000_0000_0000,
            ;
            assert(ua == (ma * w) * pow2(kb as nat)) by (nonlinear_arith)
                requires
                    ua == ma * (pow2(kb as nat) * pow2(dk as nat)),
                    w == pow2(dk as nat),
            ;
        }
        let x: u128 = (ma as u128) * w;
        let y: u128 = mb as u128;
        let ghost c = pow2(kb as nat);
        let neg: bool = if a.neg == b.neg {
            a.neg
        } else {
            if x >= y {
                a.neg
            } else {
                b.neg
            }
        };
        let m: u128 = if a.neg == b.neg {
            x + y
        } else {
            if x >= y {
                x - y
            } else {
                y - x
            }
        };
        proof {
            assert(magnitude(v) == m * c && (m > 0 ==> (v < 0) == neg) && (m == 0 <==> v == 0)) by (nonlinear_arith)
                requires
                    v == (if a.neg { -(x * c) } else { x * c }) + (if b.neg { -(y * c) } else { y
                        * c }),
                    m == (if a.neg == b.neg { x + y } else if x >= y { x - y } else { y - x }),
                    neg == (if a.neg == b.neg { a.neg } else if x >= y { a.neg } else { b.neg }),
                    c > 0,
                    x >= 0,
                    y >= 0,
            ;
            lemma_exact_truncation(magnitude(v), 1, m as nat, kb as nat, 0, kb as int);
        }
        if m == 0 {
            return Num { neg: a.neg && b.neg, mag: 0 };
        }
        let mag: u64 = round_truncation(
            m,
            kb,
            false,
            f.precision(),
            f.top_field(),
            Ghost(magnitude(v)),
            Ghost(1nat),
        );
        Num { neg, mag }
    } else {
        proof {
            lemma_format(f);
            lemma_units_zero(f, a.mag as nat);
            lemma_pow2_pos(ka as nat);
            assert(ua > 0) by (nonlinear_arith)
                requires
                    ua == ma * pow2(ka as nat),
                    ma > 0,
                    pow2(ka as nat) > 0,
            ;
        }
        if mb == 0 {
            proof {
                assert(ub == 0) by (nonlinear_arith)
                    requires
                        ub == mb * pow2(kb as nat),
                        mb == 0,
                ;
                lemma_exact_truncation(magnitude(v), 1, ma as nat, ka as nat, 0, ka as int);
            }
            let mag: u64 = round_truncation(
                ma as u128,
                ka,
                false,
                f.precision(),
                f.top_field(),
                Ghost(magnitude(v)),
                Ghost(1nat),
            );
            return Num { neg: a.neg, mag };
        }
        let k: i32 = ka - 10;
        let x: u128 = (ma as u128) * 1024;
        proof {
            lemma_pow2_adds(k as nat, 10);
            lemma_pow2_adds(kb as nat, 53);
            lemma_pow2_strictly_increases((kb + 53) as nat, k as nat);
            lemma_pow2_pos(k as nat);
            let c = pow2(k as nat);
            assert(ua == x * c) by (nonlinear_arith)
                requires
                    ua == ma * (c * 1024),
                    x == ma * 1024,
            ;
            assert(0 < ub < c) by (nonlinear_arith)
                requires
                    ub == mb * pow2(kb as nat),
                    0 < mb < pow2(53),
                    pow2(kb as nat) > 0,
                    pow2(kb as nat) * pow2(53) < c,
            ;
            assert((x + 1) * c == x * c + c && (x - 1) * c == x * c - c) by (nonlinear_arith);
            assert(x * c >= c) by (nonlinear_arith)
                requires
                    x >= 1,
                    c > 0,
            ;
            assert(pow2(k as nat) * 1nat == c);
            assert(magnitude(v) * pow2(0) == magnitude(v));
        }
        let m: u128 = if a.neg == b.neg {
            x
        } else {
            x - 1
        };
        let mag: u64 = round_truncation(
            m,
            k,
            true,
            f.precision(),
            f.top_field(),
            Ghost(magnitude(v)),
            Ghost(1nat),
        );
        Num { neg: a.neg, mag }
    }
}

/// Adds.
pub fn plus(f: Format, a: Num, b: Num) -> (r: Num)
    ensures
        r == sum(f, a, b),
{
    let inf: u64 = f.infinity();
    if a.mag > inf || b.mag > inf {
        f.nan()
    } else if a.mag == inf {
        if b.mag == inf && a.neg != b.neg {
            f.nan()
        } else {
            a
        }
    } else if b.mag == inf {
        b
    } else {
        add_finite(f, a, b)
    }
}

/// Multiplies.
pub fn times(f: Format, a: Num, b: Num) -> (r: Num)
    ensures
        r == product(f, a, b),
{
    let inf: u64 = f.infinity();
    let neg: bool = a.neg != b.neg;
    if a.mag > inf || b.mag > inf {
        f.nan()
    } else if a.mag == inf || b.mag == inf {
        if a.mag == 0 || b.mag == 0 {
            f.nan()
        } else {
            Num { neg, mag: inf }
        }
    } else {
        Num { neg, mag: multiply_finite(f, a.mag, b.mag) }
    }
}

/// Divides.
pub fn over(f: Format, a: Num, b: Num) -> (r: Num)
    ensures
        r == quotient(f, a, b),
{
    let inf: u64 = f.infinity();
    let neg: bool = a.neg != b.neg;
    if a.mag > inf || b.mag > inf {
        f.nan()
    } else if a.mag == inf {
        if b.mag == inf {
            f.nan()
        } else {
            Num { neg, mag: inf }
        }
    } else if b.mag == inf {
        Num { neg, mag: 0 }
    } else if b.mag == 0 {
        if a.mag == 0 {
            f.nan()
        } else {
            Num { neg, mag: inf }
        }
    } else {
        Num { neg, mag: divide_finite(f, a.mag, b.mag) }
    }
}

/// The number of format `to` nearest to a number of format `from`.
pub open spec fn converted(from: Format, to: Format, a: Num) -> Num {
    if is_nan(from, a) {
        nan(to)
    } else if is_inf(from, a) {
        Num { neg: a.neg, mag: to.inf() as u64 }
    } else {
        Num {
            neg: a.neg,
            mag: near(to, units(a.mag as nat, from.p()) * pow2(to.scale()), pow2(from.scale())),
        }
    }
}

/// Converts between the formats.
pub fn convert(from: Format, to: Format, a: Num) -> (r: Num)
    ensures
        r == converted(from, to, a),
{
    if a.mag > from.infinity() {
        return to.nan();
    }
    if a.mag == from.infinity() {
        return Num { neg: a.neg, mag: to.infinity() };
    }
    let (m, k) = decode(from, a.mag);
    let c: i32 = k + to.scale_bits() - from.scale_bits();
    let ghost n = units(a.mag as nat, from.p()) * pow2(to.scale());
    let ghost d = pow2(from.scale());
    proof {
        lemma_wide(from);
        lemma_pow2_adds(k as nat, to.scale());
        let j = (k + to.scale()) as nat;
        assert(n == m * pow2(j)) by (nonlinear_arith)
            requires
                n == (m * pow2(k as nat)) * pow2(to.scale()),
                pow2(j) == pow2(k as nat) * pow2(to.scale()),
        ;
        lemma_exact_truncation(n, d, m as nat, j, from.scale(), c as int);
    }
    let mag: u64 = round_truncation(
        m as u128,
        c,
        false,
        to.precision(),
        to.top_field(),
        Ghost(n),
        Ghost(d),
    );
    Num { neg: a.neg, mag }
}

/// The number nearest to an integer.
pub open spec fn of_int(f: Format, v: int) -> Num {
    Num { neg: v < 0, mag: near(f, magnitude(v) * pow2(f.scale()), 1) }
}

/// Converts an integer, given by its sign and its absolute value.
pub fn from_magnitude(f: Format, neg: bool, m: u64, v: Ghost<int>) -> (r: Num)
    requires
        magnitude(v@) == m,
        neg == (v@ < 0),
    ensures
        r == of_int(f, v@),
{
    proof {
        lemma_wide(f);
        lemma2_to64();
        lemma_exact_truncation(m as nat * pow2(f.scale()), 1, m as nat, f.scale(), 0, f.scale() as int);
    }
    let mag: u64 = round_truncation(
        m as u128,
        f.scale_bits(),
        false,
        f.precision(),
        f.top_field(),
        Ghost(m as nat * pow2(f.scale())),
        Ghost(1nat),
    );
    Num { neg, mag }
}

/// Every finite number is its own rounding.
pub proof fn lemma_near_exact(f: Format, mag: u64)
    requires
        mag < f.inf(),
    ensures
        near(f, units(mag as nat, f.p()), 1) == mag,
{
    lemma_format(f);
    lemma2_to64();
    let p = f.p();
    let hidden = pow2((p - 1) as nat);
    let e = mag as nat / hidden;
    let m = mag as nat % hidden;
    lemma_fundamental_div_mod(mag as int, hidden as int);
    let u = units(mag as nat, p);
    lemma_pow2_unfold(p);
    assert(u / 1 == u);
    if e == 0 {
        lemma_excess(u, p, 0);
        lemma_nearest_even_whole(u, 1);
        assert(1 * pow2(0) == 1);
    } else {
        let k = (e - 1) as nat;
        let c = pow2(k);
        lemma_pow2_pos(k);
        lemma_pow2_adds((p - 1) as nat, k);
        lemma_pow2_adds(p, k);
        assert(hidden * c <= u < pow2(p) * c) by (nonlinear_arith)
            requires
                u == (m + hidden) * c,
                0 <= m < hidden,
                c > 0,
                pow2(p) == 2 * hidden,
        ;
        if k > 0 {
            assert((p + k - 1) as nat == (p - 1) as nat + k);
        } else {
            assert(u < pow2(p));
        }
        lemma_excess(u, p, k);
        lemma_nearest_even_whole(m + hidden, c);
        assert(1 * c == c);
        assert(k * hidden + (m + hidden) == mag) by (nonlinear_arith)
            requires
                k == e - 1,
                mag == hidden * e + m,
        ;
    }
}

/// A whole quotient rounds to itself.
proof fn lemma_nearest_even_whole(q: nat, d: nat)
    requires
        d > 0,
    ensures
        nearest_even(q * d, d) == q,
{
    lemma_fundamental_div_mod_converse((q * d) as int, d as int, q as int, 0);
}

/// The whole part of a finite magnitude.
pub open spec fn whole(f: Format, mag: nat) -> nat {
    units(mag, f.p()) / pow2(f.scale())
}

/// Whether a finite magnitude has a fractional part.
pub open spec fn fractional(f: Format, mag: nat) -> bool {
    units(mag, f.p()) % pow2(f.scale()) != 0
}

/// A finite magnitude rounded to the nearest whole number, halves upward.
pub open spec fn half_up(f: Format, mag: nat) -> nat {
    (2 * units(mag, f.p()) + pow2(f.scale())) / (2 * pow2(f.scale()))
}

/// The whole number that a small finite magnitude rounds to, and at most `2^40` for a large one.
pub fn half_up_capped(f: Format, mag: u64) -> (r: u64)
    requires
        mag < f.inf(),
    ensures
        r == half_up(f, mag as nat) || (r == 0x100_0000_0000 && half_up(f, mag as nat)
            >= 0x100_0000_0000),
        r <= 0x100_0000_0000,
{
    let (m, k) = decode(f, mag);
    let b: i32 = f.scale_bits();
    let ghost u = units(mag as nat, f.p());
    let ghost one = pow2(f.scale());
    proof {
        lemma_wide(f);
        lemma2_to64();
        lemma2_to64_rest();
        lemma_pow2_pos(f.scale());
        lemma_format(f);
    }
    if k >= b {
        let sh: i32 = k - b;
        proof {
            lemma_pow2_adds(f.scale(), sh as nat);
            let w = pow2(sh as nat);
            let t = (m * w) as nat;
            assert(2 * u + one == t * (2 * one) + one) by (nonlinear_arith)
                requires
                    u == m * (one * w),
                    t == m * w,
            ;
            lemma_fundamental_div_mod_converse(
                (2 * u + one) as int,
                (2 * one) as int,
                t as int,
                one as int,
            );
            lemma_pow2_pos(sh as nat);
        }
        if sh > 40 {
            proof {
                lemma_pow2_strictly_increases(40, sh as nat);
                let w = pow2(sh as nat);
                assert(m * w >= w) by (nonlinear_arith)
                    requires
                        m >= 1,
                        w > 0,
                ;
            }
            return 0x100_0000_0000;
        }
        let w: u128 = power_of_two(sh as u32);
        proof {
            if sh < 40 {
                lemma_pow2_strictly_increases(sh as nat, 40);
            }
            assert(0 <= m * w <= 0x20_0000_0000_0000 * 0x100_0000_0000) by (nonlinear_arith)
                requires
                    0 <= m <= 0x20_0000_0000_0000,
                    0 <= w <= 0x100_0000_0000,
            ;
        }
        let v: u128 = (m as u128) * w;
        if v >= 0x100_0000_0000 {
            0x100_0000_0000
        } else {
            v as u64
        }
    } else {
        let sh: i32 = b - k;
        let ghost w = pow2(sh as nat);
        let ghost c = pow2(k as nat);
        proof {
            lemma_pow2_adds(k as nat, sh as nat);
            lemma_pow2_pos(sh as nat);
            lemma_pow2_pos(k as nat);
            assert(2 * u + one == (2 * m + w) * c) by (nonlinear_arith)
                requires
                    u == m * c,
                    one == c * w,
            ;
            assert(2 * one == (2 * w) * c) by (nonlinear_arith)
                requires
                    one == c * w,
            ;
            lemma_quotient_scale((2 * m + w) as nat, 2 * w, c);
        }
        if sh >= 64 {
            proof {
                if sh > 64 {
                    lemma_pow2_strictly_increases(64, sh as nat);
                }
                lemma_basic_div((2 * m + w) as int, (2 * w) as int);
            }
            return 0;
        }
        let w2: u128 = power_of_two(sh as u32);
        proof {
            lemma_pow2_strictly_increases(sh as nat, 64);
        }
        let q: u128 = (2 * (m as u128) + w2) / (2 * w2);
        if q >= 0x100_0000_0000 {
            0x100_0000_0000
        } else {
            q as u64
        }
    }
}

/// The whole part of a small finite magnitude, at most `2^64` for a large one, and whether a
/// fraction is left.
pub fn whole_capped(f: Format, mag: u64) -> (r: (u128, bool))
    requires
        mag < f.inf(),
    ensures
        r.0 == whole(f, mag as nat) || (r.0 == 0x1_0000_0000_0000_0000 && whole(f, mag as nat)
            >= 0x1_0000_0000_0000_0000),
        r.0 <= 0x1_0000_0000_0000_0000,
        r.1 == fractional(f, mag as nat),
{
    let (m, k) = decode(f, mag);
    let b: i32 = f.scale_bits();
    let ghost u = units(mag as nat, f.p());
    let ghost one = pow2(f.scale());
    proof {
        lemma_wide(f);
        lemma2_to64();
        lemma2_to64_rest();
        lemma_pow2_pos(f.scale());
        lemma_format(f);
    }
    if k >= b {
        let sh: i32 = k - b;
        proof {
            lemma_pow2_adds(f.scale(), sh as nat);
            let w = pow2(sh as nat);
            let t = (m * w) as nat;
            assert(u == t * one) by (nonlinear_arith)
                requires
                    u == m * (one * w),
                    t == m * w,
            ;
            lemma_fundamental_div_mod_converse(u as int, one as int, t as int, 0);
            lemma_pow2_pos(sh as nat);
        }
        if sh > 64 {
            proof {
                lemma_pow2_strictly_increases(64, sh as nat);
                let w = pow2(sh as nat);
                assert(m * w >= w) by (nonlinear_arith)
                    requires
                        m >= 1,
                        w > 0,
                ;
            }
            return (0x1_0000_0000_0000_0000, false);
        }
        let w: u128 = power_of_two(sh as u32);
        proof {
            if sh < 64 {
                lemma_pow2_strictly_increases(sh as nat, 64);
            }
            assert(0 <= m * w <= 0x20_0000_0000_0000 * 0x1_0000_0000_0000_0000) by (nonlinear_arith)
                requires
                    0 <= m <= 0x20_0000_0000_0000,
                    0 <= w <= 0x1_0000_0000_0000_0000,
            ;
        }
        let v: u128 = (m as u128) * w;
        if v >= 0x1_0000_0000_0000_0000 {
            (0x1_0000_0000_0000_0000, false)
        } else {
            (v, false)
        }
    } else {
        let sh: i32 = b - k;
        let ghost w = pow2(sh as nat);
        let ghost c = pow2(k as nat);
        proof {
            lemma_pow2_adds(k as nat, sh as nat);
            lemma_pow2_pos(sh as nat);
            lemma_pow2_pos(k as nat);
            assert(one == w * c) by (nonlinear_arith)
                requires
                    one == c * w,
            ;
            lemma_quotient_scale(m as nat, w, c);
            assert(m as nat % w == 0 <==> (m as nat % w) * c == 0) by (nonlinear_arith)
                requires
                    c > 0,
                    m as nat % w >= 0,
            ;
        }
        if sh >= 64 {
            proof {
                if sh > 64 {
                    lemma_pow2_strictly_increases(64, sh as nat);
                }
                lemma_basic_div(m as int, w as int);
                lemma_small_mod(m as nat, w);
            }
            return (0, m != 0);
        }
        let w2: u128 = power_of_two(sh as u32);
        let q: u128 = (m as u128) / w2;
        let left: bool = (m as u128) % w2 != 0;
        if q >= 0x1_0000_0000_0000_0000 {
            (0x1_0000_0000_0000_0000, left)
        } else {
            (q, left)
        }
    }
}

/// Scaling both sides of a quotient does not change its whole part.
proof fn lemma_quotient_scale(n: nat, d: nat, c: nat)
    requires
        d > 0,
        c > 0,
    ensures
        (n * c) / (d * c) == n / d,
        (n * c) % (d * c) == (n % d) * c,
{
    let q = n / d;
    let r = n % d;
    lemma_fundamental_div_mod(n as int, d as int);
    assert(n * c == q * (d * c) + r * c) by (nonlinear_arith)
        requires
            n == d * q + r,
    ;
    assert(0 <= r * c < d * c) by (nonlinear_arith)
        requires
            0 <= r < d,
            c > 0,
    ;
    lemma_fundamental_div_mod_converse((n * c) as int, (d * c) as int, q as int, (r * c) as int);
}

/// The whole part of a finite number, raised by one where `raise` and it has a fraction.
pub open spec fn stepped(f: Format, mag: u64, raise: bool) -> nat {
    whole(f, mag as nat) + if raise && fractional(f, mag as nat) {
        1nat
    } else {
        0
    }
}

/// The magnitude of the whole part of a finite number, raised where asked.
fn step_magnitude(f: Format, mag: u64, raise: bool) -> (r: u64)
    requires
        mag < f.inf(),
    ensures
        r == near(f, stepped(f, mag, raise) * pow2(f.scale()), 1),
{
    let (m, k) = decode(f, mag);
    let b: i32 = f.scale_bits();
    let ghost u = units(mag as nat, f.p());
    let ghost one = pow2(f.scale());
    proof {
        lemma_wide(f);
        lemma2_to64();
        lemma_pow2_pos(f.scale());
    }
    if k >= b {
        proof {
            let sh = (k - b) as nat;
            lemma_pow2_adds(f.scale(), sh);
            let w = pow2(sh);
            let t = (m * w) as nat;
            assert(u == t * one) by (nonlinear_arith)
                requires
                    u == m * (one * w),
                    t == m * w,
            ;
            lemma_fundamental_div_mod_converse(u as int, one as int, t as int, 0);
            lemma_near_exact(f, mag);
        }
        return mag;
    }
    let sh: i32 = b - k;
    let ghost w = pow2(sh as nat);
    let ghost c = pow2(k as nat);
    proof {
        lemma_pow2_adds(k as nat, sh as nat);
        lemma_pow2_pos(sh as nat);
        lemma_pow2_pos(k as nat);
        assert(one == w * c) by (nonlinear_arith)
            requires
                one == c * w,
        ;
        lemma_quotient_scale(m as nat, w, c);
        assert(m as nat % w == 0 <==> (m as nat % w) * c == 0) by (nonlinear_arith)
            requires
                c > 0,
                m as nat % w >= 0,
        ;
    }
    let (q, r): (u64, bool) = if sh >= 64 {
        proof {
            if sh > 64 {
                lemma_pow2_strictly_increases(64, sh as nat);
            }
            lemma_basic_div(m as int, w as int);
            lemma_small_mod(m as nat, w);
        }
        (0, m != 0)
    } else {
        let w2: u128 = power_of_two(sh as u32);
        proof {
            lemma_div_nonincreasing(m as int, w2 as int);
        }
        let q: u128 = (m as u128) / w2;
        (q as u64, (m as u128) % w2 != 0)
    };
    let v: u64 = if raise && r {
        q + 1
    } else {
        q
    };
    let r: Num = from_magnitude(f, false, v, Ghost(v as int));
    r.mag
}

/// The greatest whole number not above `a`.
pub open spec fn floored(f: Format, a: Num) -> Num {
    if is_nan(f, a) {
        nan(f)
    } else if is_inf(f, a) {
        a
    } else {
        Num { neg: a.neg, mag: near(f, stepped(f, a.mag, a.neg) * pow2(f.scale()), 1) }
    }
}

/// The least whole number not below `a`.
pub open spec fn ceiled(f: Format, a: Num) -> Num {
    if is_nan(f, a) {
        nan(f)
    } else if is_inf(f, a) {
        a
    } else {
        Num { neg: a.neg, mag: near(f, stepped(f, a.mag, !a.neg) * pow2(f.scale()), 1) }
    }
}

/// Rounds down to a whole number.
pub fn floor(f: Format, a: Num) -> (r: Num)
    ensures
        r == floored(f, a),
{
    if a.mag > f.infinity() {
        f.nan()
    } else if a.mag == f.infinity() {
        a
    } else {
        Num { neg: a.neg, mag: step_magnitude(f, a.mag, a.neg) }
    }
}

/// Rounds up to a whole number.
pub fn ceil(f: Format, a: Num) -> (r: Num)
    ensures
        r == ceiled(f, a),
{
    if a.mag > f.infinity() {
        f.nan()
    } else if a.mag == f.infinity() {
        a
    } else {
        Num { neg: a.neg, mag: step_magnitude(f, a.mag, !a.neg) }
    }
}

/// What is left of `a` after whole multiples of `b`, with the sign of `a`.
pub open spec fn remainder(f: Format, a: Num, b: Num) -> Num {
    if is_nan(f, a) || is_nan(f, b) || is_inf(f, a) || b.mag == 0 {
        nan(f)
    } else if is_inf(f, b) {
        a
    } else {
        Num {
            neg: a.neg,
            mag: near(f, units(a.mag as nat, f.p()) % units(b.mag as nat, f.p()), 1),
        }
    }
}

/// `(m * 2^d) % y` by doubling.
fn shifted_remainder(m: u64, d: i32, y: u64) -> (r: u64)
    requires
        0 <= d <= 0x1000,
        0 < y < 0x20_0000_0000_0000,
    ensures
        r < y,
        r == (m * pow2(d as nat)) as nat % y as nat,
{
    let mut r: u64 = m % y;
    let mut i: i32 = 0;
    proof {
        lemma2_to64();
        assert(m * pow2(0) == m);
    }
    while i < d
        invariant
            0 <= i <= d,
            0 < y < 0x20_0000_0000_0000,
            r < y,
            r == (m * pow2(i as nat)) as nat % y as nat,
        decreases d - i,
    {
        proof {
            lemma_pow2_unfold((i + 1) as nat);
            let t = (m * pow2(i as nat)) as nat;
            assert(m * (2 * pow2(i as nat)) == 2 * t) by (nonlinear_arith)
                requires
                    t == m * pow2(i as nat),
            ;
            lemma_mul_mod_noop_right(2, t as int, y as int);
        }
        r = (2 * r) % y;
        i = i + 1;
    }
    r
}

/// The remainder of finite magnitudes, the second not zero.
fn remainder_finite(f: Format, x: u64, y: u64) -> (mag: u64)
    requires
        x < f.inf(),
        0 < y < f.inf(),
    ensures
        mag == near(f, units(x as nat, f.p()) % units(y as nat, f.p()), 1),
{
    let (mx, kx) = decode(f, x);
    let (my, ky) = decode(f, y);
    let ghost ux = units(x as nat, f.p());
    let ghost uy = units(y as nat, f.p());
    proof {
        lemma_wide(f);
        lemma2_to64();
        lemma_pow2_pos(kx as nat);
        lemma_pow2_pos(ky as nat);
        lemma_units_zero(f, y as nat);
    }
    let (r, k): (u64, i32) = if kx >= ky {
        let r: u64 = shifted_remainder(mx, kx - ky, my);
        proof {
            let d = (kx - ky) as nat;
            lemma_pow2_adds(d, ky as nat);
            let t = (mx * pow2(d)) as nat;
            assert(ux == t * pow2(ky as nat)) by (nonlinear_arith)
                requires
                    ux == mx * (pow2(d) * pow2(ky as nat)),
                    t == mx * pow2(d),
            ;
            lemma_quotient_scale(t, my as nat, pow2(ky as nat));
        }
        (r, ky)
    } else {
        let d: i32 = ky - kx;
        proof {
            lemma_pow2_adds(d as nat, kx as nat);
            let w = pow2(d as nat);
            let t = (my * w) as nat;
            lemma_pow2_pos(d as nat);
            assert(uy == t * pow2(kx as nat)) by (nonlinear_arith)
                requires
                    uy == my * (w * pow2(kx as nat)),
                    t == my * w,
            ;
            assert(t >= w) by (nonlinear_arith)
                requires
                    t == my * w,
                    my >= 1,
                    w >= 0,
            ;
            lemma_quotient_scale(mx as nat, t, pow2(kx as nat));
        }
        if d >= 64 {
            proof {
                if d > 64 {
                    lemma_pow2_strictly_increases(64, d as nat);
                }
                lemma_small_mod(mx as nat, (my * pow2(d as nat)) as nat);
            }
            (mx, kx)
        } else {
            let w: u128 = power_of_two(d as u32);
            proof {
                lemma_pow2_strictly_increases(d as nat, 64);
                assert(0 < my * w <= 0x20_0000_0000_0000 * 0x1_0000_0000_0000_0000) by (nonlinear_arith)
                    requires
                        0 < my <= 0x20_0000_0000_0000,
                        0 < w <= 0x1_0000_0000_0000_0000,
                ;
            }
            let r: u128 = (mx as u128) % ((my as u128) * w);
            proof {
                lemma_mod_decreases(mx as nat, (my * w) as nat);
            }
            (r as u64, kx)
        }
    };
    proof {
        lemma_exact_truncation(ux % uy, 1, r as nat, k as nat, 0, k as int);
    }
    round_truncation(
        r as u128,
        k,
        false,
        f.precision(),
        f.top_field(),
        Ghost(ux % uy),
        Ghost(1nat),
    )
}

/// The remainder of a division that truncates.
pub fn modulo(f: Format, a: Num, b: Num) -> (r: Num)
    ensures
        r == remainder(f, a, b),
{
    let inf: u64 = f.infinity();
    if a.mag >= inf || b.mag > inf || b.mag == 0 {
        f.nan()
    } else if b.mag == inf {
        a
    } else {
        Num { neg: a.neg, mag: remainder_finite(f, a.mag, b.mag) }
    }
}

/// A greater magnitude is a greater number of units.
pub proof fn lemma_units_increase(f: Format, a: nat, b: nat)
    requires
        a < b,
    ensures
        units(a, f.p()) < units(b, f.p()),
{
    lemma_format(f);
    lemma2_to64();
    let h = pow2((f.p() - 1) as nat);
    let (ea, eb) = (a / h, b / h);
    let (ma, mb) = (a % h, b % h);
    lemma_fundamental_div_mod(a as int, h as int);
    lemma_fundamental_div_mod(b as int, h as int);
    lemma_div_is_ordered(a as int, b as int, h as int);
    if ea == eb {
        if ea > 0 {
            lemma_pow2_pos((ea - 1) as nat);
            let c = pow2((ea - 1) as nat);
            assert((ma + h) * c < (mb + h) * c) by (nonlinear_arith)
                requires
                    ma < mb,
                    c > 0,
            ;
        }
    } else {
        lemma_pow2_pos((eb - 1) as nat);
        let c = pow2((eb - 1) as nat);
        assert(h * c <= (mb + h) * c) by (nonlinear_arith)
            requires
                mb >= 0,
                c > 0,
        ;
        if ea == 0 {
            assert(h <= h * c) by (nonlinear_arith)
                requires
                    c >= 1,
                    h >= 0,
            ;
        } else {
            let k = (ea - 1) as nat;
            lemma_pow2_pos(k);
            lemma_pow2_unfold((k + 1) as nat);
            if k + 1 < eb - 1 {
                lemma_pow2_strictly_increases((k + 1) as nat, (eb - 1) as nat);
            }
            assert((ma + h) * pow2(k) < (2 * h) * pow2(k)) by (nonlinear_arith)
                requires
                    ma < h,
                    pow2(k) > 0,
            ;
            assert((2 * h) * pow2(k) <= h * c) by (nonlinear_arith)
                requires
                    2 * pow2(k) <= c,
                    h >= 0,
            ;
        }
    }
}

/// A binary32 magnitude below that of 86400 has a whole part below it.
pub proof fn lemma_whole_below(mag: nat)
    requires
        mag < 0x47a8_c000,
    ensures
        whole(Format::Binary32, mag) < 86_400,
{
    let f = Format::Binary32;
    lemma_units_increase(f, mag, 0x47a8_c000);
    lemma2_to64();
    let one = pow2(149);
    lemma_pow2_pos(149);
    lemma_pow2_adds(142, 7);
    assert(0x47a8_c000nat / 0x80_0000 == 143 && 0x47a8_c000nat % 0x80_0000 == 0x28_c000);
    assert(units(0x47a8_c000, 24) == (0x28_c000 + 0x80_0000) * pow2(142));
    assert((0x28_c000 + 0x80_0000) * pow2(142) == 86_400 * one) by (nonlinear_arith)
        requires
            one == pow2(142) * 128,
    ;
    lemma_quotient_bounds(units(mag, 24), one, 0, 86_400);
}

} // verus!
