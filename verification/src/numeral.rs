//! Numbers in decimal.
//!
//! A number is written with the fewest digits that read back as the number; of those texts
//! with as many digits, the one closest to it is taken.

use crate::big::{power_of_ten, Big};
use crate::builtins::scalars::{distance, Order};
use crate::decimal::{decimal_mag, decimal_magnitude, lemma_overflow, lemma_tens_positive};
use crate::float::binary32::F32;
use crate::float::binary64::F64;
use crate::float::num::{decode, lemma_near_exact, near, Format, Num};
use crate::float::ratio::{lemma_round_monotone, round_ratio};
use crate::float::round::{
    bit_length, excess, lemma_nearest_even_scale, nearest_even, units, up,
};
use crate::text::{decimal, enclosed, joined, signed_decimal, wide_signed_text};
use vstd::arithmetic::div_mod::*;
use vstd::arithmetic::power2::*;
use vstd::prelude::*;

verus! {

/// Whether `n * 10^e` reads back as a magnitude.
pub open spec fn reads(f: Format, mag: u64, n: nat, e: int) -> bool {
    n > 0 && decimal_mag(f, n, e) == mag
}

/// Whether some multiple of `10^e` reads back as a magnitude.
pub open spec fn reads_at(f: Format, mag: u64, e: int) -> bool {
    exists|n: nat| #[trigger] reads(f, mag, n, e)
}

/// The place of the last digit of the shortest decimal that reads back as a magnitude.
pub open spec fn last_place(f: Format, mag: u64) -> int {
    choose|e: int| #[trigger] reads_at(f, mag, e) && !reads_at(f, mag, e + 1)
}

/// The dividend of a magnitude by `10^e`.
pub open spec fn dividend(f: Format, mag: u64, e: int) -> nat {
    units(mag as nat, f.p()) * power_of_ten(up(-e))
}

/// The divisor of a magnitude by `10^e`.
pub open spec fn divisor(f: Format, e: int) -> nat {
    pow2(f.scale()) * power_of_ten(up(e))
}

/// Of the multiples of `10^e` that read back as a magnitude the closest one; the greater one
/// of two that are equally close.
pub open spec fn closest(f: Format, mag: u64, e: int) -> nat {
    let (n, d) = (dividend(f, mag, e), divisor(f, e));
    let below = n / d;
    if reads(f, mag, below + 1, e) && (!reads(f, mag, below, e) || 2 * (n % d) >= d) {
        below + 1
    } else {
        below
    }
}

/// The shortest decimal that reads back as a magnitude: its digits and its last place.
pub open spec fn shortest(f: Format, mag: u64) -> (nat, int) {
    (closest(f, mag, last_place(f, mag)), last_place(f, mag))
}

/// Scaling a quotient does not change its rounding.
pub(crate) proof fn lemma_near_scale(f: Format, n: nat, d: nat, c: nat)
    requires
        d > 0,
        c > 0,
    ensures
        near(f, n * c, d * c) == near(f, n, d),
{
    let (q, r) = (n / d, n % d);
    lemma_fundamental_div_mod(n as int, d as int);
    assert(n * c == q * (d * c) + r * c) by (nonlinear_arith)
        requires
            n == d * q + r,
    ;
    assert(0 <= r * c < d * c) by (nonlinear_arith)
        requires
            0 <= r < d,
            c > 0,
    ;
    lemma_fundamental_div_mod_converse((n * c) as int, (d * c) as int, q as int, (r * c) as int);
    let s = excess(q, f.p());
    let w = pow2(s);
    lemma_pow2_pos(s);
    assert((d * c) * w == (d * w) * c) by (nonlinear_arith);
    assert(d * w > 0) by (nonlinear_arith)
        requires
            d > 0,
            w > 0,
    ;
    lemma_nearest_even_scale(n, d * w, c);
}

/// A multiple of `10^(e + 1)` is a multiple of `10^e`.
proof fn lemma_next_place(f: Format, n: nat, e: int)
    ensures
        decimal_mag(f, 10 * n, e) == decimal_mag(f, n, e + 1),
{
    let w = pow2(f.scale());
    lemma_tens_positive(up(-e - 1));
    assert(power_of_ten(0) == 1);
    if e >= 0 {
        let t = power_of_ten(e as nat);
        assert(power_of_ten((e + 1) as nat) == 10 * t);
        assert(((10 * n) * t) * w == (n * (10 * t)) * w) by (nonlinear_arith);
    } else {
        let d = power_of_ten((-e - 1) as nat);
        assert(power_of_ten((-e) as nat) == 10 * d);
        lemma_near_scale(f, n * 1 * w, d, 10);
        assert((10 * n) * 1 * w == (n * 1 * w) * 10) by (nonlinear_arith);
    }
}

/// Where a multiple of a power of ten reads back, one of each smaller power does.
proof fn lemma_places_below(f: Format, mag: u64, e: int, below: int)
    requires
        reads_at(f, mag, e),
        below <= e,
    ensures
        reads_at(f, mag, below),
    decreases e - below,
{
    if below < e {
        let n = choose|n: nat| #[trigger] reads(f, mag, n, e);
        lemma_next_place(f, n, e - 1);
        assert(reads(f, mag, 10 * n, e - 1));
        lemma_places_below(f, mag, e - 1, below);
    }
}

/// A power of ten is a multiple of the power of two.
proof fn lemma_tens_even(k: nat) -> (m: nat)
    ensures
        power_of_ten(k) == m * pow2(k),
        m > 0,
    decreases k,
{
    lemma2_to64();
    if k == 0 {
        1
    } else {
        let m = lemma_tens_even((k - 1) as nat);
        let w = pow2((k - 1) as nat);
        lemma_pow2_unfold(k);
        assert(10 * (m * w) == (5 * m) * (2 * w)) by (nonlinear_arith);
        5 * m
    }
}

/// A magnitude is a multiple of a power of ten that is small enough.
proof fn lemma_exact_place(f: Format, mag: u64)
    requires
        0 < mag < f.inf(),
    ensures
        reads_at(f, mag, -(f.scale() as int)),
{
    let k = f.scale();
    let m = lemma_tens_even(k);
    let (u, w) = (units(mag as nat, f.p()), pow2(k));
    lemma_positive_units(f, mag);
    let n = u * m;
    assert(n > 0) by (nonlinear_arith)
        requires
            u > 0,
            m > 0,
            n == u * m,
    ;
    assert(power_of_ten(0) == 1);
    assert(n * 1 * w == u * (m * w)) by (nonlinear_arith)
        requires
            n == u * m,
    ;
    lemma_tens_positive(k);
    lemma_near_scale(f, u, 1, power_of_ten(k));
    assert(1 * power_of_ten(k) == power_of_ten(k));
    lemma_near_exact(f, mag);
    assert(reads(f, mag, n, -(k as int)));
}

/// A magnitude above zero is a positive number of units.
proof fn lemma_positive_units(f: Format, mag: u64)
    requires
        0 < mag,
    ensures
        units(mag as nat, f.p()) > 0,
{
    crate::float::num::lemma_units_increase(f, 0, mag as nat);
}

/// Nothing reads back at a great place.
proof fn lemma_no_place(f: Format, mag: u64, e: int)
    requires
        mag < f.inf(),
        e > 400,
    ensures
        !reads_at(f, mag, e),
{
    if reads_at(f, mag, e) {
        let n = choose|n: nat| #[trigger] reads(f, mag, n, e);
        lemma_overflow(f, n, e);
    }
}

/// The last place is where something reads back and nothing does above.
proof fn lemma_last_place(f: Format, mag: u64, e: int)
    requires
        reads_at(f, mag, e),
        !reads_at(f, mag, e + 1),
    ensures
        last_place(f, mag) == e,
{
    let p = last_place(f, mag);
    assert(reads_at(f, mag, p) && !reads_at(f, mag, p + 1));
    if p < e {
        lemma_places_below(f, mag, e, p + 1);
    } else if e < p {
        lemma_places_below(f, mag, p, e + 1);
    }
}

/// Some place is the last.
proof fn lemma_some_last_place(f: Format, mag: u64, e: int) -> (p: int)
    requires
        mag < f.inf(),
        reads_at(f, mag, e),
    ensures
        p >= e,
        reads_at(f, mag, p),
        !reads_at(f, mag, p + 1),
    decreases 401 - e,
{
    if reads_at(f, mag, e + 1) {
        if e >= 400 {
            lemma_no_place(f, mag, e + 1);
        }
        lemma_some_last_place(f, mag, e + 1)
    } else {
        e
    }
}

/// How the multiples of `10^e` stand to a magnitude.
proof fn lemma_sides(f: Format, mag: u64, n: nat, e: int)
    requires
        mag < f.inf(),
    ensures
        n <= dividend(f, mag, e) / divisor(f, e) ==> decimal_mag(f, n, e) <= mag,
        n > dividend(f, mag, e) / divisor(f, e) ==> decimal_mag(f, n, e) >= mag,
        divisor(f, e) > 0,
{
    let (u, a, b, s) = (
        units(mag as nat, f.p()),
        power_of_ten(up(-e)),
        power_of_ten(up(e)),
        pow2(f.scale()),
    );
    let (x, d) = (u * a, s * b);
    lemma_tens_positive(up(-e));
    lemma_tens_positive(up(e));
    lemma_pow2_pos(f.scale());
    assert(d > 0) by (nonlinear_arith)
        requires
            s > 0,
            b > 0,
            d == s * b,
    ;
    lemma_near_exact(f, mag);
    lemma_near_scale(f, u, 1, a);
    assert(1 * a == a);
    let below = x / d;
    lemma_fundamental_div_mod(x as int, d as int);
    let y = (n * b) * s;
    assert(y == n * d) by (nonlinear_arith)
        requires
            y == (n * b) * s,
            d == s * b,
    ;
    if n <= below {
        assert(n * d <= d * below) by (nonlinear_arith)
            requires
                n <= below,
                d > 0,
        ;
        lemma_round_monotone(f, y, x, a);
    } else {
        assert(n * d >= d * below + d) by (nonlinear_arith)
            requires
                n >= below + 1,
                d > 0,
        ;
        lemma_round_monotone(f, x, y, a);
    }
}

/// A greater multiple of `10^e` is no smaller a magnitude.
proof fn lemma_multiples_ordered(f: Format, n: nat, m: nat, e: int)
    requires
        n <= m,
    ensures
        decimal_mag(f, n, e) <= decimal_mag(f, m, e),
{
    let (b, s) = (power_of_ten(up(e)), pow2(f.scale()));
    lemma_tens_positive(up(-e));
    assert((n * b) * s <= (m * b) * s) by (nonlinear_arith)
        requires
            n <= m,
            b >= 0,
            s >= 0,
    {
        assert(n * b <= m * b);
    }
    lemma_round_monotone(f, (n * b) * s, (m * b) * s, power_of_ten(up(-e)));
}

/// Something reads back at a place exactly where one of the two multiples next to the magnitude
/// does.
proof fn lemma_neighbors(f: Format, mag: u64, e: int)
    requires
        mag < f.inf(),
    ensures
        ({
            let below = dividend(f, mag, e) / divisor(f, e);
            reads_at(f, mag, e) == (reads(f, mag, below, e) || reads(f, mag, below + 1, e))
        }),
{
    let below = dividend(f, mag, e) / divisor(f, e);
    if reads_at(f, mag, e) {
        let n = choose|n: nat| #[trigger] reads(f, mag, n, e);
        lemma_sides(f, mag, below, e);
        lemma_sides(f, mag, below + 1, e);
        if n <= below {
            lemma_multiples_ordered(f, n, below, e);
        } else {
            lemma_multiples_ordered(f, below + 1, n, e);
        }
    }
}

/// The shortest decimal of a magnitude reads back as the magnitude, no multiple of a greater power
/// of ten does, and no other multiple of the same power that does is closer to it.
pub proof fn law_shortest_decimal(f: Format, mag: u64, n: nat)
    requires
        0 < mag < f.inf(),
    ensures
        reads(f, mag, shortest(f, mag).0, shortest(f, mag).1),
        forall|e: int| e > shortest(f, mag).1 ==> !(#[trigger] reads_at(f, mag, e)),
        reads(f, mag, n, shortest(f, mag).1) ==> ({
            let x = dividend(f, mag, shortest(f, mag).1) as int;
            let d = divisor(f, shortest(f, mag).1) as int;
            distance(shortest(f, mag).0 * d, x) <= distance(n * d, x)
        }),
{
    lemma_exact_place(f, mag);
    let p = lemma_some_last_place(f, mag, -(f.scale() as int));
    lemma_last_place(f, mag, p);
    lemma_neighbors(f, mag, p);
    assert forall|e: int| e > p implies !(#[trigger] reads_at(f, mag, e)) by {
        if reads_at(f, mag, e) {
            lemma_places_below(f, mag, e, p + 1);
        }
    }
    let (x, d) = (dividend(f, mag, p), divisor(f, p));
    lemma_sides(f, mag, 0, p);
    let below = x / d;
    let r = x % d;
    lemma_fundamental_div_mod(x as int, d as int);
    assert(below * d + r == x) by (nonlinear_arith)
        requires
            x == d * below + r,
    ;
    assert((below + 1) * d == below * d + d) by (nonlinear_arith);
    if reads(f, mag, n, p) {
        if n < below {
            assert(n * d <= below * d - d) by (nonlinear_arith)
                requires
                    n + 1 <= below,
                    d > 0,
            ;
        } else if n > below + 1 {
            assert(n * d >= (below + 1) * d + d) by (nonlinear_arith)
                requires
                    n >= below + 2,
                    d > 0,
            ;
        }
        if n <= below {
            lemma_sides(f, mag, below, p);
            lemma_multiples_ordered(f, n, below, p);
            assert(reads(f, mag, below, p));
        } else {
            lemma_sides(f, mag, below + 1, p);
            lemma_multiples_ordered(f, below + 1, n, p);
            assert(reads(f, mag, below + 1, p));
        }
    }
}

/// The multiples of a power of ten next to a magnitude.
struct Neighbors {
    /// The multiple that is not above it.
    below: Big,
    /// Whether that one reads back.
    low: bool,
    /// Whether the next one reads back.
    high: bool,
    /// Whether the next one is no farther.
    upper_half: bool,
}

impl Neighbors {
    /// Whether these are the multiples of `10^e` next to a magnitude.
    spec fn of(self, f: Format, mag: u64, e: int) -> bool {
        let (n, d) = (dividend(f, mag, e), divisor(f, e));
        &&& self.below.value() == n / d
        &&& self.low == reads(f, mag, n / d, e)
        &&& self.high == reads(f, mag, n / d + 1, e)
        &&& self.upper_half == (2 * (n % d) >= d)
    }
}

fn scale_of(f: Format) -> (r: u32)
    ensures
        r == f.scale(),
{
    match f {
        Format::Binary32 => 149,
        Format::Binary64 => 1074,
    }
}

/// The number of units of a magnitude.
fn units_of(f: Format, mag: u64) -> (r: Big)
    requires
        mag < f.inf(),
    ensures
        r.value() == units(mag as nat, f.p()),
{
    let (m, k) = decode(f, mag);
    Big::from_u64(m).shifted(k as u32)
}

fn reads_back(f: Format, mag: u64, n: &Big, e: i32) -> (r: bool)
    requires
        -2000 <= e <= 2000,
    ensures
        r == reads(f, mag, n.value(), e as int),
{
    let some: bool = match n.order(&Big::from_u32(0)) {
        Order::Greater => true,
        _ => false,
    };
    if !some {
        return false;
    }
    let scale: u32 = scale_of(f);
    proof {
        lemma_tens_positive(up(-e));
        assert(power_of_ten(0) == 1);
        let v = n.value();
        assert(v * 1 == v);
        assert(1 * power_of_ten(up(-e)) == power_of_ten(up(-e)));
    }
    let unit = Big::from_u32(1);
    let (x, d): (Big, Big) = if e >= 0 {
        (n.duplicate().scaled(e as u128).shifted(scale), unit)
    } else {
        (n.duplicate().shifted(scale), unit.scaled((-e) as u128))
    };
    round_ratio(f, &x, &d) == mag
}

fn neighbors(f: Format, mag: u64, e: i32) -> (r: Neighbors)
    requires
        mag < f.inf(),
        -2000 <= e <= 2000,
    ensures
        r.of(f, mag, e as int),
{
    let scale: u32 = scale_of(f);
    proof {
        lemma_sides(f, mag, 0, e as int);
        assert(power_of_ten(0) == 1);
        let u = units(mag as nat, f.p());
        assert(u * 1 == u);
        assert(1 * pow2(f.scale()) == pow2(f.scale()));
        assert(pow2(f.scale()) * 1 == pow2(f.scale()));
    }
    let one = Big::from_u32(1).shifted(scale);
    let (n, d): (Big, Big) = if e >= 0 {
        (units_of(f, mag), one.scaled(e as u128))
    } else {
        (units_of(f, mag).scaled((-e) as u128), one)
    };
    let (below, rest) = n.divided(&d);
    let low = reads_back(f, mag, &below, e);
    let high = reads_back(f, mag, &below.times_plus(1, 1), e);
    let upper_half: bool = match rest.times_plus(2, 0).order(&d) {
        Order::Less => false,
        _ => true,
    };
    Neighbors { below, low, high, upper_half }
}

/// A place near the first digit of a magnitude.
fn first_guess(f: Format, mag: u64) -> (r: i32)
    requires
        mag < f.inf(),
    ensures
        -1074 <= r <= 400,
{
    let (m, k) = decode(f, mag);
    let bits: i64 = bit_length(m as u128) as i64 + k as i64 - scale_of(f) as i64;
    let guess: i64 = if bits < 0 {
        -((-bits) * 1233 / 4096)
    } else {
        bits * 1233 / 4096 + 1
    };
    if guess < -100 && f == Format::Binary32 {
        -100
    } else if guess < -1000 {
        -1000
    } else if guess > 400 {
        400
    } else {
        guess as i32
    }
}

/// The shortest decimal that reads back as a magnitude.
fn shortest_of(f: Format, mag: u64) -> (r: (Big, i32))
    requires
        0 < mag < f.inf(),
    ensures
        (r.0.value(), r.1 as int) == shortest(f, mag),
        -1074 <= r.1 <= 400,
{
    let scale: i32 = scale_of(f) as i32;
    let mut e: i32 = first_guess(f, mag);
    proof {
        lemma_exact_place(f, mag);
        lemma_no_place(f, mag, 401);
    }
    let mut above = neighbors(f, mag, e + 1);
    proof {
        lemma_neighbors(f, mag, e + 1);
    }
    while above.low || above.high
        invariant
            mag < f.inf(),
            -1074 <= e <= 400,
            above.of(f, mag, e + 1),
            reads_at(f, mag, e + 1) == (above.low || above.high),
            !reads_at(f, mag, 401),
        decreases 401 - e,
    {
        e = e + 1;
        above = neighbors(f, mag, e + 1);
        proof {
            lemma_neighbors(f, mag, e + 1);
        }
    }
    let mut here = neighbors(f, mag, e);
    proof {
        lemma_neighbors(f, mag, e as int);
    }
    while !(here.low || here.high)
        invariant
            mag < f.inf(),
            scale == f.scale(),
            reads_at(f, mag, -(scale as int)),
            -1074 <= e <= 400,
            here.of(f, mag, e as int),
            reads_at(f, mag, e as int) == (here.low || here.high),
            !reads_at(f, mag, e + 1),
        decreases e + scale + 2000,
    {
        proof {
            if e <= -scale {
                lemma_places_below(f, mag, -(scale as int), e as int);
            }
        }
        e = e - 1;
        here = neighbors(f, mag, e);
        proof {
            lemma_neighbors(f, mag, e as int);
        }
    }
    proof {
        lemma_last_place(f, mag, e as int);
    }
    if here.high && (!here.low || here.upper_half) {
        (here.below.times_plus(1, 1), e)
    } else {
        (here.below, e)
    }
}

/// As many zeros as given.
pub open spec fn zeros(n: nat) -> Seq<char> {
    Seq::new(n, |i: int| '0')
}

fn push_zeros(s: String, n: usize) -> (r: String)
    ensures
        r@ == s@ + zeros(n as nat),
{
    let ghost start = s@;
    let mut r: String = s;
    let mut i: usize = 0;
    assert(start + zeros(0) =~= start);
    while i < n
        invariant
            i <= n,
            r@ == start + zeros(i as nat),
        decreases n - i,
    {
        r.push('0');
        i = i + 1;
        assert(r@ =~= start + zeros(i as nat));
    }
    r
}

/// Digits whose last is at place `e`, with the point where it belongs and no exponent.
pub open spec fn positional(digits: Seq<char>, e: int) -> Seq<char> {
    let whole = digits.len() + e;
    if e >= 0 {
        digits + zeros(e as nat)
    } else if whole > 0 {
        digits.take(whole) + "."@ + digits.skip(whole)
    } else {
        "0."@ + zeros((-whole) as nat) + digits
    }
}

fn place_point(digits: &str, e: i32) -> (r: String)
    requires
        -2000 <= e <= 2000,
    ensures
        r@ == positional(digits@, e as int),
{
    if e >= 0 {
        return push_zeros(digits.to_owned(), e as usize);
    }
    let v = crate::text::chars_of(digits);
    let back: usize = (-e) as usize;
    if v.len() > back {
        let head = crate::text::text_of(&v, 0, v.len() - back);
        let tail = crate::text::text_of(&v, v.len() - back, v.len());
        let r = enclosed(head.as_str(), ".", tail.as_str());
        let ghost whole = digits@.len() + e;
        assert(head@ =~= digits@.take(whole));
        assert(tail@ =~= digits@.skip(whole));
        r
    } else {
        let head = push_zeros("0.".to_owned(), back - v.len());
        joined(head.as_str(), digits)
    }
}

/// Digits whose last is at place `e`, with one digit before the point and an exponent.
pub open spec fn scientific(digits: Seq<char>, e: int) -> Seq<char> {
    let exponent = "e"@ + signed_decimal(digits.len() - 1 + e);
    if digits.len() <= 1 {
        digits + exponent
    } else {
        digits.take(1) + "."@ + digits.skip(1) + exponent
    }
}

fn place_exponent(digits: &str, e: i32) -> (r: String)
    requires
        -2000 <= e <= 2000,
    ensures
        r@ == scientific(digits@, e as int),
{
    let v = crate::text::chars_of(digits);
    let power: i128 = v.len() as i128 - 1 + e as i128;
    let exponent = joined("e", wide_signed_text(power).as_str());
    if v.len() <= 1 {
        joined(digits, exponent.as_str())
    } else {
        let head = crate::text::text_of(&v, 0, 1);
        let tail = crate::text::text_of(&v, 1, v.len());
        assert(head@ =~= digits@.take(1));
        assert(tail@ =~= digits@.skip(1));
        joined(enclosed(head.as_str(), ".", tail.as_str()).as_str(), exponent.as_str())
    }
}

/// A text with the sign of a number before it.
pub open spec fn with_sign(neg: bool, s: Seq<char>) -> Seq<char> {
    if neg {
        "-"@ + s
    } else {
        s
    }
}

fn put_sign(neg: bool, s: String) -> (r: String)
    ensures
        r@ == with_sign(neg, s@),
{
    if neg {
        joined("-", s.as_str())
    } else {
        s
    }
}

/// A number in decimal: the shortest digits without an exponent, `inf` or `NaN`.
pub open spec fn plain(f: Format, a: Num) -> Seq<char> {
    if a.mag > f.inf() {
        "NaN"@
    } else if a.mag == f.inf() {
        with_sign(a.neg, "inf"@)
    } else if a.mag == 0 {
        with_sign(a.neg, "0"@)
    } else {
        let (n, e) = shortest(f, a.mag);
        with_sign(a.neg, positional(decimal(n), e))
    }
}

fn write_plain(f: Format, a: Num) -> (r: String)
    ensures
        r@ == plain(f, a),
{
    let inf: u64 = infinity_of(f);
    if a.mag > inf {
        "NaN".to_owned()
    } else if a.mag == inf {
        put_sign(a.neg, "inf".to_owned())
    } else if a.mag == 0 {
        put_sign(a.neg, "0".to_owned())
    } else {
        let (n, e) = shortest_of(f, a.mag);
        put_sign(a.neg, place_point(n.decimal_text().as_str(), e))
    }
}

fn infinity_of(f: Format) -> (r: u64)
    ensures
        r == f.inf(),
{
    match f {
        Format::Binary32 => 0x7f80_0000,
        Format::Binary64 => 0x7ff0_0000_0000_0000,
    }
}

/// Whether a magnitude is written with an exponent in full form: below `10^-4`, or from `10^16`
/// on.
pub open spec fn wants_exponent(f: Format, mag: u64) -> bool {
    mag < decimal_mag(f, 1, -4) || mag >= decimal_mag(f, 1, 16)
}

/// A number in full form: always with a point or an exponent, so that it is seen to be no
/// integer.
pub open spec fn full(f: Format, a: Num) -> Seq<char> {
    if a.mag > f.inf() {
        "NaN"@
    } else if a.mag == f.inf() {
        with_sign(a.neg, "inf"@)
    } else if a.mag == 0 {
        with_sign(a.neg, "0.0"@)
    } else {
        let (n, e) = shortest(f, a.mag);
        with_sign(
            a.neg,
            if wants_exponent(f, a.mag) {
                scientific(decimal(n), e)
            } else if e >= 0 {
                positional(decimal(n), e) + ".0"@
            } else {
                positional(decimal(n), e)
            },
        )
    }
}

fn write_full(f: Format, a: Num) -> (r: String)
    ensures
        r@ == full(f, a),
{
    let inf: u64 = infinity_of(f);
    if a.mag > inf {
        return "NaN".to_owned();
    }
    if a.mag == inf {
        return put_sign(a.neg, "inf".to_owned());
    }
    if a.mag == 0 {
        return put_sign(a.neg, "0.0".to_owned());
    }
    let (n, e) = shortest_of(f, a.mag);
    let digits = n.decimal_text();
    proof {
        assert(power_of_ten(1) == 10) by {
            assert(power_of_ten(0) == 1);
        }
    }
    let least: u64 = decimal_magnitude(f, Big::from_u32(1), 1, -4);
    let most: u64 = decimal_magnitude(f, Big::from_u32(1), 1, 16);
    let body: String = if a.mag < least || a.mag >= most {
        place_exponent(digits.as_str(), e)
    } else if e >= 0 {
        joined(place_point(digits.as_str(), e).as_str(), ".0")
    } else {
        place_point(digits.as_str(), e)
    };
    put_sign(a.neg, body)
}

/// Digits that write a number of units of the given decimal place.
pub open spec fn with_places(n: nat, places: nat) -> Seq<char> {
    let s = decimal(n);
    let digits = if s.len() <= places {
        zeros((places + 1 - s.len()) as nat) + s
    } else {
        s
    };
    digits.take(digits.len() - places) + "."@ + digits.skip(digits.len() - places)
}

/// A number with three decimal places, rounded to the nearest; a tie goes to the even digit.
pub open spec fn thousandths(f: Format, a: Num) -> Seq<char> {
    if a.mag > f.inf() {
        "NaN"@
    } else if a.mag == f.inf() {
        with_sign(a.neg, "inf"@)
    } else {
        with_sign(
            a.neg,
            with_places(
                nearest_even(units(a.mag as nat, f.p()) * 1000, pow2(f.scale())),
                3,
            ),
        )
    }
}

fn write_thousandths(f: Format, a: Num) -> (r: String)
    ensures
        r@ == thousandths(f, a),
{
    let inf: u64 = infinity_of(f);
    if a.mag > inf {
        return "NaN".to_owned();
    }
    if a.mag == inf {
        return put_sign(a.neg, "inf".to_owned());
    }
    let n = units_of(f, a.mag).times_plus(1000, 0);
    let d = Big::from_u32(1).shifted(scale_of(f));
    proof {
        lemma_pow2_pos(f.scale());
        assert(1 * pow2(f.scale()) == pow2(f.scale()));
    }
    let (q, rest) = n.divided(&d);
    let (half, even) = q.divided(&Big::from_u32(2));
    let odd: bool = match even.order(&Big::from_u32(0)) {
        Order::Equal => false,
        _ => true,
    };
    let raise: bool = match rest.times_plus(2, 0).order(&d) {
        Order::Less => false,
        Order::Equal => odd,
        Order::Greater => true,
    };
    let whole: Big = if raise {
        q.times_plus(1, 1)
    } else {
        q
    };
    let s = whole.decimal_text();
    let v = crate::text::chars_of(s.as_str());
    let digits: String = if v.len() <= 3 {
        let pad = push_zeros(String::new(), 4 - v.len());
        assert(pad@ =~= zeros((4 - v.len()) as nat));
        joined(pad.as_str(), s.as_str())
    } else {
        s
    };
    let w = crate::text::chars_of(digits.as_str());
    let head = crate::text::text_of(&w, 0, w.len() - 3);
    let tail = crate::text::text_of(&w, w.len() - 3, w.len());
    assert(head@ =~= digits@.take(digits@.len() - 3));
    assert(tail@ =~= digits@.skip(digits@.len() - 3));
    put_sign(a.neg, enclosed(head.as_str(), ".", tail.as_str()))
}

impl F32 {
    /// The number in decimal.
    pub open spec fn text(self) -> Seq<char> {
        plain(Format::Binary32, self.num())
    }

    /// The number in decimal.
    pub fn to_text(self) -> (r: String)
        ensures
            r@ == self.text(),
    {
        write_plain(Format::Binary32, self.split())
    }

    /// The number in full form.
    pub open spec fn full_text(self) -> Seq<char> {
        full(Format::Binary32, self.num())
    }

    /// The number in full form.
    pub fn to_full_text(self) -> (r: String)
        ensures
            r@ == self.full_text(),
    {
        write_full(Format::Binary32, self.split())
    }
}

impl F64 {
    /// The number in decimal.
    pub open spec fn text(self) -> Seq<char> {
        plain(Format::Binary64, self.num())
    }

    /// The number in decimal.
    pub fn to_text(self) -> (r: String)
        ensures
            r@ == self.text(),
    {
        write_plain(Format::Binary64, self.split())
    }

    /// The number in full form.
    pub open spec fn full_text(self) -> Seq<char> {
        full(Format::Binary64, self.num())
    }

    /// The number in full form.
    pub fn to_full_text(self) -> (r: String)
        ensures
            r@ == self.full_text(),
    {
        write_full(Format::Binary64, self.split())
    }

    /// The number with three decimal places.
    pub open spec fn thousandths_text(self) -> Seq<char> {
        thousandths(Format::Binary64, self.num())
    }

    /// The number with three decimal places.
    pub fn to_thousandths_text(self) -> (r: String)
        ensures
            r@ == self.thousandths_text(),
    {
        write_thousandths(Format::Binary64, self.split())
    }
}

} // verus!
