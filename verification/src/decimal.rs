//! Decimal literals.
//!
//! A floating literal is an optional sign, then `inf`, `infinity` or `nan` in any
//! case, or digits with an optional point among or beside them and an optional
//! exponent. It stands for the nearest number of its format.

use crate::big::{power_of_ten, Big};
use crate::builtins::scalars::Order;
use crate::float::binary32::F32;
use crate::float::binary64::F64;
use crate::float::num::{lemma_format, near, Format, Num};
use crate::float::ratio::round_ratio;
use crate::float::round::{infinity_mag, round_mag, up};
use crate::text::{chars_of, lower, lowered, same};
use vstd::arithmetic::div_mod::*;
use vstd::arithmetic::power2::*;
use vstd::prelude::*;

verus! {

/// Whether a character is a decimal digit.
pub open spec fn is_digit(c: char) -> bool {
    '0' <= c <= '9'
}

/// The value of a digit.
pub open spec fn digit_value(c: char) -> nat {
    (c as u32 - '0' as u32) as nat
}

/// Whether every character is a digit.
pub open spec fn all_digits(s: Seq<char>) -> bool {
    forall|i: int| 0 <= i < s.len() ==> is_digit(#[trigger] s[i])
}

/// The number that digits write.
pub open spec fn digits_value(s: Seq<char>) -> nat
    decreases s.len(),
{
    if s.len() == 0 {
        0
    } else {
        10 * digits_value(s.drop_last()) + digit_value(s.last())
    }
}

/// The position of the first of two characters, or the length.
pub open spec fn first_of(s: Seq<char>, a: char, b: char) -> nat
    decreases s.len(),
{
    if s.len() == 0 {
        0
    } else if s[0] == a || s[0] == b {
        0
    } else {
        1 + first_of(s.drop_first(), a, b)
    }
}

/// Whether a text starts with a sign.
pub open spec fn signed(s: Seq<char>) -> bool {
    s.len() > 0 && (s[0] == '+' || s[0] == '-')
}

/// A text without its sign.
pub open spec fn unsigned(s: Seq<char>) -> Seq<char> {
    if signed(s) {
        s.skip(1)
    } else {
        s
    }
}

/// Whether a text starts with a minus sign.
pub open spec fn negative(s: Seq<char>) -> bool {
    s.len() > 0 && s[0] == '-'
}

/// An integer literal: an optional sign and digits.
pub open spec fn integer_literal(s: Seq<char>) -> Option<int> {
    let t = unsigned(s);
    if t.len() > 0 && all_digits(t) {
        Some(
            if negative(s) {
                -(digits_value(t) as int)
            } else {
                digits_value(t) as int
            },
        )
    } else {
        None
    }
}

/// A mantissa without the point at a position.
pub open spec fn without_point(m: Seq<char>, j: int) -> Seq<char> {
    m.take(j) + m.skip(
        if j == m.len() {
            j
        } else {
            j + 1
        },
    )
}

/// The exponent that follows a mantissa of the given length.
pub open spec fn exponent_after(s: Seq<char>, i: int) -> Option<int> {
    if i == s.len() {
        Some(0)
    } else {
        integer_literal(s.skip(i + 1))
    }
}

/// A number literal without a sign, as digits and a power of ten.
pub open spec fn number_literal(s: Seq<char>) -> Option<(nat, int)> {
    let i = first_of(s, 'e', 'E') as int;
    let mantissa = s.take(i);
    let j = first_of(mantissa, '.', '.') as int;
    let digits = without_point(mantissa, j);
    match exponent_after(s, i) {
        Some(e) if digits.len() > 0 && all_digits(digits) => Some(
            (digits_value(digits), e - (digits.len() - j)),
        ),
        _ => None,
    }
}

/// The magnitude nearest to `digits * 10^exponent`.
pub open spec fn decimal_mag(f: Format, digits: nat, exponent: int) -> u64 {
    near(
        f,
        digits * power_of_ten(up(exponent)) * pow2(f.scale()),
        power_of_ten(up(-exponent)),
    )
}

/// The number that a literal stands for.
pub open spec fn float_literal(f: Format, s: Seq<char>) -> Option<Num> {
    let t = unsigned(s);
    let l = lowered(t);
    if l == "inf"@ || l == "infinity"@ {
        Some(Num { neg: negative(s), mag: f.inf() as u64 })
    } else if l == "nan"@ {
        Some(Num { neg: negative(s), mag: f.quiet() })
    } else {
        match number_literal(t) {
            Some((digits, exponent)) => Some(
                Num { neg: negative(s), mag: decimal_mag(f, digits, exponent) },
            ),
            None => None,
        }
    }
}

/// Digits write less than the next power of ten.
proof fn lemma_digits_bound(s: Seq<char>)
    requires
        all_digits(s),
    ensures
        digits_value(s) < power_of_ten(s.len()),
    decreases s.len(),
{
    if s.len() > 0 {
        assert(all_digits(s.drop_last())) by {
            assert forall|i: int| 0 <= i < s.drop_last().len() implies is_digit(
                #[trigger] s.drop_last()[i],
            ) by {
                assert(s.drop_last()[i] == s[i]);
            }
        }
        lemma_digits_bound(s.drop_last());
        assert(is_digit(s[s.len() - 1]));
    }
}

pub(crate) proof fn lemma_tens_positive(k: nat)
    ensures
        power_of_ten(k) > 0,
    decreases k,
{
    if k > 0 {
        lemma_tens_positive((k - 1) as nat);
    }
}

/// A power of ten is at least the power of eight.
proof fn lemma_tens_grow(k: nat)
    ensures
        power_of_ten(k) >= pow2((3 * k) as nat),
    decreases k,
{
    lemma2_to64();
    if k > 0 {
        lemma_tens_grow((k - 1) as nat);
        lemma_pow2_adds((3 * (k - 1)) as nat, 3);
        assert((3 * (k - 1)) as nat + 3 == (3 * k) as nat);
        assert(pow2((3 * k) as nat) == pow2((3 * (k - 1)) as nat) * 8);
    }
}

pub(crate) proof fn lemma_tens_add(a: nat, b: nat)
    ensures
        power_of_ten(a + b) == power_of_ten(a) * power_of_ten(b),
    decreases a,
{
    if a > 0 {
        lemma_tens_add((a - 1) as nat, b);
        let x = power_of_ten((a - 1) as nat);
        let y = power_of_ten(b);
        assert((10 * x) * y == 10 * (x * y)) by (nonlinear_arith);
        assert(power_of_ten(a) == 10 * x);
        assert(power_of_ten(a + b) == 10 * power_of_ten((a - 1 + b) as nat));
    } else {
        assert(1 * power_of_ten(b) == power_of_ten(b));
    }
}

/// A large exponent saturates.
pub(crate) proof fn lemma_overflow(f: Format, digits: nat, exponent: int)
    requires
        digits > 0,
        exponent > 400,
    ensures
        decimal_mag(f, digits, exponent) == f.inf(),
{
    lemma_format(f);
    lemma2_to64();
    let k = exponent as nat;
    let w = pow2(f.scale());
    let t = power_of_ten(k);
    let n = digits * t * w;
    assert(up(exponent) == k && up(-exponent) == 0);
    lemma_tens_grow(k);
    lemma_pow2_pos(f.scale());
    lemma_pow2_adds((3 * k) as nat, f.scale());
    let h = pow2((f.p() - 1) as nat);
    let c = pow2((f.top() - 1) as nat);
    lemma_pow2_adds((f.p() - 1) as nat, (f.top() - 1) as nat);
    lemma_pow2_strictly_increases(
        (f.p() - 1 + (f.top() - 1)) as nat,
        ((3 * k) as nat + f.scale()) as nat,
    );
    assert(n >= pow2((3 * k) as nat) * w) by (nonlinear_arith)
        requires
            n == digits * t * w,
            digits >= 1,
            t >= pow2((3 * k) as nat),
            w >= 0,
    {
        assert(digits * t >= t);
        assert((digits * t) * w >= t * w);
        assert(t * w >= pow2((3 * k) as nat) * w);
    }
    assert(n >= (h * c) * 1) by (nonlinear_arith)
        requires
            n >= h * c,
    ;
    assert(power_of_ten(0) == 1);
    crate::float::ratio::lemma_saturates(n, 1, f.p(), f.top());
}

/// A small exponent vanishes.
proof fn lemma_underflow(f: Format, digits: nat, count: nat, exponent: int)
    requires
        digits < power_of_ten(count),
        exponent < -(400 + count),
    ensures
        decimal_mag(f, digits, exponent) == 0,
{
    lemma_format(f);
    lemma2_to64();
    let k = (-exponent) as nat;
    assert(up(exponent) == 0 && up(-exponent) == k);
    let w = pow2(f.scale());
    let rest = (k - count) as nat;
    lemma_pow2_pos(f.scale());
    lemma_tens_add(count, rest);
    lemma_tens_grow(rest);
    lemma_tens_positive(count);
    lemma_pow2_strictly_increases((f.scale() + 1) as nat, (3 * rest) as nat);
    lemma_pow2_unfold((f.scale() + 1) as nat);
    let a = power_of_ten(count);
    let b = power_of_ten(rest);
    let n = digits * 1 * w;
    let d = power_of_ten(k);
    lemma_tens_positive(k);
    assert(power_of_ten(0) == 1);
    assert(2 * n < d) by (nonlinear_arith)
        requires
            n == digits * 1 * w,
            digits < a,
            d == a * b,
            2 * w < b,
            w > 0,
    {
        assert(2 * (digits * w) == digits * (2 * w));
        assert(digits * (2 * w) <= a * (2 * w));
        assert(a * (2 * w) < a * b);
    }
    lemma_pow2_pos(f.scale());
    lemma_pow2_pos(f.p());
    lemma_basic_div(n as int, d as int);
    lemma_small_mod(n, d);
    crate::float::round::lemma_excess(0, f.p(), 0);
    assert(d * pow2(0) == d);
    assert(infinity_mag(f.p(), f.top()) > 0);
    assert(round_mag(n, d, f.p(), f.top()) == 0);
}

/// The magnitude nearest to a decimal.
pub(crate) fn decimal_magnitude(f: Format, digits: Big, count: usize, exponent: i128) -> (mag: u64)
    requires
        digits.value() < power_of_ten(count as nat),
        -0x1000_0000_0000_0000_0000_0000_0000 <= exponent <= 0x1000_0000_0000_0000_0000_0000_0000,
    ensures
        mag == decimal_mag(f, digits.value(), exponent as int),
{
    let zero = Big::from_u32(0);
    let some: bool = match digits.order(&zero) {
        Order::Greater => true,
        _ => false,
    };
    if !some {
        proof {
            lemma_zero_digits(f, exponent as int);
        }
        return 0;
    }
    if exponent > 400 {
        proof {
            lemma_overflow(f, digits.value(), exponent as int);
        }
        return match f {
            Format::Binary32 => 0x7f80_0000,
            Format::Binary64 => 0x7ff0_0000_0000_0000,
        };
    }
    if exponent < -(400 + count as i128) {
        proof {
            lemma_underflow(f, digits.value(), count as nat, exponent as int);
        }
        return 0;
    }
    let scale: u32 = match f {
        Format::Binary32 => 149,
        Format::Binary64 => 1074,
    };
    let ghost v = digits.value();
    let unit = Big::from_u32(1);
    let (n, d): (Big, Big) = if exponent >= 0 {
        (digits.scaled(exponent as u128).shifted(scale), unit)
    } else {
        (digits.shifted(scale), unit.scaled((-exponent) as u128))
    };
    proof {
        lemma_tens_positive(up(-exponent));
        assert(power_of_ten(0) == 1);
        assert(v * 1 == v);
        assert(1 * power_of_ten(up(-exponent)) == power_of_ten(up(-exponent)));
    }
    round_ratio(f, &n, &d)
}

/// No digits but zeros write zero.
pub(crate) proof fn lemma_zero_digits(f: Format, exponent: int)
    ensures
        decimal_mag(f, 0, exponent) == 0,
{
    lemma_format(f);
    lemma2_to64();
    let d = power_of_ten(up(-exponent));
    lemma_tens_positive(up(-exponent));
    let t = power_of_ten(up(exponent));
    let w = pow2(f.scale());
    assert(0 * t * w == 0) by (nonlinear_arith);
    lemma_basic_div(0, d as int);
    lemma_small_mod(0, d);
    lemma_pow2_pos(f.p());
    crate::float::round::lemma_excess(0, f.p(), 0);
    assert(d * pow2(0) == d);
    assert(infinity_mag(f.p(), f.top()) > 0);
}

fn digit(c: char) -> (r: bool)
    ensures
        r == is_digit(c),
{
    '0' <= c && c <= '9'
}

/// Whether a run of characters is digits.
fn digits_only(v: &Vec<char>, from: usize, to: usize) -> (r: bool)
    requires
        from <= to <= v.len(),
    ensures
        r == all_digits(v@.subrange(from as int, to as int)),
{
    let mut i: usize = from;
    let ghost s = v@.subrange(from as int, to as int);
    while i < to
        invariant
            from <= i <= to <= v.len(),
            s == v@.subrange(from as int, to as int),
            forall|j: int| 0 <= j < i - from ==> is_digit(#[trigger] s[j]),
        decreases to - i,
    {
        if !digit(v[i]) {
            assert(s[i - from] == v@[i as int]);
            return false;
        }
        assert(s[i - from] == v@[i as int]);
        i = i + 1;
    }
    true
}

/// The position of the first of two characters.
fn find_either(v: &Vec<char>, from: usize, to: usize, a: char, b: char) -> (r: usize)
    requires
        from <= to <= v.len(),
    ensures
        from <= r <= to,
        r - from == first_of(v@.subrange(from as int, to as int), a, b),
{
    let mut i: usize = from;
    let ghost s = v@.subrange(from as int, to as int);
    assert(s.skip(0) =~= s);
    while i < to
        invariant
            from <= i <= to <= v.len(),
            s == v@.subrange(from as int, to as int),
            first_of(s, a, b) == i - from + first_of(s.skip(i - from), a, b),
        decreases to - i,
    {
        let ghost t = s.skip(i - from);
        assert(t[0] == v@[i as int]);
        assert(t.drop_first() =~= s.skip(i - from + 1));
        if v[i] == a || v[i] == b {
            return i;
        }
        i = i + 1;
    }
    assert(s.skip(i - from).len() == 0);
    i
}

/// The number that a run of digits writes, and at most `2^70`.
fn digits_capped(v: &Vec<char>, from: usize, to: usize) -> (r: i128)
    requires
        from <= to <= v.len(),
        all_digits(v@.subrange(from as int, to as int)),
    ensures
        0 <= r <= 0x40_0000_0000_0000_0000,
        r == digits_value(v@.subrange(from as int, to as int)) || (r
            == 0x40_0000_0000_0000_0000 && digits_value(
            v@.subrange(from as int, to as int),
        ) >= 0x40_0000_0000_0000_0000),
{
    let cap: i128 = 0x40_0000_0000_0000_0000;
    let mut n: i128 = 0;
    let mut i: usize = from;
    let ghost s = v@.subrange(from as int, to as int);
    while i < to
        invariant
            from <= i <= to <= v.len(),
            s == v@.subrange(from as int, to as int),
            all_digits(s),
            cap == 0x40_0000_0000_0000_0000,
            0 <= n <= cap,
            n == digits_value(s.take(i - from)) || (n == cap && digits_value(s.take(i - from))
                >= cap),
        decreases to - i,
    {
        let c: char = v[i];
        assert(c == s[i - from]);
        assert(is_digit(s[i - from]));
        assert(s.take(i - from + 1).drop_last() =~= s.take(i - from));
        assert(s.take(i - from + 1).last() == c);
        let d: i128 = (c as u32 - '0' as u32) as i128;
        n = n * 10 + d;
        if n > cap {
            n = cap;
        }
        i = i + 1;
    }
    assert(s.take(i - from) =~= s);
    n
}

/// The exponent that a run of characters writes, and at most `2^70` either way.
fn exponent_capped(v: &Vec<char>, from: usize, to: usize) -> (r: Option<i128>)
    requires
        from <= to <= v.len(),
    ensures
        match integer_literal(v@.subrange(from as int, to as int)) {
            Some(e) => r matches Some(x) && (x == e || (x == 0x40_0000_0000_0000_0000
                && e >= x) || (x == -0x40_0000_0000_0000_0000 && e <= x))
                && -0x40_0000_0000_0000_0000 <= x
                <= 0x40_0000_0000_0000_0000,
            None => r is None,
        },
{
    let ghost s = v@.subrange(from as int, to as int);
    let sign: bool = from < to && (v[from] == '+' || v[from] == '-');
    let neg: bool = from < to && v[from] == '-';
    let start: usize = if sign {
        from + 1
    } else {
        from
    };
    proof {
        if from < to {
            assert(s[0] == v@[from as int]);
        }
        assert(unsigned(s) =~= v@.subrange(start as int, to as int));
    }
    if start == to || !digits_only(v, start, to) {
        return None;
    }
    let n: i128 = digits_capped(v, start, to);
    Some(if neg { -n } else { n })
}

/// A signed integer literal within a range.
pub fn parse_integer(text: &str, lo: i128, hi: i128) -> (r: Option<i128>)
    requires
        -0x1_0000_0000_0000_0000 <= lo <= hi <= 0x1_0000_0000_0000_0000,
    ensures
        match integer_literal(text@) {
            Some(v) => r == if lo <= v <= hi {
                Some(v as i128)
            } else {
                None
            },
            None => r is None,
        },
{
    let v = chars_of(text);
    assert(v@.subrange(0, v@.len() as int) =~= v@);
    match exponent_capped(&v, 0, v.len()) {
        Some(n) => {
            if lo <= n && n <= hi {
                Some(n)
            } else {
                None
            }
        },
        None => None,
    }
}

/// The digits of a mantissa as a large integer.
fn mantissa_digits(v: &Vec<char>, from: usize, point: usize, to: usize) -> (r: Big)
    requires
        from <= point <= to <= v.len(),
    ensures
        ({
            let digits = without_point(v@.subrange(from as int, to as int), point - from);
            all_digits(digits) ==> r.value() == digits_value(digits)
        }),
{
    let mut r: Big = Big::from_u32(0);
    let mut i: usize = from;
    let ghost m = v@.subrange(from as int, to as int);
    let ghost j = point - from;
    let ghost digits = without_point(m, j);
    while i < to
        invariant
            from <= i <= to <= v.len(),
            from <= point <= to,
            m == v@.subrange(from as int, to as int),
            j == point - from,
            digits == without_point(m, j),
            all_digits(digits) ==> r.value() == digits_value(
                digits.take(
                    if i <= point {
                        i - from
                    } else {
                        i - from - 1
                    },
                ),
            ),
        decreases to - i,
    {
        if i != point {
            let c: char = v[i];
            let ghost k = if i < point {
                i - from
            } else {
                i - from - 1
            };
            proof {
                assert(digits[k] == c);
                assert(digits.take(k + 1).drop_last() =~= digits.take(k));
                assert(digits.take(k + 1).last() == c);
                if all_digits(digits) {
                    assert(is_digit(digits[k]));
                }
            }
            let d: u64 = if digit(c) {
                (c as u32 - '0' as u32) as u64
            } else {
                0
            };
            r = r.times_plus(10, d);
            proof {
                if all_digits(digits) {
                    assert(digits_value(digits.take(k + 1)) == 10 * digits_value(digits.take(k))
                        + digit_value(c));
                }
            }
        }
        i = i + 1;
    }
    proof {
        let k = if i <= point {
            i - from
        } else {
            i - from - 1
        };
        assert(digits.take(k) =~= digits);
    }
    r
}

/// The digits of a mantissa are those before and after its point.
proof fn lemma_mantissa(v: Seq<char>, from: int, point: int, rest: int, mark: int)
    requires
        0 <= from <= point <= rest <= mark <= v.len(),
        rest == if point == mark {
            point
        } else {
            point + 1
        },
    ensures
        ({
            let m = v.subrange(from, mark);
            let digits = without_point(m, point - from);
            let a = v.subrange(from, point);
            let b = v.subrange(rest, mark);
            &&& digits.len() == (point - from) + (mark - rest)
            &&& all_digits(digits) == (all_digits(a) && all_digits(b))
        }),
{
    let m = v.subrange(from, mark);
    let digits = without_point(m, point - from);
    let a = v.subrange(from, point);
    let b = v.subrange(rest, mark);
    assert(digits =~= a + b);
    if all_digits(digits) {
        assert forall|k: int| 0 <= k < a.len() implies is_digit(#[trigger] a[k]) by {
            assert(digits[k] == a[k]);
        }
        assert forall|k: int| 0 <= k < b.len() implies is_digit(#[trigger] b[k]) by {
            assert(digits[a.len() + k] == b[k]);
        }
    }
    if all_digits(a) && all_digits(b) {
        assert forall|k: int| 0 <= k < digits.len() implies is_digit(#[trigger] digits[k]) by {
            if k < a.len() {
                assert(digits[k] == a[k]);
            } else {
                assert(digits[k] == b[k - a.len()]);
            }
        }
    }
}

/// A capped exponent rounds to what the exact one does.
proof fn lemma_capped(f: Format, value: nat, count: nat, exact: int, capped: int)
    requires
        value < power_of_ten(count),
        exact == capped || (exact >= capped > 400) || (exact <= capped < -(400 + count)),
    ensures
        decimal_mag(f, value, exact) == decimal_mag(f, value, capped),
{
    if exact != capped {
        if value == 0 {
            lemma_zero_digits(f, exact);
            lemma_zero_digits(f, capped);
        } else if exact > capped {
            lemma_overflow(f, value, exact);
            lemma_overflow(f, value, capped);
        } else {
            lemma_underflow(f, value, count, exact);
            lemma_underflow(f, value, count, capped);
        }
    }
}

/// The exponent after a mantissa, and at most `2^70` either way.
fn exponent_from(v: &Vec<char>, from: usize, mark: usize) -> (r: Option<i128>)
    requires
        from <= mark <= v.len(),
    ensures
        match exponent_after(v@.skip(from as int), mark - from) {
            Some(e) => r matches Some(x) && (x == e || (x == 0x40_0000_0000_0000_0000
                && e >= x) || (x == -0x40_0000_0000_0000_0000 && e <= x))
                && -0x40_0000_0000_0000_0000 <= x
                <= 0x40_0000_0000_0000_0000,
            None => r is None,
        },
{
    if mark == v.len() {
        Some(0)
    } else {
        assert(v@.skip(from as int).skip(mark - from + 1) =~= v@.subrange(
            mark + 1,
            v@.len() as int,
        ));
        exponent_capped(v, mark + 1, v.len())
    }
}

/// The magnitude that a number literal without a sign stands for.
fn parse_number(f: Format, v: &Vec<char>, from: usize) -> (r: Option<u64>)
    requires
        from <= v.len(),
    ensures
        match number_literal(v@.skip(from as int)) {
            Some((digits, exponent)) => r == Some(decimal_mag(f, digits, exponent)),
            None => r is None,
        },
{
    let ghost s = v@.skip(from as int);
    assert(s =~= v@.subrange(from as int, v@.len() as int));
    let mark: usize = find_either(v, from, v.len(), 'e', 'E');
    let exponent: i128 = match exponent_from(v, from, mark) {
        Some(e) => e,
        None => return None,
    };
    assert(s.take(mark - from) =~= v@.subrange(from as int, mark as int));
    let point: usize = find_either(v, from, mark, '.', '.');
    let rest: usize = if point == mark {
        point
    } else {
        point + 1
    };
    let whole_ok = digits_only(v, from, point);
    let part_ok = digits_only(v, rest, mark);
    let count: usize = (point - from) + (mark - rest);
    let ghost digits = without_point(s.take(mark - from), point - from);
    proof {
        lemma_mantissa(v@, from as int, point as int, rest as int, mark as int);
    }
    if count == 0 || !whole_ok || !part_ok {
        return None;
    }
    let big: Big = mantissa_digits(v, from, point, mark);
    proof {
        lemma_digits_bound(digits);
    }
    let shifted: i128 = exponent - (mark - rest) as i128;
    let ghost value = big.value();
    let mag: u64 = decimal_magnitude(f, big, count, shifted);
    proof {
        let exact = exponent_after(s, mark - from)->Some_0 - (mark - rest);
        lemma_capped(f, value, count as nat, exact, shifted as int);
    }
    Some(mag)
}

/// Digits in two runs.
pub(crate) proof fn lemma_digits_concat(a: Seq<char>, b: Seq<char>)
    ensures
        digits_value(a + b) == digits_value(a) * power_of_ten(b.len()) + digits_value(b),
    decreases b.len(),
{
    if b.len() == 0 {
        assert(a + b =~= a);
        assert(digits_value(a) * 1 == digits_value(a));
    } else {
        let c = b.drop_last();
        assert((a + b).drop_last() =~= a + c);
        lemma_digits_concat(a, c);
        let x = digits_value(a);
        let p = power_of_ten(c.len());
        assert(x * (10 * p) == 10 * (x * p)) by (nonlinear_arith);
        assert(power_of_ten(b.len()) == 10 * p);
    }
}

/// A decimal in units of `10^-7`, if it has no more places. Far beyond 32 bits only its size is kept.
pub fn parse_seven_places(text: &str) -> (r: Option<i128>)
    ensures
        ({
            let t = unsigned(text@);
            let j = first_of(t, '.', '.') as int;
            let digits = without_point(t, j);
            let given = digits.len() - j;
            let m = digits_value(digits) * power_of_ten((7 - given) as nat);
            let v = if negative(text@) {
                -(m as int)
            } else {
                m as int
            };
            if digits.len() > 0 && all_digits(digits) && given <= 7 {
                r matches Some(x) && (x == v || (x > 0xffff_ffff && v > 0xffff_ffff) || (x
                    < -0xffff_ffff && v < -0xffff_ffff))
            } else {
                r is None
            }
        }),
{
    let v = chars_of(text);
    let sign: bool = v.len() > 0 && (v[0] == '+' || v[0] == '-');
    let neg: bool = v.len() > 0 && v[0] == '-';
    let from: usize = if sign {
        1
    } else {
        0
    };
    let end: usize = v.len();
    let ghost t = unsigned(text@);
    assert(t =~= v@.subrange(from as int, end as int));
    let point: usize = find_either(&v, from, end, '.', '.');
    let rest: usize = if point == end {
        point
    } else {
        point + 1
    };
    let whole_ok = digits_only(&v, from, point);
    let part_ok = digits_only(&v, rest, end);
    let ghost digits = without_point(t, point - from);
    proof {
        lemma_mantissa(v@, from as int, point as int, rest as int, end as int);
    }
    let count: usize = (point - from) + (end - rest);
    if count == 0 || !whole_ok || !part_ok || end - rest > 7 {
        return None;
    }
    let a: i128 = digits_capped(&v, from, point);
    let b: i128 = digits_capped(&v, rest, end);
    let given: u32 = (end - rest) as u32;
    let tens: i128 = ten_to(given);
    let scale: i128 = ten_to(7 - given);
    let ghost sa = v@.subrange(from as int, point as int);
    let ghost sb = v@.subrange(rest as int, end as int);
    proof {
        assert(digits =~= sa + sb);
        lemma_digits_concat(sa, sb);
        lemma_digits_bound(sb);
        assert(b < tens);
        let da = digits_value(sa);
        let db = digits_value(sb);
        lemma_scaled(a as int, b as int, tens as int, scale as int, da as int);
        assert(digits_value(digits) * power_of_ten((7 - given) as nat) == (da * tens + db) * scale);
    }
    let m: i128 = (a * tens + b) * scale;
    Some(if neg { -m } else { m })
}

/// Scaling keeps a capped number large.
proof fn lemma_scaled(a: int, b: int, tens: int, scale: int, exact: int)
    requires
        0 <= a <= 0x40_0000_0000_0000_0000,
        a == exact || (a == 0x40_0000_0000_0000_0000 && exact >= a),
        0 <= b < tens,
        1 <= tens <= 10_000_000,
        1 <= scale <= 10_000_000,
    ensures
        0 <= a * tens <= 0x40_0000_0000_0000_0000 * 10_000_000,
        0 <= (a * tens + b) * scale <= 0x7fff_ffff_ffff_ffff_ffff_ffff_ffff_ffff,
        (a * tens + b) * scale == (exact * tens + b) * scale || ((a * tens + b) * scale
            > 0xffff_ffff && (exact * tens + b) * scale > 0xffff_ffff),
{
    let cap = 0x40_0000_0000_0000_0000int;
    assert(0 <= a * tens <= cap * 10_000_000) by (nonlinear_arith)
        requires
            0 <= a <= cap,
            1 <= tens <= 10_000_000,
    ;
    let x = a * tens + b;
    assert(0 <= x * scale <= (cap * 10_000_000 + 10_000_000) * 10_000_000) by (nonlinear_arith)
        requires
            0 <= x <= cap * 10_000_000 + 10_000_000,
            1 <= scale <= 10_000_000,
    ;
    if a != exact {
        let y = exact * tens + b;
        assert(a * tens >= a && exact * tens >= exact) by (nonlinear_arith)
            requires
                a >= 0,
                exact >= 0,
                tens >= 1,
        ;
        assert(x * scale >= x && y * scale >= y) by (nonlinear_arith)
            requires
                x >= 0,
                y >= 0,
                scale >= 1,
        ;
    }
}

/// Ten to a small power.
fn ten_to(k: u32) -> (r: i128)
    requires
        k <= 7,
    ensures
        r == power_of_ten(k as nat),
        1 <= r <= 10_000_000,
{
    reveal_with_fuel(power_of_ten, 9);
    if k == 0 {
        1
    } else if k == 1 {
        10
    } else if k == 2 {
        100
    } else if k == 3 {
        1_000
    } else if k == 4 {
        10_000
    } else if k == 5 {
        100_000
    } else if k == 6 {
        1_000_000
    } else {
        10_000_000
    }
}

/// The number that a literal stands for.
fn parse_literal(f: Format, text: &str) -> (r: Option<Num>)
    ensures
        r == float_literal(f, text@),
{
    let v = chars_of(text);
    let sign: bool = v.len() > 0 && (v[0] == '+' || v[0] == '-');
    let neg: bool = v.len() > 0 && v[0] == '-';
    let from: usize = if sign {
        1
    } else {
        0
    };
    let rest = crate::text::text_of(&v, from, v.len());
    assert(rest@ =~= unsigned(text@));
    assert(v@.skip(from as int) =~= unsigned(text@));
    let word = lower(rest.as_str());
    if same(word.as_str(), "inf") || same(word.as_str(), "infinity") {
        let mag: u64 = match f {
            Format::Binary32 => 0x7f80_0000,
            Format::Binary64 => 0x7ff0_0000_0000_0000,
        };
        return Some(Num { neg, mag });
    }
    if same(word.as_str(), "nan") {
        let mag: u64 = match f {
            Format::Binary32 => 0x7fc0_0000,
            Format::Binary64 => 0x7ff8_0000_0000_0000,
        };
        return Some(Num { neg, mag });
    }
    match parse_number(f, &v, from) {
        Some(mag) => Some(Num { neg, mag }),
        None => None,
    }
}

/// The binary32 number that a literal stands for.
pub open spec fn single_literal(s: Seq<char>) -> Option<F32> {
    match float_literal(Format::Binary32, s) {
        Some(n) => Some(F32::of(n)),
        None => None,
    }
}

/// The binary64 number that a literal stands for.
pub open spec fn double_literal(s: Seq<char>) -> Option<F64> {
    match float_literal(Format::Binary64, s) {
        Some(n) => Some(F64::of(n)),
        None => None,
    }
}

/// Reads a binary32 literal.
pub fn parse_single(text: &str) -> (r: Option<F32>)
    ensures
        r == single_literal(text@),
{
    match parse_literal(Format::Binary32, text) {
        Some(n) => Some(F32::join(n)),
        None => None,
    }
}

/// Reads a binary64 literal.
pub fn parse_double(text: &str) -> (r: Option<F64>)
    ensures
        r == double_literal(text@),
{
    match parse_literal(Format::Binary64, text) {
        Some(n) => Some(F64::join(n)),
        None => None,
    }
}

} // verus!
