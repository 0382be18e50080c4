//! What written texts hold to when they are read.

use crate::big::power_of_ten;
use crate::calib::fixed_literal;
use crate::decimal::{
    all_digits, decimal_mag, digit_value, digits_value, double_literal, first_of, float_literal,
    integer_literal, is_digit, lemma_digits_concat, lemma_tens_positive, number_literal,
    single_literal, unsigned, without_point,
};
use crate::float::binary32::F32;
use crate::float::binary64::F64;
use crate::float::exact::{exact, fine_slack, rounding, size, slack, smallest};
use crate::float::num::{Format, Num};
use crate::float::round::up;
use crate::numeral::{law_shortest_decimal, plain, positional, shortest, with_sign, zeros};
use crate::text::{before, decimal, digit_char, is_white, lower_char, lowered, signed_decimal, trimmed};
use crate::value::FixedPoint7dps;
use vstd::prelude::*;

verus! {

/// A trimmed text is what is left of a text when white space is taken off both ends: it starts and
/// ends with none.
pub proof fn law_trim(s: Seq<char>)
    ensures
        trimmed(s).len() > 0 ==> !is_white(trimmed(s)[0]) && !is_white(trimmed(s).last()),
        exists|i: int, j: int| #[trigger] is_core(s, i, j) && trimmed(s) == s.subrange(i, j),
    decreases s.len(),
{
    if s.len() == 0 {
        assert(is_core(s, 0, 0));
        assert(s.subrange(0, 0) =~= s);
    } else if is_white(s[0]) {
        let t = s.drop_first();
        law_trim(t);
        let (i, j) = choose|i: int, j: int| #[trigger] is_core(t, i, j) && trimmed(t) == t.subrange(i, j);
        assert forall|k: int| 0 <= k < s.len() && !(i + 1 <= k < j + 1) implies is_white(
            #[trigger] s[k],
        ) by {
            if k > 0 {
                assert(s[k] == t[k - 1]);
            }
        }
        assert(is_core(s, i + 1, j + 1));
        assert(s.subrange(i + 1, j + 1) =~= t.subrange(i, j));
    } else if is_white(s.last()) {
        let t = s.drop_last();
        law_trim(t);
        let (i, j) = choose|i: int, j: int| #[trigger] is_core(t, i, j) && trimmed(t) == t.subrange(i, j);
        assert forall|k: int| 0 <= k < s.len() && !(i <= k < j) implies is_white(#[trigger] s[k]) by {
            if k < s.len() - 1 {
                assert(s[k] == t[k]);
            }
        }
        assert(is_core(s, i, j));
        assert(s.subrange(i, j) =~= t.subrange(i, j));
    } else {
        assert(is_core(s, 0, s.len() as int));
        assert(s.subrange(0, s.len() as int) =~= s);
    }
}

/// Whether all that stands outside a part of a text is white space.
pub open spec fn is_core(s: Seq<char>, i: int, j: int) -> bool {
    0 <= i <= j <= s.len() && forall|k: int|
        0 <= k < s.len() && !(i <= k < j) ==> is_white(#[trigger] s[k])
}

/// Lowering a text keeps its length and changes the letters `A` to `Z` alone, each to the letter
/// that stands 32 places after it.
pub proof fn law_lower(s: Seq<char>, i: int)
    requires
        0 <= i < s.len(),
    ensures
        lowered(s).len() == s.len(),
        65 <= s[i] as u32 <= 90 ==> lowered(s)[i] as u32 == s[i] as u32 + 32,
        !(65 <= s[i] as u32 <= 90) ==> lowered(s)[i] == s[i],
        lowered(lowered(s)) == lowered(s),
{
    assert(lowered(s)[i] == lower_char(s[i]));
    assert(lowered(lowered(s)) =~= lowered(s)) by {
        assert forall|k: int| 0 <= k < s.len() implies lower_char(lower_char(#[trigger] s[k]))
            == lower_char(s[k]) by {
        }
    }
}

/// Texts are ordered by the first character in which they differ; a text comes before those that
/// continue it.
pub proof fn law_order_of_texts(head: Seq<char>, a: char, b: char, x: Seq<char>, y: Seq<char>)
    requires
        a as u32 != b as u32,
    ensures
        before(head.push(a) + x, head.push(b) + y) == ((a as u32) < (b as u32)),
        before(head, head.push(a) + x),
        !before(head, head),
    decreases head.len(),
{
    let (s, t) = (head.push(a) + x, head.push(b) + y);
    if head.len() > 0 {
        let rest = head.drop_first();
        law_order_of_texts(rest, a, b, x, y);
        assert(s.drop_first() =~= rest.push(a) + x);
        assert(t.drop_first() =~= rest.push(b) + y);
        assert(s[0] == head[0] && t[0] == head[0]);
    } else {
        assert(s[0] == a && t[0] == b);
    }
}

/// The digits of a number read back as the number, and start with no zero unless it is zero.
pub proof fn law_decimal_reads_back(v: nat)
    ensures
        decimal(v).len() > 0,
        all_digits(decimal(v)),
        digits_value(decimal(v)) == v,
        v > 0 ==> decimal(v)[0] != '0',
    decreases v,
{
    let last = digit_char(v % 10);
    assert(is_digit(last) && digit_value(last) == v % 10);
    if v < 10 {
        let s = seq![digit_char(v)];
        assert(s.drop_last() =~= Seq::<char>::empty());
        assert(digits_value(s.drop_last()) == 0);
        assert(s.last() == digit_char(v));
    } else {
        law_decimal_reads_back(v / 10);
        let head = decimal(v / 10);
        assert(decimal(v).drop_last() =~= head);
        assert forall|i: int| 0 <= i < decimal(v).len() implies is_digit(#[trigger] decimal(v)[i]) by {
            if i < head.len() {
                assert(decimal(v)[i] == head[i]);
            }
        }
        assert(decimal(v)[0] == head[0]);
    }
}

/// A signed number in decimal reads back as the number.
pub proof fn law_signed_decimal_reads_back(v: int)
    ensures
        integer_literal(signed_decimal(v)) == Some(v),
{
    let m = (if v < 0 { -v } else { v }) as nat;
    law_decimal_reads_back(m);
    let d = decimal(m);
    assert(is_digit(d[0]));
    if v < 0 {
        assert(signed_decimal(v).skip(1) =~= d);
    }
}

/// Digits count by their place: those before count as many times more as the ones after have
/// places.
pub proof fn law_places(a: Seq<char>, b: Seq<char>, d: char)
    requires
        is_digit(d),
    ensures
        digits_value(a + b) == digits_value(a) * power_of_ten(b.len()) + digits_value(b),
        digits_value(seq![d]) == d as u32 - '0' as u32,
{
    lemma_digits_concat(a, b);
    lemma_one_digit(d);
}

proof fn lemma_one_digit(d: char)
    requires
        is_digit(d),
    ensures
        digits_value(seq![d]) == d as u32 - '0' as u32,
        all_digits(seq![d]),
{
    let s = seq![d];
    assert(s.drop_last() =~= Seq::<char>::empty());
    assert(digits_value(Seq::<char>::empty()) == 0);
    assert(s.last() == d);
    assert(digits_value(s) == 10 * digits_value(s.drop_last()) + digit_value(d));
}

proof fn lemma_first(s: Seq<char>, a: char, b: char, k: int)
    requires
        0 <= k <= s.len(),
        forall|i: int| 0 <= i < k ==> s[i] != a && s[i] != b,
        k < s.len() ==> s[k] == a || s[k] == b,
    ensures
        first_of(s, a, b) == k,
    decreases s.len(),
{
    if s.len() > 0 && k > 0 {
        assert(s[0] != a && s[0] != b);
        let rest = s.drop_first();
        assert forall|i: int| 0 <= i < k - 1 implies rest[i] != a && rest[i] != b by {
            assert(rest[i] == s[i + 1]);
        }
        lemma_first(rest, a, b, k - 1);
    }
}

/// Digits are read as a number without places; with a point among them, those after it are its
/// places.
pub proof fn law_decimal_point(a: Seq<char>, b: Seq<char>)
    requires
        all_digits(a),
        all_digits(b),
        a.len() + b.len() > 0,
    ensures
        number_literal(a + "."@ + b) == Some((digits_value(a + b), -(b.len() as int))),
        a.len() > 0 ==> number_literal(a) == Some((digits_value(a), 0int)),
{
    reveal_strlit(".");
    let s = a + "."@ + b;
    assert("."@.len() == 1 && "."@[0] == '.');
    assert forall|i: int| 0 <= i < s.len() implies s[i] != 'e' && s[i] != 'E' by {
        if i < a.len() {
            assert(is_digit(a[i]));
        } else if i > a.len() {
            assert(s[i] == b[i - a.len() - 1]);
            assert(is_digit(b[i - a.len() - 1]));
        }
    }
    lemma_first(s, 'e', 'E', s.len() as int);
    assert(s.take(s.len() as int) =~= s);
    assert forall|i: int| 0 <= i < a.len() implies s[i] != '.' by {
        assert(is_digit(a[i]));
    }
    lemma_first(s, '.', '.', a.len() as int);
    assert(without_point(s, a.len() as int) =~= a + b);
    assert(all_digits(a + b)) by {
        assert forall|i: int| 0 <= i < (a + b).len() implies is_digit(#[trigger] (a + b)[i]) by {
            if i < a.len() {
                assert(is_digit(a[i]));
            } else {
                assert(is_digit(b[i - a.len()]));
            }
        }
    }
    if a.len() > 0 {
        assert forall|i: int| 0 <= i < a.len() implies a[i] != 'e' && a[i] != 'E' && a[i] != '.' by {
            assert(is_digit(a[i]));
        }
        lemma_first(a, 'e', 'E', a.len() as int);
        assert(a.take(a.len() as int) =~= a);
        lemma_first(a, '.', '.', a.len() as int);
        assert(without_point(a, a.len() as int) =~= a);
    }
}

/// Zeros have the value zero.
proof fn lemma_zeros(n: nat)
    ensures
        all_digits(zeros(n)),
        digits_value(zeros(n)) == 0,
    decreases n,
{
    if n > 0 {
        lemma_zeros((n - 1) as nat);
        assert(zeros(n).drop_last() =~= zeros((n - 1) as nat));
    }
}

/// Digits with zeros after them are read as a whole number.
proof fn lemma_whole_positional(f: Format, n: nat, e: int)
    requires
        n > 0,
        e >= 0,
    ensures
        number_literal(decimal(n) + zeros(e as nat)) matches Some((d, k)) && decimal_mag(f, d, k)
            == decimal_mag(f, n, e),
{
    let digits = decimal(n);
    law_decimal_reads_back(n);
    let none = Seq::<char>::empty();
    let z = zeros(e as nat);
    lemma_zeros(e as nat);
    let s = digits + z;
    lemma_all_digits(digits, z);
    law_decimal_point(s, none);
    lemma_digits_concat(digits, z);
    lemma_zeros(z.len());
    let t = power_of_ten(e as nat);
    assert(digits_value(s) == n * t);
    assert(up(0) == 0 && up(e) == e as nat && up(-e) == 0);
    assert(power_of_ten(0) == 1);
    let w = vstd::arithmetic::power2::pow2(f.scale());
    assert((n * t) * 1 * w == n * t * w) by (nonlinear_arith);
}

/// Two lists of digits are one.
proof fn lemma_all_digits(a: Seq<char>, b: Seq<char>)
    requires
        all_digits(a),
        all_digits(b),
    ensures
        all_digits(a + b),
{
    assert forall|i: int| 0 <= i < (a + b).len() implies is_digit(#[trigger] (a + b)[i]) by {
        if i < a.len() {
            assert(is_digit(a[i]));
        } else {
            assert(is_digit(b[i - a.len()]));
        }
    }
}

/// Digits with a point among them are read with their last place.
proof fn lemma_split_positional(n: nat, whole: int)
    requires
        0 < whole < decimal(n).len(),
    ensures
        number_literal(decimal(n).take(whole) + "."@ + decimal(n).skip(whole)) == Some(
            (n, whole - decimal(n).len()),
        ),
{
    let digits = decimal(n);
    law_decimal_reads_back(n);
    let (a, b) = (digits.take(whole), digits.skip(whole));
    assert forall|i: int| 0 <= i < a.len() implies is_digit(#[trigger] a[i]) by {
        assert(is_digit(digits[i]));
    }
    assert forall|i: int| 0 <= i < b.len() implies is_digit(#[trigger] b[i]) by {
        assert(is_digit(digits[whole + i]));
    }
    law_decimal_point(a, b);
    assert(a + b =~= digits);
}

/// Digits after a point and zeros are read with their last place.
proof fn lemma_small_positional(n: nat, k: nat)
    ensures
        number_literal("0."@ + zeros(k) + decimal(n)) == Some((n, -(k + decimal(n).len()))),
{
    let digits = decimal(n);
    law_decimal_reads_back(n);
    reveal_strlit(".");
    reveal_strlit("0.");
    let z = zeros(k);
    lemma_zeros(k);
    let a = seq!['0'];
    let b = z + digits;
    lemma_one_digit('0');
    lemma_all_digits(z, digits);
    assert("0."@.len() == 2 && "0."@[0] == '0' && "0."@[1] == '.');
    assert("."@.len() == 1 && "."@[0] == '.');
    assert("0."@ + z + digits =~= a + "."@ + b);
    law_decimal_point(a, b);
    lemma_digits_concat(a, b);
    lemma_digits_concat(z, digits);
    let (p, q) = (power_of_ten(b.len()), power_of_ten(digits.len()));
    assert(0 * p == 0 && 0 * q == 0) by (nonlinear_arith);
}

/// A positional decimal is read as its digits and their last place.
proof fn lemma_positional(f: Format, n: nat, e: int)
    requires
        n > 0,
    ensures
        ({
            let s = positional(decimal(n), e);
            &&& s.len() > 0 && is_digit(s[0])
            &&& number_literal(s) matches Some((d, k)) && decimal_mag(f, d, k) == decimal_mag(f, n, e)
        }),
{
    let digits = decimal(n);
    law_decimal_reads_back(n);
    let whole = digits.len() + e;
    assert(is_digit(digits[0]));
    if e >= 0 {
        lemma_whole_positional(f, n, e);
    } else if whole > 0 {
        lemma_split_positional(n, whole);
    } else {
        lemma_small_positional(n, (-whole) as nat);
        reveal_strlit("0.");
        assert("0."@.len() == 2 && "0."@[0] == '0');
    }
}

/// A finite number that is written in decimal reads back as the number.
proof fn lemma_number_reads_back(f: Format, a: Num)
    requires
        a.mag < f.inf(),
    ensures
        float_literal(f, plain(f, a)) == Some(a),
{
    reveal_strlit("inf");
    reveal_strlit("infinity");
    reveal_strlit("nan");
    reveal_strlit("-");
    reveal_strlit("0");
    assert("inf"@[0] == 'i' && "infinity"@[0] == 'i' && "nan"@[0] == 'n');
    let body = if a.mag == 0 {
        "0"@
    } else {
        positional(decimal(shortest(f, a.mag).0), shortest(f, a.mag).1)
    };
    assert("-"@.len() == 1 && "-"@[0] == '-' && "0"@.len() == 1 && "0"@[0] == '0');
    if a.mag == 0 {
        assert(all_digits("0"@));
        law_decimal_point("0"@, Seq::empty());
        lemma_one_digit('0');
        assert("0"@ =~= seq!['0']);
        crate::decimal::lemma_zero_digits(f, 0);
    } else {
        law_shortest_decimal(f, a.mag, 0);
        lemma_positional(f, shortest(f, a.mag).0, shortest(f, a.mag).1);
    }
    let s = plain(f, a);
    assert(s == with_sign(a.neg, body));
    assert(is_digit(body[0]));
    assert(unsigned(s) =~= body);
    assert(lowered(body)[0] == body[0]);
}

/// A finite number of binary32 or of binary64 that is written in decimal reads back as the number.
pub proof fn law_numbers_read_back(x: F32, y: F64)
    ensures
        x.is_finite() ==> single_literal(x.text()) == Some(x),
        y.is_finite() ==> double_literal(y.text()) == Some(y),
{
    if x.is_finite() {
        lemma_number_reads_back(Format::Binary32, x.num());
    }
    if y.is_finite() {
        lemma_number_reads_back(Format::Binary64, y.num());
    }
}

/// A decimal with whole digits and no more than seven places is stored as ten millions of it, where
/// that fits.
pub proof fn law_fixed_point_literals(a: Seq<char>, b: Seq<char>, minus: bool, raw: int)
    requires
        all_digits(a),
        all_digits(b),
        a.len() > 0,
        b.len() <= 7,
        raw * power_of_ten(b.len()) == (if minus {
            -(digits_value(a + b) as int)
        } else {
            digits_value(a + b) as int
        }) * 10_000_000,
        i32::MIN <= raw <= i32::MAX,
    ensures
        fixed_literal(with_sign(minus, a + "."@ + b)) == Some(FixedPoint7dps { raw: raw as i32 }),
{
    reveal_strlit(".");
    reveal_strlit("-");
    assert("."@.len() == 1 && "."@[0] == '.' && "-"@.len() == 1 && "-"@[0] == '-');
    let t = a + "."@ + b;
    let s = with_sign(minus, t);
    assert(is_digit(a[0]));
    assert(unsigned(s) =~= t);
    assert forall|i: int| 0 <= i < a.len() implies t[i] != '.' by {
        assert(is_digit(a[i]));
    }
    lemma_first(t, '.', '.', a.len() as int);
    let digits = without_point(t, a.len() as int);
    assert(digits =~= a + b);
    assert(all_digits(digits)) by {
        assert forall|i: int| 0 <= i < digits.len() implies is_digit(#[trigger] digits[i]) by {
            if i < a.len() {
                assert(is_digit(a[i]));
            } else {
                assert(is_digit(b[i - a.len()]));
            }
        }
    }
    let (p, q) = (power_of_ten(b.len()) as int, power_of_ten((7 - b.len()) as nat) as int);
    crate::decimal::lemma_tens_add(b.len(), (7 - b.len()) as nat);
    lemma_tens_positive(b.len());
    assert(power_of_ten(7) == 10_000_000) by {
        reveal_with_fuel(power_of_ten, 8);
    }
    let m = digits_value(a + b) as int;
    let v = if minus { -(m * q) } else { m * q };
    assert(raw == v) by (nonlinear_arith)
        requires
            raw * p == (if minus { -m } else { m }) * (p * q),
            v == (if minus { -(m * q) } else { m * q }),
            p > 0,
    {
        assert((if minus { -m } else { m }) * (p * q) == v * p);
        assert(raw * p == v * p);
    }
}

/// A decimal in exact values.
pub open spec fn decimal_value(digits: nat, exponent: int) -> real {
    if exponent >= 0 {
        (digits as int as real) * (power_of_ten(exponent as nat) as int as real)
    } else {
        (digits as int as real) / (power_of_ten((-exponent) as nat) as int as real)
    }
}

/// A literal is read as the number nearest to what its digits and its exponent say, within
/// rounding, with its sign.
pub proof fn law_literals_are_near(t: Seq<char>, minus: bool, digits: nat, exponent: int)
    requires
        t.len() > 0,
        is_digit(t[0]),
        number_literal(t) == Some((digits, exponent)),
    ensures
        double_literal(with_sign(minus, t)) matches Some(v) && (v.is_finite() ==> {
            let x = decimal_value(digits, exponent);
            size(
                v.exact() - if minus {
                    -x
                } else {
                    x
                },
            ) <= fine_slack(x)
        }),
        single_literal(with_sign(minus, t)) matches Some(v) && (v.is_finite() ==> {
            let x = decimal_value(digits, exponent);
            size(
                v.exact() - if minus {
                    -x
                } else {
                    x
                },
            ) <= slack(x)
        }),
{
    reveal_strlit("inf");
    reveal_strlit("infinity");
    reveal_strlit("nan");
    reveal_strlit("-");
    assert("inf"@[0] == 'i' && "infinity"@[0] == 'i' && "nan"@[0] == 'n');
    assert("-"@.len() == 1 && "-"@[0] == '-');
    let s = with_sign(minus, t);
    assert(unsigned(s) =~= t);
    assert(lowered(t)[0] == lower_char(t[0]));
    lemma_literal(Format::Binary64, digits, exponent, minus);
    lemma_literal(Format::Binary32, digits, exponent, minus);
    let (a, b) = (float_literal(Format::Binary64, s)->Some_0, float_literal(Format::Binary32, s)->Some_0);
    assert(F64::of(a).num() == a);
    assert(F32::of(b).num() == b);
}

proof fn lemma_literal(f: Format, digits: nat, exponent: int, minus: bool)
    ensures
        ({
            let n = Num { neg: minus, mag: decimal_mag(f, digits, exponent) };
            let x = decimal_value(digits, exponent);
            &&& n.mag <= f.inf()
            &&& n.mag < f.inf() ==> size(
                exact(f, n) - if minus {
                    -x
                } else {
                    x
                },
            ) <= rounding(f) * size(x) + smallest(f)
        }),
{
    let (p, q) = (power_of_ten(up(exponent)), power_of_ten(up(-exponent)));
    lemma_tens_positive(up(-exponent));
    lemma_tens_positive(up(exponent));
    let s = vstd::arithmetic::power2::pow2(f.scale());
    let n = digits * p * s;
    crate::float::exact::lemma_near_exact(f, n, q, minus);
    crate::float::exact::lemma_real_product((digits * p) as int, s as int);
    crate::float::exact::lemma_real_product(digits as int, p as int);
    let (d, pr, qr, sr) = (
        digits as int as real,
        p as int as real,
        q as int as real,
        s as int as real,
    );
    let x = decimal_value(digits, exponent);
    assert(x >= 0real && (d * pr * sr) / (qr * sr) == x) by (nonlinear_arith)
        requires
            d >= 0real,
            pr > 0real,
            qr > 0real,
            sr > 0real,
            (qr == 1real && x == d * pr) || (pr == 1real && x == d / qr),
    {
        assert((d * pr * sr) / (qr * sr) == (d * pr) / qr);
    }
}

} // verus!
