//! Unsigned integers of any size.

use crate::builtins::scalars::{int_order, Order};
use crate::text::decimal;
use vstd::arithmetic::div_mod::*;
use vstd::arithmetic::power2::*;
use vstd::prelude::*;

verus! {

/// The value of limbs, least significant first.
pub open spec fn limbs_value(s: Seq<u32>) -> nat
    decreases s.len(),
{
    if s.len() == 0 {
        0
    } else {
        limbs_value(s.drop_last()) + s.last() as nat * pow2((32 * (s.len() - 1)) as nat)
    }
}

/// An unsigned integer.
pub struct Big {
    /// Its limbs, least significant first.
    pub limbs: Vec<u32>,
}

/// Adding a limb at the top.
proof fn lemma_push(s: Seq<u32>, x: u32)
    ensures
        limbs_value(s.push(x)) == limbs_value(s) + x as nat * pow2((32 * s.len()) as nat),
{
    assert(s.push(x).drop_last() =~= s);
}

/// Limbs are worth less than the next place.
proof fn lemma_bound(s: Seq<u32>)
    ensures
        limbs_value(s) < pow2((32 * s.len()) as nat),
    decreases s.len(),
{
    lemma2_to64();
    if s.len() > 0 {
        lemma_bound(s.drop_last());
        let n = (s.len() - 1) as nat;
        lemma_pow2_adds((32 * n) as nat, 32);
        let w = pow2((32 * n) as nat);
        assert(s.last() as nat * w + w <= 0x1_0000_0000 * w) by (nonlinear_arith)
            requires
                s.last() as nat + 1 <= 0x1_0000_0000,
                w >= 0,
        ;
        assert((32 * n) as nat + 32 == (32 * s.len()) as nat);
        assert(pow2((32 * s.len()) as nat) == w * 0x1_0000_0000);
    }
}

impl Big {
    /// The value.
    pub open spec fn value(self) -> nat {
        limbs_value(self.limbs@)
    }

    /// A small value.
    pub fn from_u32(v: u32) -> (r: Big)
        ensures
            r.value() == v,
    {
        let mut limbs: Vec<u32> = Vec::new();
        limbs.push(v);
        proof {
            lemma2_to64();
            lemma_push(Seq::<u32>::empty(), v);
            assert(limbs@ =~= Seq::<u32>::empty().push(v));
            assert(v as nat * pow2(0) == v) by (nonlinear_arith)
                requires
                    pow2(0) == 1,
            ;
        }
        Big { limbs }
    }

    /// The value times `m`, plus `a`.
    pub fn times_plus(&self, m: u64, a: u64) -> (r: Big)
        ensures
            r.value() == self.value() * m + a,
    {
        let mut out: Vec<u32> = Vec::new();
        let mut carry: u128 = a as u128;
        let mut i: usize = 0;
        let ghost v = self.limbs@;
        proof {
            lemma2_to64();
            assert(v.take(0) =~= Seq::<u32>::empty());
            assert(0 * m == 0 && a * pow2(0) == a) by (nonlinear_arith)
                requires
                    pow2(0) == 1,
            ;
        }
        while i < self.limbs.len()
            invariant
                i <= v.len(),
                v == self.limbs@,
                out.len() == i,
                carry < 0x1_0000_0000_0000_0000,
                limbs_value(v.take(i as int)) * m + a == limbs_value(out@) + carry * pow2(
                    (32 * i) as nat,
                ),
            decreases v.len() - i,
        {
            let limb: u32 = self.limbs[i];
            proof {
                assert(0 <= limb * m <= 0xffff_ffff * 0xffff_ffff_ffff_ffff) by (nonlinear_arith)
                    requires
                        0 <= limb <= 0xffff_ffff,
                        0 <= m <= 0xffff_ffff_ffff_ffff,
                ;
            }
            let t: u128 = (limb as u128) * (m as u128) + carry;
            let low: u32 = (t % 0x1_0000_0000) as u32;
            let high: u128 = t / 0x1_0000_0000;
            proof {
                let w = pow2((32 * i) as nat);
                let w2 = pow2((32 * (i + 1)) as nat);
                lemma2_to64();
                lemma_pow2_adds((32 * i) as nat, 32);
                assert((32 * i) as nat + 32 == (32 * (i + 1)) as nat);
                assert(w2 == w * 0x1_0000_0000);
                lemma_push(out@, low);
                assert(v.take(i + 1).drop_last() =~= v.take(i as int));
                assert(v.take(i + 1).last() == limb);
                let x = limbs_value(v.take(i as int));
                let y = limbs_value(out@);
                assert((x + limb * w) * m + a == (y + low * w) + high * w2) by (nonlinear_arith)
                    requires
                        x * m + a == y + carry * w,
                        limb * m + carry == high * 0x1_0000_0000 + low,
                        w2 == w * 0x1_0000_0000,
                ;
            }
            out.push(low);
            carry = high;
            i = i + 1;
        }
        assert(v.take(i as int) =~= v);
        while carry > 0
            invariant
                carry < 0x1_0000_0000_0000_0000,
                limbs_value(v) * m + a == limbs_value(out@) + carry * pow2((32 * out.len()) as nat),
            decreases carry,
        {
            let low: u32 = (carry % 0x1_0000_0000) as u32;
            let high: u128 = carry / 0x1_0000_0000;
            proof {
                let n = out.len() as nat;
                let w = pow2((32 * n) as nat);
                let w2 = pow2((32 * (n + 1)) as nat);
                lemma2_to64();
                lemma_pow2_adds((32 * n) as nat, 32);
                assert((32 * n) as nat + 32 == (32 * (n + 1)) as nat);
                assert(w2 == w * 0x1_0000_0000);
                lemma_push(out@, low);
                assert(carry * w == low * w + high * w2) by (nonlinear_arith)
                    requires
                        carry == high * 0x1_0000_0000 + low,
                        w2 == w * 0x1_0000_0000,
                ;
            }
            out.push(low);
            carry = high;
        }
        Big { limbs: out }
    }

    /// The value times `2^k`.
    pub fn shifted(self, k: u32) -> (r: Big)
        ensures
            r.value() == self.value() * pow2(k as nat),
    {
        let words: u32 = k / 32;
        let left: u32 = k % 32;
        let ghost v = self.limbs@;
        let mut out: Vec<u32> = Vec::new();
        let mut i: u32 = 0;
        while i < words
            invariant
                i <= words,
                out.len() == i,
                forall|j: int| 0 <= j < i ==> #[trigger] out@[j] == 0,
            decreases words - i,
        {
            out.push(0);
            i = i + 1;
        }
        let ghost low = out@;
        let mut n: usize = 0;
        assert(low + v.take(0) =~= low);
        while n < self.limbs.len()
            invariant
                n <= v.len(),
                v == self.limbs@,
                out@ == low + v.take(n as int),
            decreases v.len() - n,
        {
            out.push(self.limbs[n]);
            n = n + 1;
            assert(out@ =~= low + v.take(n as int));
        }
        let w: u64 = crate::float::round::power_of_two(left) as u64;
        proof {
            assert(v.take(n as int) =~= v);
            lemma_low_zeros(low, v);
            lemma2_to64();
            lemma_pow2_strictly_increases(left as nat, 32);
            lemma_pow2_adds((32 * words) as nat, left as nat);
            let (x, a, b) = (limbs_value(v), pow2((32 * words) as nat), pow2(left as nat));
            assert((x * a) * b == x * (a * b)) by (nonlinear_arith);
        }
        (Big { limbs: out }).times_plus(w, 0)
    }

    /// The value times `10^k`.
    pub fn scaled(self, k: u128) -> (r: Big)
        ensures
            r.value() == self.value() * power_of_ten(k as nat),
    {
        let mut r: Big = self;
        let mut left: u128 = k;
        let ghost v = self.value();
        while left >= 9
            invariant
                left <= k,
                v * power_of_ten(k as nat) == r.value() * power_of_ten(left as nat),
            decreases left,
        {
            proof {
                reveal_with_fuel(power_of_ten, 10);
                assert(power_of_ten(9) == 1_000_000_000);
                crate::decimal::lemma_tens_add(9, (left - 9) as nat);
                let (x, p) = (r.value(), power_of_ten((left - 9) as nat));
                assert(x * (1_000_000_000 * p) == (x * 1_000_000_000) * p) by (nonlinear_arith);
            }
            r = r.times_plus(1_000_000_000, 0);
            left = left - 9;
        }
        while left > 0
            invariant
                left <= k,
                v * power_of_ten(k as nat) == r.value() * power_of_ten(left as nat),
            decreases left,
        {
            proof {
                let (x, p) = (r.value(), power_of_ten((left - 1) as nat));
                assert(x * (10 * p) == (x * 10) * p) by (nonlinear_arith);
            }
            r = r.times_plus(10, 0);
            left = left - 1;
        }
        proof {
            let x = r.value();
            assert(power_of_ten(0) == 1);
            assert(x * 1 == x);
        }
        r
    }

    /// A limb, or zero beyond the top.
    fn limb(&self, i: usize) -> (r: u32)
        ensures
            r == if i < self.limbs.len() {
                self.limbs@[i as int]
            } else {
                0
            },
    {
        if i < self.limbs.len() {
            self.limbs[i]
        } else {
            0
        }
    }

    /// How this stands to another integer.
    pub fn order(&self, other: &Big) -> (r: Order)
        ensures
            r == int_order(self.value() as int, other.value() as int),
    {
        let mut n: usize = if self.limbs.len() > other.limbs.len() {
            self.limbs.len()
        } else {
            other.limbs.len()
        };
        let ghost a = padded(self.limbs@, n as int);
        let ghost b = padded(other.limbs@, n as int);
        proof {
            lemma_padded(self.limbs@, n as int);
            lemma_padded(other.limbs@, n as int);
            assert(a.take(n as int) =~= a);
            assert(b.take(n as int) =~= b);
        }
        while n > 0
            invariant
                n <= a.len() == b.len(),
                forall|i: int|
                    0 <= i < a.len() ==> #[trigger] a[i] == if i < self.limbs@.len() {
                        self.limbs@[i]
                    } else {
                        0
                    },
                forall|i: int|
                    0 <= i < b.len() ==> #[trigger] b[i] == if i < other.limbs@.len() {
                        other.limbs@[i]
                    } else {
                        0
                    },
                limbs_value(a) == self.value(),
                limbs_value(b) == other.value(),
                limbs_value(a) - limbs_value(a.take(n as int)) == limbs_value(b) - limbs_value(
                    b.take(n as int),
                ),
            decreases n,
        {
            let x: u32 = self.limb(n - 1);
            let y: u32 = other.limb(n - 1);
            proof {
                let s = a.take(n as int);
                let t = b.take(n as int);
                assert(s.drop_last() =~= a.take(n - 1));
                assert(t.drop_last() =~= b.take(n - 1));
                assert(s.last() == x && t.last() == y);
                lemma_bound(a.take(n - 1));
                lemma_bound(b.take(n - 1));
                let w = pow2((32 * (n - 1)) as nat);
                if x < y {
                    assert(x * w + w <= y * w) by (nonlinear_arith)
                        requires
                            x + 1 <= y,
                            w >= 0,
                    ;
                } else if y < x {
                    assert(y * w + w <= x * w) by (nonlinear_arith)
                        requires
                            y + 1 <= x,
                            w >= 0,
                    ;
                }
            }
            if x < y {
                return Order::Less;
            }
            if y < x {
                return Order::Greater;
            }
            n = n - 1;
        }
        assert(a.take(0) =~= b.take(0));
        Order::Equal
    }

    /// The same integer again.
    pub fn duplicate(&self) -> (r: Big)
        ensures
            r.value() == self.value(),
    {
        self.times_plus(1, 0)
    }

    /// A value of one machine word.
    pub fn from_u64(v: u64) -> (r: Big)
        ensures
            r.value() == v,
    {
        let high: u32 = (v / 0x1_0000_0000) as u32;
        Big::from_u32(high).times_plus(0x1_0000_0000, v % 0x1_0000_0000)
    }

    /// The value less another that is no greater.
    pub fn minus(&self, other: &Big) -> (r: Big)
        requires
            other.value() <= self.value(),
        ensures
            r.value() == self.value() - other.value(),
    {
        let n: usize = if self.limbs.len() > other.limbs.len() {
            self.limbs.len()
        } else {
            other.limbs.len()
        };
        let ghost a = padded(self.limbs@, n as int);
        let ghost b = padded(other.limbs@, n as int);
        let mut out: Vec<u32> = Vec::new();
        let mut borrow: u64 = 0;
        let mut i: usize = 0;
        proof {
            lemma2_to64();
            lemma_padded(self.limbs@, n as int);
            lemma_padded(other.limbs@, n as int);
            assert(a.take(0) =~= Seq::<u32>::empty());
            assert(b.take(0) =~= Seq::<u32>::empty());
        }
        while i < n
            invariant
                i <= n == a.len() == b.len(),
                out.len() == i,
                borrow <= 1,
                forall|k: int|
                    0 <= k < a.len() ==> #[trigger] a[k] == if k < self.limbs@.len() {
                        self.limbs@[k]
                    } else {
                        0
                    },
                forall|k: int|
                    0 <= k < b.len() ==> #[trigger] b[k] == if k < other.limbs@.len() {
                        other.limbs@[k]
                    } else {
                        0
                    },
                limbs_value(a.take(i as int)) - limbs_value(b.take(i as int)) == limbs_value(out@)
                    - borrow * pow2((32 * i) as nat),
            decreases n - i,
        {
            let x: u64 = self.limb(i) as u64;
            let y: u64 = other.limb(i) as u64 + borrow;
            let (low, next): (u64, u64) = if x >= y {
                (x - y, 0)
            } else {
                (x + 0x1_0000_0000 - y, 1)
            };
            proof {
                let w = pow2((32 * i) as nat);
                let w2 = pow2((32 * (i + 1)) as nat);
                lemma2_to64();
                lemma_pow2_adds((32 * i) as nat, 32);
                assert((32 * i) as nat + 32 == (32 * (i + 1)) as nat);
                assert(w2 == w * 0x1_0000_0000);
                lemma_push(out@, low as u32);
                assert(a.take(i + 1).drop_last() =~= a.take(i as int));
                assert(b.take(i + 1).drop_last() =~= b.take(i as int));
                assert(a.take(i + 1).last() == a[i as int] && a[i as int] == x);
                assert(b.take(i + 1).last() == b[i as int] && b[i as int] == y - borrow);
                let (p, q) = (limbs_value(a.take(i as int)), limbs_value(b.take(i as int)));
                let z = limbs_value(out@);
                assert((p + x * w) - (q + (y - borrow) * w) == (z + low * w) - next * w2)
                    by (nonlinear_arith)
                    requires
                        p - q == z - borrow * w,
                        x - y == low - next * 0x1_0000_0000,
                        w2 == w * 0x1_0000_0000,
                ;
            }
            out.push(low as u32);
            borrow = next;
            i = i + 1;
        }
        proof {
            assert(a.take(n as int) =~= a);
            assert(b.take(n as int) =~= b);
            lemma_bound(out@);
            let w = pow2((32 * n) as nat);
            if borrow == 1 {
                assert(1 * w == w);
            }
            assert(0 * w == 0);
        }
        Big { limbs: out }
    }

    /// The quotient and the remainder of a division.
    pub fn divided(&self, d: &Big) -> (r: (Big, Big))
        requires
            d.value() > 0,
        ensures
            r.0.value() == self.value() / d.value(),
            r.1.value() == self.value() % d.value(),
        decreases
                if self.value() < d.value() {
                    0
                } else {
                    self.value() - d.value() + 1
                },
    {
        let less: bool = match self.order(d) {
            Order::Less => true,
            _ => false,
        };
        if less {
            proof {
                lemma_basic_div(self.value() as int, d.value() as int);
                lemma_small_mod(self.value(), d.value());
            }
            return (Big::from_u32(0), self.duplicate());
        }
        let twice = d.times_plus(2, 0);
        let (q, rest) = self.divided(&twice);
        let ghost (n, e) = (self.value() as int, d.value() as int);
        let ghost (x, y) = (q.value() as int, rest.value() as int);
        proof {
            lemma_fundamental_div_mod(n, e * 2);
        }
        let short: bool = match rest.order(d) {
            Order::Less => true,
            _ => false,
        };
        if short {
            proof {
                assert(n == (2 * x) * e + y) by (nonlinear_arith)
                    requires
                        n == (e * 2) * x + y,
                ;
                lemma_fundamental_div_mod_converse(n, e, 2 * x, y);
            }
            (q.times_plus(2, 0), rest)
        } else {
            proof {
                assert(n == (2 * x + 1) * e + (y - e)) by (nonlinear_arith)
                    requires
                        n == (e * 2) * x + y,
                ;
                lemma_fundamental_div_mod_converse(n, e, 2 * x + 1, y - e);
            }
            (q.times_plus(2, 1), rest.minus(d))
        }
    }

    /// The quotient by ten and the last digit.
    fn tenth(&self) -> (r: (Big, u8))
        ensures
            self.value() == 10 * r.0.value() + r.1,
            r.1 < 10,
    {
        let ghost v = self.limbs@;
        let mut out: Vec<u32> = Vec::new();
        let mut i: usize = 0;
        while i < self.limbs.len()
            invariant
                i <= self.limbs.len(),
                out.len() == i,
                forall|k: int| 0 <= k < i ==> #[trigger] out@[k] == 0,
            decreases self.limbs.len() - i,
        {
            out.push(0);
            i = i + 1;
        }
        let mut rest: u64 = 0;
        proof {
            lemma_zeros(out@);
            assert(v.take(i as int) =~= v);
        }
        while i > 0
            invariant
                i <= v.len() == out.len(),
                v == self.limbs@,
                rest < 10,
                forall|k: int| 0 <= k < i ==> #[trigger] out@[k] == 0,
                limbs_value(v) == limbs_value(v.take(i as int)) + 10 * limbs_value(out@) + rest
                    * pow2((32 * i) as nat),
            decreases i,
        {
            i = i - 1;
            let x: u32 = self.limbs[i];
            let t: u64 = rest * 0x1_0000_0000 + x as u64;
            let d: u32 = (t / 10) as u32;
            proof {
                let w = pow2((32 * i) as nat);
                let w2 = pow2((32 * (i + 1)) as nat);
                lemma2_to64();
                lemma_pow2_adds((32 * i) as nat, 32);
                assert((32 * i) as nat + 32 == (32 * (i + 1)) as nat);
                assert(w2 == w * 0x1_0000_0000);
                assert(v.take(i + 1).drop_last() =~= v.take(i as int));
                assert(v.take(i + 1).last() == x);
                lemma_update(out@, i as int, d);
                let (q, low) = (limbs_value(out@), limbs_value(v.take(i as int)));
                assert(low + x * w + 10 * q + rest * w2 == low + 10 * (q + d * w) + (t % 10) * w)
                    by (nonlinear_arith)
                    requires
                        w2 == w * 0x1_0000_0000,
                        rest * 0x1_0000_0000 + x == 10 * d + t % 10,
                ;
            }
            out.set(i, d);
            rest = t % 10;
        }
        proof {
            lemma2_to64();
            assert(v.take(0) =~= Seq::<u32>::empty());
            assert(rest * pow2(0) == rest) by (nonlinear_arith)
                requires
                    pow2(0) == 1,
            ;
        }
        (Big { limbs: out }, rest as u8)
    }

    /// The integer in decimal digits.
    pub fn decimal_text(&self) -> (r: String)
        ensures
            r@ == decimal(self.value()),
        decreases self.value(),
    {
        let (q, d) = self.tenth();
        let small: bool = match q.order(&Big::from_u32(0)) {
            Order::Greater => false,
            _ => true,
        };
        let mut r: String = if small {
            String::new()
        } else {
            q.decimal_text()
        };
        r.push((0x30u8 + d) as char);
        assert(r@ =~= decimal(self.value()));
        r
    }
}

/// Zeros below limbs.
proof fn lemma_low_zeros(low: Seq<u32>, s: Seq<u32>)
    requires
        forall|k: int| 0 <= k < low.len() ==> #[trigger] low[k] == 0,
    ensures
        limbs_value(low + s) == limbs_value(s) * pow2((32 * low.len()) as nat),
    decreases s.len(),
{
    let w = pow2((32 * low.len()) as nat);
    if s.len() == 0 {
        assert(low + s =~= low);
        lemma_zeros(low);
        assert(0 * w == 0);
    } else {
        let t = low + s;
        assert(t.drop_last() =~= low + s.drop_last());
        assert(t.last() == s.last());
        lemma_low_zeros(low, s.drop_last());
        let n = (32 * (s.len() - 1)) as nat;
        lemma_pow2_adds((32 * low.len()) as nat, n);
        assert((32 * low.len()) as nat + n == (32 * (t.len() - 1)) as nat);
        let (x, y, z) = (limbs_value(s.drop_last()), s.last() as nat, pow2(n));
        assert(x * w + y * (w * z) == (x + y * z) * w) by (nonlinear_arith);
    }
}

/// Limbs that are all zero.
proof fn lemma_zeros(s: Seq<u32>)
    requires
        forall|k: int| 0 <= k < s.len() ==> #[trigger] s[k] == 0,
    ensures
        limbs_value(s) == 0,
    decreases s.len(),
{
    if s.len() > 0 {
        assert forall|k: int| 0 <= k < s.drop_last().len() implies #[trigger] s.drop_last()[k] == 0 by {
            assert(s.drop_last()[k] == s[k]);
        }
        lemma_zeros(s.drop_last());
        assert(s[s.len() - 1] == 0);
        let w = pow2((32 * (s.len() - 1)) as nat);
        assert(0 * w == 0);
    }
}

/// Putting a limb in place of a zero.
proof fn lemma_update(s: Seq<u32>, i: int, x: u32)
    requires
        0 <= i < s.len(),
        s[i] == 0,
    ensures
        limbs_value(s.update(i, x)) == limbs_value(s) + x as nat * pow2((32 * i) as nat),
    decreases s.len(),
{
    let t = s.update(i, x);
    let w = pow2((32 * (s.len() - 1)) as nat);
    if i == s.len() - 1 {
        assert(t.drop_last() =~= s.drop_last());
        assert(0 * w == 0);
    } else {
        assert(t.drop_last() =~= s.drop_last().update(i, x));
        lemma_update(s.drop_last(), i, x);
    }
}

/// Ten to a power.
pub open spec fn power_of_ten(k: nat) -> nat
    decreases k,
{
    if k == 0 {
        1
    } else {
        10 * power_of_ten((k - 1) as nat)
    }
}

/// Limbs with zeros on top.
spec fn padded(s: Seq<u32>, n: int) -> Seq<u32> {
    Seq::new(n as nat, |i: int| if i < s.len() {
        s[i]
    } else {
        0u32
    })
}

/// Zeros on top change nothing.
proof fn lemma_padded(s: Seq<u32>, n: int)
    requires
        s.len() <= n,
    ensures
        limbs_value(padded(s, n)) == limbs_value(s),
    decreases n - s.len(),
{
    if s.len() == n {
        assert(padded(s, n) =~= s);
    } else {
        assert(padded(s, n).drop_last() =~= padded(s, n - 1));
        lemma_padded(s, n - 1);
        assert(padded(s, n).last() == 0);
        assert(0 * pow2((32 * (n - 1)) as nat) == 0) by (nonlinear_arith);
    }
}

} // verus!
