//! The binary32 type.

use super::num::{
    ceil, ceiled, convert, converted, floor, floored, from_magnitude, modulo, of_int, over, plus,
    product, quotient, remainder, sum, times, Format, Num,
};
use super::binary64::F64;
use super::num::{fractional, half_up, half_up_capped, whole, whole_capped};
use super::root::{root, square_root};
use vstd::prelude::*;

verus! {

/// A binary32 number, held by its bits.
///
/// `==` compares bits. The arithmetic comparison is [`F32::equals`].
#[derive(Clone, Copy, PartialEq, Eq, Structural, Debug)]
pub struct F32 {
    /// The interchange encoding.
    pub bits: u32,
}

impl F32 {
    /// Sign and magnitude.
    pub open spec fn num(self) -> Num {
        Num { neg: self.bits >= 0x8000_0000, mag: (self.bits % 0x8000_0000) as u64 }
    }

    /// The number with a given sign and magnitude.
    pub open spec fn of(n: Num) -> F32 {
        F32 {
            bits: (n.mag % 0x8000_0000 + if n.neg {
                0x8000_0000u64
            } else {
                0
            }) as u32,
        }
    }

    /// The position of a number in the order of its format.
    pub open spec fn key(self) -> int {
        if self.bits >= 0x8000_0000 {
            0x8000_0000 - self.bits
        } else {
            self.bits as int
        }
    }

    pub(crate) fn split(self) -> (n: Num)
        ensures
            n == self.num(),
    {
        Num { neg: self.bits >= 0x8000_0000, mag: (self.bits % 0x8000_0000) as u64 }
    }

    pub(crate) fn join(n: Num) -> (r: F32)
        ensures
            r == F32::of(n),
    {
        if n.neg {
            F32 { bits: (n.mag % 0x8000_0000 + 0x8000_0000) as u32 }
        } else {
            F32 { bits: (n.mag % 0x8000_0000) as u32 }
        }
    }

    /// The number with the given bits.
    pub open spec fn spec_from_bits(bits: u32) -> F32 {
        F32 { bits }
    }

    /// The number with the given bits.
    #[verifier::when_used_as_spec(spec_from_bits)]
    pub fn from_bits(bits: u32) -> (r: F32)
        ensures
            r == F32::spec_from_bits(bits),
    {
        F32 { bits }
    }

    /// The bits of the number.
    pub fn to_bits(self) -> (r: u32)
        ensures
            r == self.bits,
    {
        self.bits
    }

    /// Whether this is a NaN.
    pub open spec fn spec_is_nan(self) -> bool {
        self.bits % 0x8000_0000 > 0x7f80_0000
    }

    /// Whether this is a NaN.
    #[verifier::when_used_as_spec(spec_is_nan)]
    pub fn is_nan(self) -> (r: bool)
        ensures
            r == self.spec_is_nan(),
    {
        self.bits % 0x8000_0000 > 0x7f80_0000
    }

    /// Whether this is neither an infinity nor a NaN.
    pub open spec fn spec_is_finite(self) -> bool {
        self.bits % 0x8000_0000 < 0x7f80_0000
    }

    /// Whether this is neither an infinity nor a NaN.
    #[verifier::when_used_as_spec(spec_is_finite)]
    pub fn is_finite(self) -> (r: bool)
        ensures
            r == self.spec_is_finite(),
    {
        self.bits % 0x8000_0000 < 0x7f80_0000
    }

    /// Whether this is an infinity.
    pub open spec fn spec_is_infinite(self) -> bool {
        self.bits % 0x8000_0000 == 0x7f80_0000
    }

    /// Whether this is an infinity.
    #[verifier::when_used_as_spec(spec_is_infinite)]
    pub fn is_infinite(self) -> (r: bool)
        ensures
            r == self.spec_is_infinite(),
    {
        self.bits % 0x8000_0000 == 0x7f80_0000
    }

    /// Whether this is less than `other`.
    pub open spec fn spec_less(self, other: F32) -> bool {
        !self.is_nan() && !other.is_nan() && self.key() < other.key()
    }

    /// Whether this is less than `other`; false where either is a NaN.
    #[verifier::when_used_as_spec(spec_less)]
    pub fn less(self, other: F32) -> (r: bool)
        ensures
            r == self.spec_less(other),
    {
        if self.is_nan() || other.is_nan() {
            false
        } else if self.bits >= 0x8000_0000 {
            if other.bits >= 0x8000_0000 {
                self.bits > other.bits
            } else {
                self.bits > 0x8000_0000 || other.bits > 0
            }
        } else {
            if other.bits >= 0x8000_0000 {
                false
            } else {
                self.bits < other.bits
            }
        }
    }

    /// Whether this and `other` are the same number.
    pub open spec fn spec_equals(self, other: F32) -> bool {
        !self.is_nan() && !other.is_nan() && self.key() == other.key()
    }

    /// Whether this and `other` are the same number; both zeros are.
    #[verifier::when_used_as_spec(spec_equals)]
    pub fn equals(self, other: F32) -> (r: bool)
        ensures
            r == self.spec_equals(other),
    {
        !self.is_nan() && !other.is_nan() && (self.bits == other.bits || (self.bits % 0x8000_0000 == 0
            && other.bits % 0x8000_0000 == 0))
    }

    /// Whether this is at most `other`.
    pub open spec fn spec_at_most(self, other: F32) -> bool {
        !self.is_nan() && !other.is_nan() && self.key() <= other.key()
    }

    /// Whether this is at most `other`; false where either is a NaN.
    #[verifier::when_used_as_spec(spec_at_most)]
    pub fn at_most(self, other: F32) -> (r: bool)
        ensures
            r == self.spec_at_most(other),
    {
        self.less(other) || self.equals(other)
    }

    /// The number without its sign.
    pub open spec fn spec_abs(self) -> F32 {
        F32 { bits: (self.bits % 0x8000_0000) as u32 }
    }

    /// The number without its sign.
    #[verifier::when_used_as_spec(spec_abs)]
    pub fn abs(self) -> (r: F32)
        ensures
            r == self.spec_abs(),
    {
        F32 { bits: self.bits % 0x8000_0000 }
    }

    /// The number with the opposite sign.
    pub open spec fn spec_opposite(self) -> F32 {
        if self.bits >= 0x8000_0000 {
            F32 { bits: (self.bits - 0x8000_0000) as u32 }
        } else {
            F32 { bits: (self.bits + 0x8000_0000) as u32 }
        }
    }

    /// The number with the opposite sign.
    #[verifier::when_used_as_spec(spec_opposite)]
    pub fn opposite(self) -> (r: F32)
        ensures
            r == self.spec_opposite(),
    {
        if self.bits >= 0x8000_0000 {
            F32 { bits: self.bits - 0x8000_0000 }
        } else {
            F32 { bits: self.bits + 0x8000_0000 }
        }
    }

    /// The greater number; a NaN loses to anything else.
    pub open spec fn spec_max(self, other: F32) -> F32 {
        if self.is_nan() || self.less(other) {
            other
        } else {
            self
        }
    }

    /// The greater number; a NaN loses to anything else.
    #[verifier::when_used_as_spec(spec_max)]
    pub fn max(self, other: F32) -> (r: F32)
        ensures
            r == self.spec_max(other),
    {
        if self.is_nan() || self.less(other) {
            other
        } else {
            self
        }
    }

    /// The lesser number; a NaN loses to anything else.
    pub open spec fn spec_min(self, other: F32) -> F32 {
        if self.is_nan() || other.less(self) {
            other
        } else {
            self
        }
    }

    /// The lesser number; a NaN loses to anything else.
    #[verifier::when_used_as_spec(spec_min)]
    pub fn min(self, other: F32) -> (r: F32)
        ensures
            r == self.spec_min(other),
    {
        if self.is_nan() || other.less(self) {
            other
        } else {
            self
        }
    }

    /// The sum, correctly rounded.
    #[verifier::opaque]
    pub open spec fn spec_plus(self, other: F32) -> F32 {
        F32::of(sum(Format::Binary32, self.num(), other.num()))
    }

    /// The sum, correctly rounded.
    #[verifier::when_used_as_spec(spec_plus)]
    pub fn plus(self, other: F32) -> (r: F32)
        ensures
            r == self.spec_plus(other),
    {
        reveal(F32::spec_plus);
        F32::join(plus(Format::Binary32, self.split(), other.split()))
    }

    /// The difference, correctly rounded.
    pub open spec fn spec_minus(self, other: F32) -> F32 {
        self.plus(other.opposite())
    }

    /// The difference, correctly rounded.
    #[verifier::when_used_as_spec(spec_minus)]
    pub fn minus(self, other: F32) -> (r: F32)
        ensures
            r == self.spec_minus(other),
    {
        self.plus(other.opposite())
    }

    /// The product, correctly rounded.
    #[verifier::opaque]
    pub open spec fn spec_times(self, other: F32) -> F32 {
        F32::of(product(Format::Binary32, self.num(), other.num()))
    }

    /// The product, correctly rounded.
    #[verifier::when_used_as_spec(spec_times)]
    pub fn times(self, other: F32) -> (r: F32)
        ensures
            r == self.spec_times(other),
    {
        reveal(F32::spec_times);
        F32::join(times(Format::Binary32, self.split(), other.split()))
    }

    /// The quotient, correctly rounded.
    #[verifier::opaque]
    pub open spec fn spec_over(self, other: F32) -> F32 {
        F32::of(quotient(Format::Binary32, self.num(), other.num()))
    }

    /// The quotient, correctly rounded.
    #[verifier::when_used_as_spec(spec_over)]
    pub fn over(self, other: F32) -> (r: F32)
        ensures
            r == self.spec_over(other),
    {
        reveal(F32::spec_over);
        F32::join(over(Format::Binary32, self.split(), other.split()))
    }

    /// The number nearest to an integer.
    #[verifier::opaque]
    pub open spec fn nearest(v: int) -> F32 {
        F32::of(of_int(Format::Binary32, v))
    }

    /// The remainder of a truncating division, with the sign of the dividend.
    #[verifier::opaque]
    pub open spec fn spec_modulo(self, other: F32) -> F32 {
        F32::of(remainder(Format::Binary32, self.num(), other.num()))
    }

    /// The remainder of a truncating division, with the sign of the dividend.
    #[verifier::when_used_as_spec(spec_modulo)]
    pub fn modulo(self, other: F32) -> (r: F32)
        ensures
            r == self.spec_modulo(other),
    {
        reveal(F32::spec_modulo);
        F32::join(modulo(Format::Binary32, self.split(), other.split()))
    }

    /// The greatest whole number not above this.
    #[verifier::opaque]
    pub open spec fn spec_floor(self) -> F32 {
        F32::of(floored(Format::Binary32, self.num()))
    }

    /// The greatest whole number not above this.
    #[verifier::when_used_as_spec(spec_floor)]
    pub fn floor(self) -> (r: F32)
        ensures
            r == self.spec_floor(),
    {
        reveal(F32::spec_floor);
        F32::join(floor(Format::Binary32, self.split()))
    }

    /// The least whole number not below this.
    #[verifier::opaque]
    pub open spec fn spec_ceil(self) -> F32 {
        F32::of(ceiled(Format::Binary32, self.num()))
    }

    /// The least whole number not below this.
    #[verifier::when_used_as_spec(spec_ceil)]
    pub fn ceil(self) -> (r: F32)
        ensures
            r == self.spec_ceil(),
    {
        reveal(F32::spec_ceil);
        F32::join(ceil(Format::Binary32, self.split()))
    }

    /// The square root, correctly rounded.
    #[verifier::opaque]
    pub open spec fn spec_sqrt(self) -> F32 {
        F32::of(root(self.num()))
    }

    /// The square root, correctly rounded.
    #[verifier::when_used_as_spec(spec_sqrt)]
    pub fn sqrt(self) -> (r: F32)
        ensures
            r == self.spec_sqrt(),
    {
        reveal(F32::spec_sqrt);
        F32::join(square_root(self.split()))
    }

    /// The whole number nearest to a finite number, halves away from zero.
    pub open spec fn rounded(self) -> int {
        let w = half_up(Format::Binary32, self.num().mag as nat) as int;
        if self.num().neg {
            -w
        } else {
            w
        }
    }

    /// The nearest whole number in a range, for any number but a NaN.
    #[verifier::opaque]
    pub open spec fn rounded_within(self, lo: int, hi: int) -> int {
        if self.is_infinite() {
            if self.num().neg {
                lo
            } else {
                hi
            }
        } else if self.rounded() < lo {
            lo
        } else if self.rounded() > hi {
            hi
        } else {
            self.rounded()
        }
    }

    /// Rounds to a whole number in a range, halves away from zero.
    pub fn round_within(self, lo: i64, hi: i64) -> (r: i64)
        requires
            !self.is_nan(),
            -0x100_0000_0000 < lo <= hi < 0x100_0000_0000,
        ensures
            r == self.rounded_within(lo as int, hi as int),
    {
        reveal(F32::rounded_within);
        let n = self.split();
        if self.is_infinite() {
            if n.neg {
                lo
            } else {
                hi
            }
        } else {
            let w: u64 = half_up_capped(Format::Binary32, n.mag);
            let v: i64 = if n.neg {
                -(w as i64)
            } else {
                w as i64
            };
            if v < lo {
                lo
            } else if v > hi {
                hi
            } else {
                v
            }
        }
    }

    /// The least number above this; infinity and NaNs stay.
    pub open spec fn spec_next_up(self) -> F32 {
        if self.is_nan() || self.bits == 0x7f80_0000 {
            self
        } else if self.bits % 0x8000_0000 == 0 {
            F32 { bits: 1 }
        } else if self.bits < 0x8000_0000 {
            F32 { bits: (self.bits + 1) as u32 }
        } else {
            F32 { bits: (self.bits - 1) as u32 }
        }
    }

    /// The least number above this; infinity and NaNs stay.
    #[verifier::when_used_as_spec(spec_next_up)]
    pub fn next_up(self) -> (r: F32)
        ensures
            r == self.spec_next_up(),
    {
        if self.is_nan() || self.bits == 0x7f80_0000 {
            self
        } else if self.bits % 0x8000_0000 == 0 {
            F32 { bits: 1 }
        } else if self.bits < 0x8000_0000 {
            F32 { bits: self.bits + 1 }
        } else {
            F32 { bits: self.bits - 1 }
        }
    }

    /// The greatest number below this; negative infinity and NaNs stay.
    pub open spec fn spec_next_down(self) -> F32 {
        self.opposite().next_up().opposite()
    }

    /// The greatest number below this; negative infinity and NaNs stay.
    #[verifier::when_used_as_spec(spec_next_down)]
    pub fn next_down(self) -> (r: F32)
        ensures
            r == self.spec_next_down(),
    {
        self.opposite().next_up().opposite()
    }

    /// The whole part of a finite number's magnitude.
    pub open spec fn whole_part(self) -> nat {
        whole(Format::Binary32, self.num().mag as nat)
    }

    /// Whether a finite number has a fraction.
    pub open spec fn has_fraction(self) -> bool {
        fractional(Format::Binary32, self.num().mag as nat)
    }

    /// Whether a finite number has a fraction.
    pub fn fraction_left(self) -> (r: bool)
        requires
            self.is_finite(),
        ensures
            r == self.has_fraction(),
    {
        whole_capped(Format::Binary32, self.split().mag).1
    }

    /// The whole part of a finite number's magnitude, and at most `2^64`.
    pub fn whole_part_capped(self) -> (r: u128)
        requires
            self.is_finite(),
        ensures
            r == self.whole_part() || (r == 0x1_0000_0000_0000_0000 && self.whole_part()
                >= 0x1_0000_0000_0000_0000),
            r <= 0x1_0000_0000_0000_0000,
    {
        whole_capped(Format::Binary32, self.split().mag).0
    }

    /// The binary32 number nearest to a signed integer.
    pub fn from_i32(v: i32) -> (r: F32)
        ensures
            r == F32::nearest(v as int),
    {
        reveal(F32::nearest);
        let neg: bool = v < 0;
        let m: u64 = if neg {
            (-(v as i64)) as u64
        } else {
            v as u64
        };
        F32::join(from_magnitude(Format::Binary32, neg, m, Ghost(v as int)))
    }

    /// The binary32 number nearest to an unsigned integer.
    pub fn from_u32(v: u32) -> (r: F32)
        ensures
            r == F32::nearest(v as int),
    {
        reveal(F32::nearest);
        F32::join(from_magnitude(Format::Binary32, false, v as u64, Ghost(v as int)))
    }

    /// The binary64 number of the same value.
    #[verifier::opaque]
    pub open spec fn spec_widen(self) -> F64 {
        F64::of(converted(Format::Binary32, Format::Binary64, self.num()))
    }

    /// The binary64 number of the same value.
    #[verifier::when_used_as_spec(spec_widen)]
    pub fn widen(self) -> (r: F64)
        ensures
            r == self.spec_widen(),
    {
        reveal(F32::spec_widen);
        F64::join(convert(Format::Binary32, Format::Binary64, self.split()))
    }

    /// The mean of two numbers, taken in binary64.
    pub open spec fn spec_midpoint(self, other: F32) -> F32 {
        self.widen().plus(other.widen()).over(F64::from_bits(0x4000_0000_0000_0000)).narrow()
    }

    /// The mean of two numbers, taken in binary64.
    #[verifier::when_used_as_spec(spec_midpoint)]
    pub fn midpoint(self, other: F32) -> (r: F32)
        ensures
            r == self.spec_midpoint(other),
    {
        self.widen().plus(other.widen()).over(F64::from_bits(0x4000_0000_0000_0000)).narrow()
    }
}

} // verus!
