//! The binary64 type.

use super::num::{
    convert, converted, from_magnitude, stepped, whole_capped, of_int, over, plus, product, quotient, sum, times, Format,
    Num,
};
use super::binary32::F32;
use vstd::prelude::*;

verus! {

/// A binary64 number, held by its bits.
///
/// `==` compares bits. The arithmetic comparison is [`F64::equals`].
#[derive(Clone, Copy, PartialEq, Eq, Structural, Debug)]
pub struct F64 {
    /// The interchange encoding.
    pub bits: u64,
}

impl F64 {
    /// Sign and magnitude.
    pub open spec fn num(self) -> Num {
        Num { neg: self.bits >= 0x8000_0000_0000_0000, mag: (self.bits % 0x8000_0000_0000_0000) as u64 }
    }

    /// The number with a given sign and magnitude.
    pub open spec fn of(n: Num) -> F64 {
        F64 {
            bits: (n.mag % 0x8000_0000_0000_0000 + if n.neg {
                0x8000_0000_0000_0000u64
            } else {
                0
            }) as u64,
        }
    }

    /// The position of a number in the order of its format.
    pub open spec fn key(self) -> int {
        if self.bits >= 0x8000_0000_0000_0000 {
            0x8000_0000_0000_0000 - self.bits
        } else {
            self.bits as int
        }
    }

    pub(crate) fn split(self) -> (n: Num)
        ensures
            n == self.num(),
    {
        Num { neg: self.bits >= 0x8000_0000_0000_0000, mag: (self.bits % 0x8000_0000_0000_0000) as u64 }
    }

    pub(crate) fn join(n: Num) -> (r: F64)
        ensures
            r == F64::of(n),
    {
        if n.neg {
            F64 { bits: (n.mag % 0x8000_0000_0000_0000 + 0x8000_0000_0000_0000) as u64 }
        } else {
            F64 { bits: (n.mag % 0x8000_0000_0000_0000) as u64 }
        }
    }

    /// The number with the given bits.
    pub open spec fn spec_from_bits(bits: u64) -> F64 {
        F64 { bits }
    }

    /// The number with the given bits.
    #[verifier::when_used_as_spec(spec_from_bits)]
    pub fn from_bits(bits: u64) -> (r: F64)
        ensures
            r == F64::spec_from_bits(bits),
    {
        F64 { bits }
    }

    /// The bits of the number.
    pub fn to_bits(self) -> (r: u64)
        ensures
            r == self.bits,
    {
        self.bits
    }

    /// Whether this is a NaN.
    pub open spec fn spec_is_nan(self) -> bool {
        self.bits % 0x8000_0000_0000_0000 > 0x7ff0_0000_0000_0000
    }

    /// Whether this is a NaN.
    #[verifier::when_used_as_spec(spec_is_nan)]
    pub fn is_nan(self) -> (r: bool)
        ensures
            r == self.spec_is_nan(),
    {
        self.bits % 0x8000_0000_0000_0000 > 0x7ff0_0000_0000_0000
    }

    /// Whether this is neither an infinity nor a NaN.
    pub open spec fn spec_is_finite(self) -> bool {
        self.bits % 0x8000_0000_0000_0000 < 0x7ff0_0000_0000_0000
    }

    /// Whether this is neither an infinity nor a NaN.
    #[verifier::when_used_as_spec(spec_is_finite)]
    pub fn is_finite(self) -> (r: bool)
        ensures
            r == self.spec_is_finite(),
    {
        self.bits % 0x8000_0000_0000_0000 < 0x7ff0_0000_0000_0000
    }

    /// Whether this is an infinity.
    pub open spec fn spec_is_infinite(self) -> bool {
        self.bits % 0x8000_0000_0000_0000 == 0x7ff0_0000_0000_0000
    }

    /// Whether this is an infinity.
    #[verifier::when_used_as_spec(spec_is_infinite)]
    pub fn is_infinite(self) -> (r: bool)
        ensures
            r == self.spec_is_infinite(),
    {
        self.bits % 0x8000_0000_0000_0000 == 0x7ff0_0000_0000_0000
    }

    /// Whether this is less than `other`.
    pub open spec fn spec_less(self, other: F64) -> bool {
        !self.is_nan() && !other.is_nan() && self.key() < other.key()
    }

    /// Whether this is less than `other`; false where either is a NaN.
    #[verifier::when_used_as_spec(spec_less)]
    pub fn less(self, other: F64) -> (r: bool)
        ensures
            r == self.spec_less(other),
    {
        if self.is_nan() || other.is_nan() {
            false
        } else if self.bits >= 0x8000_0000_0000_0000 {
            if other.bits >= 0x8000_0000_0000_0000 {
                self.bits > other.bits
            } else {
                self.bits > 0x8000_0000_0000_0000 || other.bits > 0
            }
        } else {
            if other.bits >= 0x8000_0000_0000_0000 {
                false
            } else {
                self.bits < other.bits
            }
        }
    }

    /// Whether this and `other` are the same number.
    pub open spec fn spec_equals(self, other: F64) -> bool {
        !self.is_nan() && !other.is_nan() && self.key() == other.key()
    }

    /// Whether this and `other` are the same number; both zeros are.
    #[verifier::when_used_as_spec(spec_equals)]
    pub fn equals(self, other: F64) -> (r: bool)
        ensures
            r == self.spec_equals(other),
    {
        !self.is_nan() && !other.is_nan() && (self.bits == other.bits ||
            (self.bits % 0x8000_0000_0000_0000 == 0
            && other.bits % 0x8000_0000_0000_0000 == 0))
    }

    /// Whether this is at most `other`.
    pub open spec fn spec_at_most(self, other: F64) -> bool {
        !self.is_nan() && !other.is_nan() && self.key() <= other.key()
    }

    /// Whether this is at most `other`; false where either is a NaN.
    #[verifier::when_used_as_spec(spec_at_most)]
    pub fn at_most(self, other: F64) -> (r: bool)
        ensures
            r == self.spec_at_most(other),
    {
        self.less(other) || self.equals(other)
    }

    /// The number without its sign.
    pub open spec fn spec_abs(self) -> F64 {
        F64 { bits: (self.bits % 0x8000_0000_0000_0000) as u64 }
    }

    /// The number without its sign.
    #[verifier::when_used_as_spec(spec_abs)]
    pub fn abs(self) -> (r: F64)
        ensures
            r == self.spec_abs(),
    {
        F64 { bits: self.bits % 0x8000_0000_0000_0000 }
    }

    /// The number with the opposite sign.
    pub open spec fn spec_opposite(self) -> F64 {
        if self.bits >= 0x8000_0000_0000_0000 {
            F64 { bits: (self.bits - 0x8000_0000_0000_0000) as u64 }
        } else {
            F64 { bits: (self.bits + 0x8000_0000_0000_0000) as u64 }
        }
    }

    /// The number with the opposite sign.
    #[verifier::when_used_as_spec(spec_opposite)]
    pub fn opposite(self) -> (r: F64)
        ensures
            r == self.spec_opposite(),
    {
        if self.bits >= 0x8000_0000_0000_0000 {
            F64 { bits: self.bits - 0x8000_0000_0000_0000 }
        } else {
            F64 { bits: self.bits + 0x8000_0000_0000_0000 }
        }
    }

    /// The greater number; a NaN loses to anything else.
    pub open spec fn spec_max(self, other: F64) -> F64 {
        if self.is_nan() || self.less(other) {
            other
        } else {
            self
        }
    }

    /// The greater number; a NaN loses to anything else.
    #[verifier::when_used_as_spec(spec_max)]
    pub fn max(self, other: F64) -> (r: F64)
        ensures
            r == self.spec_max(other),
    {
        if self.is_nan() || self.less(other) {
            other
        } else {
            self
        }
    }

    /// The lesser number; a NaN loses to anything else.
    pub open spec fn spec_min(self, other: F64) -> F64 {
        if self.is_nan() || other.less(self) {
            other
        } else {
            self
        }
    }

    /// The lesser number; a NaN loses to anything else.
    #[verifier::when_used_as_spec(spec_min)]
    pub fn min(self, other: F64) -> (r: F64)
        ensures
            r == self.spec_min(other),
    {
        if self.is_nan() || other.less(self) {
            other
        } else {
            self
        }
    }

    /// The sum, correctly rounded.
    #[verifier::opaque]
    pub open spec fn spec_plus(self, other: F64) -> F64 {
        F64::of(sum(Format::Binary64, self.num(), other.num()))
    }

    /// The sum, correctly rounded.
    #[verifier::when_used_as_spec(spec_plus)]
    pub fn plus(self, other: F64) -> (r: F64)
        ensures
            r == self.spec_plus(other),
    {
        reveal(F64::spec_plus);
        F64::join(plus(Format::Binary64, self.split(), other.split()))
    }

    /// The difference, correctly rounded.
    pub open spec fn spec_minus(self, other: F64) -> F64 {
        self.plus(other.opposite())
    }

    /// The difference, correctly rounded.
    #[verifier::when_used_as_spec(spec_minus)]
    pub fn minus(self, other: F64) -> (r: F64)
        ensures
            r == self.spec_minus(other),
    {
        self.plus(other.opposite())
    }

    /// The product, correctly rounded.
    #[verifier::opaque]
    pub open spec fn spec_times(self, other: F64) -> F64 {
        F64::of(product(Format::Binary64, self.num(), other.num()))
    }

    /// The product, correctly rounded.
    #[verifier::when_used_as_spec(spec_times)]
    pub fn times(self, other: F64) -> (r: F64)
        ensures
            r == self.spec_times(other),
    {
        reveal(F64::spec_times);
        F64::join(times(Format::Binary64, self.split(), other.split()))
    }

    /// The quotient, correctly rounded.
    #[verifier::opaque]
    pub open spec fn spec_over(self, other: F64) -> F64 {
        F64::of(quotient(Format::Binary64, self.num(), other.num()))
    }

    /// The quotient, correctly rounded.
    #[verifier::when_used_as_spec(spec_over)]
    pub fn over(self, other: F64) -> (r: F64)
        ensures
            r == self.spec_over(other),
    {
        reveal(F64::spec_over);
        F64::join(over(Format::Binary64, self.split(), other.split()))
    }

    /// The number nearest to an integer.
    #[verifier::opaque]
    pub open spec fn nearest(v: int) -> F64 {
        F64::of(of_int(Format::Binary64, v))
    }

    /// The binary64 number nearest to an unsigned integer.
    pub fn from_u64(v: u64) -> (r: F64)
        ensures
            r == F64::nearest(v as int),
    {
        reveal(F64::nearest);
        F64::join(from_magnitude(Format::Binary64, false, v, Ghost(v as int)))
    }

    /// The binary64 number nearest to a signed integer.
    pub fn from_i64(v: i64) -> (r: F64)
        ensures
            r == F64::nearest(v as int),
    {
        reveal(F64::nearest);
        let neg: bool = v < 0;
        let m: u64 = if neg {
            (-(v as i128)) as u64
        } else {
            v as u64
        };
        F64::join(from_magnitude(Format::Binary64, neg, m, Ghost(v as int)))
    }

    /// The least whole number not below a finite number, or the greatest not above it.
    #[verifier::opaque]
    pub open spec fn whole_toward(self, up: bool) -> int {
        let m = stepped(Format::Binary64, self.num().mag, up != self.num().neg) as int;
        if self.num().neg {
            -m
        } else {
            m
        }
    }

    /// The whole number next to a finite number, if it is within a range.
    pub fn whole_within(self, up: bool, lo: i64, hi: i64) -> (r: Option<i64>)
        requires
            self.is_finite(),
            -0x100_0000_0000 < lo <= hi < 0x100_0000_0000,
        ensures
            r == if lo <= self.whole_toward(up) <= hi {
                Some(self.whole_toward(up) as i64)
            } else {
                None
            },
    {
        reveal(F64::whole_toward);
        let n = self.split();
        let (w, left) = whole_capped(Format::Binary64, n.mag);
        let raise: bool = up != n.neg;
        if w > 0x100_0000_0000 {
            return None;
        }
        let m: i64 = if raise && left {
            w as i64 + 1
        } else {
            w as i64
        };
        let v: i64 = if n.neg {
            -m
        } else {
            m
        };
        if lo <= v && v <= hi {
            Some(v)
        } else {
            None
        }
    }

    /// The binary32 number nearest to this.
    #[verifier::opaque]
    pub open spec fn spec_narrow(self) -> F32 {
        F32::of(converted(Format::Binary64, Format::Binary32, self.num()))
    }

    /// The binary32 number nearest to this.
    #[verifier::when_used_as_spec(spec_narrow)]
    pub fn narrow(self) -> (r: F32)
        ensures
            r == self.spec_narrow(),
    {
        reveal(F64::spec_narrow);
        F32::join(convert(Format::Binary64, Format::Binary32, self.split()))
    }
}

} // verus!
