//! Single-precision numbers as bit patterns, ordered as IEEE 754 orders them.

use vstd::prelude::*;

verus! {

/// A single-precision number, held by its bit pattern.
#[derive(Clone, Copy, PartialEq, Eq, Structural, Debug)]
pub struct Scalar {
    pub bits: u32,
}

/// Zero.
pub open spec fn zero() -> Scalar {
    Scalar { bits: 0 }
}

/// One.
pub open spec fn one() -> Scalar {
    Scalar { bits: 0x3F80_0000 }
}

impl Scalar {
    /// The bits without the sign.
    pub open spec fn magnitude(self) -> int {
        self.bits as int % 0x8000_0000
    }

    /// Whether the pattern stands for no number.
    pub open spec fn is_nan(self) -> bool {
        self.magnitude() > 0x7F80_0000
    }

    /// An integer that orders the numbers: both zeros are 0.
    pub open spec fn rank(self) -> int {
        if self.bits >= 0x8000_0000 {
            -self.magnitude()
        } else {
            self.magnitude()
        }
    }

    /// `self < other`, which is false where one of them is no number.
    pub open spec fn below(self, other: Scalar) -> bool {
        !self.is_nan() && !other.is_nan() && self.rank() < other.rank()
    }

    /// Whether the number lies between `lo` and `hi`.
    pub open spec fn within(self, lo: Scalar, hi: Scalar) -> bool {
        !self.below(lo) && !hi.below(self)
    }

    /// The number moved into the range from `lo` to `hi`; no number stays what it is.
    pub open spec fn clamped_spec(self, lo: Scalar, hi: Scalar) -> Scalar {
        if self.below(lo) {
            lo
        } else if hi.below(self) {
            hi
        } else {
            self
        }
    }

    /// Whether the pattern stands for no number.
    pub fn not_a_number(self) -> (r: bool)
        ensures
            r == self.is_nan(),
    {
        self.bits % 0x8000_0000 > 0x7F80_0000
    }

    fn order(self) -> (r: i64)
        ensures
            r == self.rank(),
    {
        let m: i64 = (self.bits % 0x8000_0000) as i64;
        if self.bits >= 0x8000_0000 {
            -m
        } else {
            m
        }
    }

    /// The integer that orders the numbers.
    pub fn key(self) -> (r: i32)
        ensures
            r == self.rank(),
            r > i32::MIN,
    {
        let m: i64 = (self.bits % 0x8000_0000) as i64;
        let r: i64 = if self.bits >= 0x8000_0000 {
            -m
        } else {
            m
        };
        r as i32
    }

    /// The number with this place in the order; zero has no sign.
    pub open spec fn of_rank(k: int) -> Scalar {
        if k >= 0 {
            Scalar { bits: k as u32 }
        } else {
            Scalar { bits: (0x8000_0000 - k) as u32 }
        }
    }

    /// The number with this place in the order; zero has no sign.
    pub fn from_key(k: i32) -> (r: Scalar)
        requires
            k > i32::MIN,
        ensures
            r == Scalar::of_rank(k as int),
    {
        if k >= 0 {
            Scalar { bits: k as u32 }
        } else {
            Scalar { bits: 0x8000_0000 + (-k) as u32 }
        }
    }

    /// `self < other`, which is false where one of them is no number.
    pub fn less(self, other: Scalar) -> (r: bool)
        ensures
            r == self.below(other),
    {
        !self.not_a_number() && !other.not_a_number() && self.order() < other.order()
    }

    /// The number moved into the range from `lo` to `hi`; no number stays what it is.
    pub fn clamped(self, lo: Scalar, hi: Scalar) -> (r: Scalar)
        requires
            !lo.is_nan(),
            !hi.is_nan(),
            lo.rank() <= hi.rank(),
        ensures
            r == self.clamped_spec(lo, hi),
    {
        if self.less(lo) {
            lo
        } else if hi.less(self) {
            hi
        } else {
            self
        }
    }

    /// The lesser of two numbers; the other one where one is no number.
    pub open spec fn min_spec(self, other: Scalar) -> Scalar {
        if self.is_nan() || other.below(self) {
            other
        } else {
            self
        }
    }

    /// The greater of two numbers; the other one where one is no number.
    pub open spec fn max_spec(self, other: Scalar) -> Scalar {
        if self.is_nan() || self.below(other) {
            other
        } else {
            self
        }
    }

    /// The lesser of two numbers; the other one where one is no number.
    pub fn lesser(self, other: Scalar) -> (r: Scalar)
        ensures
            r == self.min_spec(other),
    {
        if self.not_a_number() || other.less(self) {
            other
        } else {
            self
        }
    }

    /// The greater of two numbers; the other one where one is no number.
    pub fn greater(self, other: Scalar) -> (r: Scalar)
        ensures
            r == self.max_spec(other),
    {
        if self.not_a_number() || self.less(other) {
            other
        } else {
            self
        }
    }
}

/// A number is found again by its place in the order, but for the sign of zero.
pub proof fn number_is_found_by_its_rank(v: Scalar)
    ensures
        Scalar::of_rank(v.rank()).rank() == v.rank(),
        v.bits != 0x8000_0000 ==> Scalar::of_rank(v.rank()) == v,
{
}

/// The number with the other sign.
pub open spec fn negated(v: Scalar) -> Scalar {
    Scalar {
        bits: if v.bits >= 0x8000_0000 {
            (v.bits - 0x8000_0000) as u32
        } else {
            (v.bits + 0x8000_0000) as u32
        },
    }
}

/// The number with the other sign has the opposite place in the order.
pub proof fn negated_number_has_the_opposite_rank(v: Scalar)
    ensures
        negated(v).rank() == -v.rank(),
        negated(negated(v)) == v,
{
}

/// Moving a number into a range brings it there, and a number in the range stays.
pub proof fn clamping_a_number_settles(v: Scalar, lo: Scalar, hi: Scalar)
    requires
        !lo.is_nan(),
        !hi.is_nan(),
        lo.rank() <= hi.rank(),
    ensures
        v.clamped_spec(lo, hi).within(lo, hi),
        v.within(lo, hi) ==> v.clamped_spec(lo, hi) == v,
        v.clamped_spec(lo, hi).clamped_spec(lo, hi) == v.clamped_spec(lo, hi),
{
}

/// Of two numbers one is the lesser and the other the greater; where one is no number it
/// is the other.
pub proof fn lesser_and_greater_are_the_two(a: Scalar, b: Scalar)
    ensures
        !a.is_nan() && !b.is_nan() ==> {
            &&& a.min_spec(b).rank() <= a.rank() && a.min_spec(b).rank() <= b.rank()
            &&& a.max_spec(b).rank() >= a.rank() && a.max_spec(b).rank() >= b.rank()
            &&& a.min_spec(b) == a || a.min_spec(b) == b
            &&& a.max_spec(b) == a || a.max_spec(b) == b
        },
        a.is_nan() ==> a.min_spec(b) == b && a.max_spec(b) == b,
        !a.is_nan() && b.is_nan() ==> a.min_spec(b) == a && a.max_spec(b) == a,
{
}

/// Clamping moves a number that is too small to the least one and a number that is too
/// great to the greatest one.
pub proof fn clamping_moves_to_the_bounds(v: Scalar, lo: Scalar, hi: Scalar)
    requires
        !lo.is_nan(),
        !hi.is_nan(),
        lo.rank() <= hi.rank(),
    ensures
        v.below(lo) ==> v.clamped_spec(lo, hi) == lo,
        hi.below(v) ==> v.clamped_spec(lo, hi) == hi,
        v.is_nan() ==> v.clamped_spec(lo, hi) == v,
{
}

/// No number is what has the greatest exponent and any digit; infinity is a number, above
/// all others. Of two numbers with the same sign the one with the greater exponent is
/// farther from zero, and with the same exponent the one with the greater digits.
pub proof fn patterns_are_ordered(s: Scalar, t: Scalar)
    ensures
        s.is_nan() <==> s.bits / 0x80_0000 % 256 == 255 && s.bits % 0x80_0000 != 0,
        !s.is_nan() && !t.is_nan() && s.bits < 0x8000_0000 && t.bits < 0x8000_0000 ==> (s.below(t)
            <==> s.bits < t.bits),
        !s.is_nan() && !t.is_nan() && s.bits >= 0x8000_0000 && t.bits >= 0x8000_0000 ==> (s.below(t)
            <==> s.bits > t.bits),
        !s.is_nan() && !t.is_nan() && s.bits > 0x8000_0000 && t.bits < 0x8000_0000 ==> s.below(t),
        s.is_nan() ==> !s.below(t) && !t.below(s),
        !s.below(s),
{
}

} // verus!
