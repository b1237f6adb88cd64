//! Single-precision numbers as IEEE 754 bit patterns, with the comparisons
//! that the standard defines on them.
//!
//! A pattern has a sign bit (bit 31) and a 31-bit magnitude: eight bits of
//! exponent above 23 bits of fraction. For every pattern that is not a NaN,
//! a larger magnitude is a larger absolute value, so ordering two numbers
//! needs no arithmetic on them. `lemma_rank_orders_values` proves that from
//! the value that a pattern stands for.

use vstd::prelude::*;
use vstd::arithmetic::power2::{pow2, lemma_pow2_pos, lemma_pow2_strictly_increases, lemma_pow2_unfold};

verus! {

/// The sign bit of a pattern; as a pattern, negative zero.
pub const SIGN_BIT: u32 = 0x8000_0000;

/// The magnitude of infinity. Every larger magnitude is a NaN.
pub const INFINITY_BITS: u32 = 0x7f80_0000;

/// A single-precision number, held as its bit pattern.
#[derive(Clone, Copy, Debug, PartialEq, Eq, Structural)]
pub struct Single {
    pub bits: u32,
}

impl Single {
    /// The pattern with its sign bit cleared.
    pub open spec fn magnitude(self) -> int {
        self.bits as int % 0x8000_0000
    }

    /// Whether the sign bit is set.
    pub open spec fn sign(self) -> bool {
        self.bits >= 0x8000_0000
    }

    /// The exponent field.
    pub open spec fn exponent(self) -> int {
        self.magnitude() / 0x80_0000
    }

    /// The fraction field.
    pub open spec fn fraction(self) -> int {
        self.magnitude() % 0x80_0000
    }

    /// The absolute value that the pattern stands for, in units of 2^-149:
    /// the fraction alone for a subnormal number, else the fraction with
    /// its leading one, shifted by the exponent. Infinity gets the value
    /// that its fields give by the same rule, above every finite number.
    pub open spec fn scaled_abs(self) -> int {
        if self.exponent() == 0 {
            self.fraction()
        } else {
            (0x80_0000 + self.fraction()) * pow2((self.exponent() - 1) as nat)
        }
    }

    /// The value that the pattern stands for, in units of 2^-149.
    pub open spec fn scaled_value(self) -> int {
        if self.sign() {
            -self.scaled_abs()
        } else {
            self.scaled_abs()
        }
    }

    /// Whether the pattern is a NaN.
    pub open spec fn is_nan(self) -> bool {
        self.magnitude() > 0x7f80_0000
    }

    /// Position of a pattern on the number line: patterns that are not NaN
    /// compare as their ranks do, and both zeros have rank 0.
    pub open spec fn rank(self) -> int {
        if self.sign() {
            -self.magnitude()
        } else {
            self.magnitude()
        }
    }

    /// Position of a pattern in the IEEE 754 total order, in which negative
    /// zero comes before positive zero and the NaNs stand at both ends.
    pub open spec fn total_rank(self) -> int {
        if self.sign() {
            -self.magnitude() - 1
        } else {
            self.magnitude()
        }
    }

    /// `self < other` as IEEE 754 defines it: false if either is a NaN.
    pub open spec fn less(self, other: Single) -> bool {
        !self.is_nan() && !other.is_nan() && self.rank() < other.rank()
    }

    /// `self <= other` as IEEE 754 defines it: false if either is a NaN.
    pub open spec fn less_eq(self, other: Single) -> bool {
        !self.is_nan() && !other.is_nan() && self.rank() <= other.rank()
    }

    /// The pattern of the absolute value.
    pub open spec fn abs_spec(self) -> Single {
        Single { bits: self.magnitude() as u32 }
    }

    /// The number with the given bit pattern.
    pub fn from_bits(bits: u32) -> (r: Single)
        ensures
            r.bits == bits,
    {
        Single { bits }
    }

    /// The bit pattern of the number.
    pub fn to_bits(self) -> (r: u32)
        ensures
            r == self.bits,
    {
        self.bits
    }

    fn magnitude_bits(self) -> (r: u32)
        ensures
            r == self.magnitude(),
            r < 0x8000_0000,
    {
        self.bits % SIGN_BIT
    }

    fn rank_value(self) -> (r: i64)
        ensures
            r == self.rank(),
    {
        let m: i64 = self.magnitude_bits() as i64;
        if self.bits >= SIGN_BIT {
            -m
        } else {
            m
        }
    }

    /// Whether the pattern is a NaN.
    pub fn is_nan_bits(self) -> (r: bool)
        ensures
            r == self.is_nan(),
    {
        self.magnitude_bits() > INFINITY_BITS
    }

    /// The key by which patterns sort in the IEEE 754 total order.
    pub fn total_key(self) -> (r: i64)
        ensures
            r == self.total_rank(),
    {
        let m: i64 = self.magnitude_bits() as i64;
        if self.bits >= SIGN_BIT {
            -m - 1
        } else {
            m
        }
    }

    /// `self < other`; false if either is a NaN.
    pub fn lt(self, other: Single) -> (r: bool)
        ensures
            r == self.less(other),
    {
        !self.is_nan_bits() && !other.is_nan_bits() && self.rank_value() < other.rank_value()
    }

    /// `self <= other`; false if either is a NaN.
    pub fn le(self, other: Single) -> (r: bool)
        ensures
            r == self.less_eq(other),
    {
        !self.is_nan_bits() && !other.is_nan_bits() && self.rank_value() <= other.rank_value()
    }

    /// `self > other`; false if either is a NaN.
    pub fn gt(self, other: Single) -> (r: bool)
        ensures
            r == other.less(self),
    {
        other.lt(self)
    }

    /// `self >= other`; false if either is a NaN.
    pub fn ge(self, other: Single) -> (r: bool)
        ensures
            r == other.less_eq(self),
    {
        other.le(self)
    }

    /// `self` held between `lo` and `hi`: `lo` where `self < lo`, `hi` where
    /// `self > hi`, and otherwise `self` itself, so a NaN stays as it is.
    pub open spec fn clamp_spec(self, lo: Single, hi: Single) -> Single {
        if self.less(lo) {
            lo
        } else if hi.less(self) {
            hi
        } else {
            self
        }
    }

    /// The larger of `self` and `floor`, and `floor` where `self` is a NaN.
    /// Of two zeros of different sign it keeps `self`.
    pub open spec fn at_least_spec(self, floor: Single) -> Single {
        if self.is_nan() || self.less(floor) {
            floor
        } else {
            self
        }
    }

    /// Holds `self` between two bounds, as `clamp` of the standard library
    /// does. The bounds are ordered and neither is a NaN.
    pub fn clamp(self, lo: Single, hi: Single) -> (r: Single)
        requires
            lo.less_eq(hi),
        ensures
            r == self.clamp_spec(lo, hi),
            self.is_nan() ==> r == self,
            !self.is_nan() ==> lo.less_eq(r) && r.less_eq(hi),
    {
        if self.lt(lo) {
            lo
        } else if hi.lt(self) {
            hi
        } else {
            self
        }
    }

    /// Raises `self` to `floor` where it lies below it or is a NaN.
    pub fn at_least(self, floor: Single) -> (r: Single)
        ensures
            r == self.at_least_spec(floor),
            !floor.is_nan() ==> floor.less_eq(r),
    {
        if self.is_nan_bits() || self.lt(floor) {
            floor
        } else {
            self
        }
    }

    /// Clears the sign bit; a NaN stays a NaN.
    pub fn abs(self) -> (r: Single)
        ensures
            r == self.abs_spec(),
            !r.sign(),
            r.magnitude() == self.magnitude(),
    {
        Single { bits: self.magnitude_bits() }
    }
}

/// A pattern of larger magnitude stands for a larger absolute value.
proof fn lemma_magnitude_increases(a: Single, b: Single)
    requires
        a.magnitude() < b.magnitude(),
    ensures
        a.scaled_abs() < b.scaled_abs(),
{
    let (ea, fa) = (a.exponent(), a.fraction());
    let (eb, fb) = (b.exponent(), b.fraction());
    assert(0 <= fa < 0x80_0000 && 0 <= fb < 0x80_0000);
    assert(a.magnitude() == ea * 0x80_0000 + fa);
    assert(b.magnitude() == eb * 0x80_0000 + fb);
    assert(0 <= ea <= eb);
    if ea == eb {
        assert(fa < fb);
        if ea > 0 {
            let p = pow2((ea - 1) as nat);
            lemma_pow2_pos((ea - 1) as nat);
            assert((0x80_0000 + fa) * p < (0x80_0000 + fb) * p) by (nonlinear_arith)
                requires
                    fa < fb,
                    p > 0,
            ;
        }
    } else {
        let pb = pow2((eb - 1) as nat);
        lemma_pow2_pos((eb - 1) as nat);
        assert(0x80_0000 * pb <= (0x80_0000 + fb) * pb) by (nonlinear_arith)
            requires
                fb >= 0,
                pb > 0,
        ;
        if ea == 0 {
            assert(0x80_0000 * 1 <= 0x80_0000 * pb) by (nonlinear_arith)
                requires
                    pb >= 1,
            ;
        } else {
            let pa = pow2((ea - 1) as nat);
            lemma_pow2_pos((ea - 1) as nat);
            lemma_pow2_unfold(ea as nat);
            if ea < eb - 1 {
                lemma_pow2_strictly_increases(ea as nat, (eb - 1) as nat);
            }
            assert(pow2(ea as nat) <= pb);
            assert((0x80_0000 + fa) * pa < 0x80_0000 * (2 * pa)) by (nonlinear_arith)
                requires
                    fa < 0x80_0000,
                    pa > 0,
            ;
            assert(0x80_0000 * (2 * pa) <= 0x80_0000 * pb) by (nonlinear_arith)
                requires
                    2 * pa <= pb,
            ;
        }
    }
}

/// Two patterns compare by rank as the values that they stand for compare:
/// the order that `less` and `less_eq` go by is the order of the numbers.
pub proof fn lemma_rank_orders_values(a: Single, b: Single)
    ensures
        a.rank() < b.rank() <==> a.scaled_value() < b.scaled_value(),
        a.rank() == b.rank() <==> a.scaled_value() == b.scaled_value(),
        a.scaled_abs() >= 0,
        a.magnitude() == 0 <==> a.scaled_abs() == 0,
{
    if a.magnitude() < b.magnitude() {
        lemma_magnitude_increases(a, b);
    } else if b.magnitude() < a.magnitude() {
        lemma_magnitude_increases(b, a);
    }
    let zero = Single { bits: 0 };
    assert(zero.scaled_abs() == 0);
    if a.magnitude() > 0 {
        lemma_magnitude_increases(zero, a);
    }
    if b.magnitude() > 0 {
        lemma_magnitude_increases(zero, b);
    }
}

/// Holding numbers between two bounds keeps their order.
pub proof fn lemma_clamp_keeps_order(a: Single, b: Single, lo: Single, hi: Single)
    requires
        lo.less_eq(hi),
        a.less_eq(b),
    ensures
        a.clamp_spec(lo, hi).less_eq(b.clamp_spec(lo, hi)),
{
}

} // verus!
