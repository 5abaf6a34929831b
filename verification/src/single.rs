//! Single-precision numbers, held by their bits and compared by their value.

use vstd::arithmetic::power2::{lemma2_to64, lemma_pow2_pos, lemma_pow2_unfold, pow2};
use vstd::prelude::*;

verus! {

/// An IEEE 754 binary32 number.
#[derive(Clone, Copy, PartialEq, Eq, Structural, Debug)]
pub struct Single {
    pub bits: u32,
}

/// The distance from zero of the number whose bits without the sign are
/// `magnitude`, in units of 2^-149, the smallest step of the format.
/// An infinity counts as 2^128.
pub open spec fn distance(magnitude: nat) -> nat {
    let exponent = magnitude / 0x80_0000;
    let fraction = magnitude % 0x80_0000;
    if exponent == 0 {
        fraction
    } else {
        (0x80_0000 + fraction) * pow2((exponent - 1) as nat)
    }
}

impl Single {
    /// The bits without the sign.
    pub open spec fn magnitude(self) -> nat {
        (self.bits as nat) % 0x8000_0000
    }

    pub open spec fn is_negative(self) -> bool {
        self.bits >= 0x8000_0000
    }

    pub open spec fn is_nan(self) -> bool {
        self.magnitude() > 0x7f80_0000
    }

    /// The number's value, in units of 2^-149.
    pub open spec fn value(self) -> int {
        if self.is_negative() {
            -distance(self.magnitude())
        } else {
            distance(self.magnitude()) as int
        }
    }

    /// Both are numbers, and this one is below the other.
    pub open spec fn below(self, other: Single) -> bool {
        &&& !self.is_nan()
        &&& !other.is_nan()
        &&& self.value() < other.value()
    }

    /// This number, moved to the nearer bound where it lies outside them.
    pub open spec fn clamped(self, low: Single, high: Single) -> Single {
        if self.below(low) {
            low
        } else if high.below(self) {
            high
        } else {
            self
        }
    }

    fn is_number(self) -> (b: bool)
        ensures
            b == !self.is_nan(),
    {
        self.bits % 0x8000_0000 <= 0x7f80_0000
    }

    /// Whether this number is below the other; never so of a NaN.
    pub fn is_below(self, other: Single) -> (b: bool)
        ensures
            b == self.below(other),
    {
        if !self.is_number() || !other.is_number() {
            return false;
        }
        let a: u32 = self.bits % 0x8000_0000;
        let b: u32 = other.bits % 0x8000_0000;
        proof {
            if a < b {
                lemma_distance_keeps_order(a as nat, b as nat);
            } else {
                lemma_distance_keeps_order(b as nat, a as nat);
            }
            lemma_distance_keeps_order(0, a as nat);
            lemma_distance_keeps_order(0, b as nat);
        }
        if self.bits < 0x8000_0000 {
            other.bits < 0x8000_0000 && a < b
        } else if other.bits < 0x8000_0000 {
            a > 0 || b > 0
        } else {
            b < a
        }
    }

    /// Whether this number is at least the other; never so of a NaN.
    pub fn is_at_least(self, other: Single) -> (b: bool)
        ensures
            b == (!self.is_nan() && !other.is_nan() && self.value() >= other.value()),
    {
        self.is_number() && other.is_number() && !self.is_below(other)
    }

    /// Restricts the number to an interval; a NaN stays.
    pub fn clamp(self, low: Single, high: Single) -> (r: Single)
        ensures
            r == self.clamped(low, high),
    {
        if self.is_below(low) {
            low
        } else if high.is_below(self) {
            high
        } else {
            self
        }
    }
}

proof fn lemma_distance_grows(m: nat)
    ensures
        distance(m) < distance(m + 1),
{
    let e = m / 0x80_0000;
    let f = m % 0x80_0000;
    if f < 0x7f_ffff {
        assert((m + 1) / 0x80_0000 == e && (m + 1) % 0x80_0000 == f + 1);
        if e > 0 {
            lemma_pow2_pos((e - 1) as nat);
            let p = pow2((e - 1) as nat);
            assert((0x80_0000 + f) * p < (0x80_0000 + f + 1) * p) by (nonlinear_arith)
                requires
                    p > 0,
            ;
        }
    } else {
        assert((m + 1) / 0x80_0000 == e + 1 && (m + 1) % 0x80_0000 == 0);
        lemma2_to64();
        if e > 0 {
            lemma_pow2_pos((e - 1) as nat);
            lemma_pow2_unfold(e);
            assert(distance(m + 1) == 0x80_0000 * pow2(e));
            let p = pow2((e - 1) as nat);
            assert((0x80_0000 + 0x7f_ffff) * p < 0x80_0000 * (2 * p)) by (nonlinear_arith)
                requires
                    p > 0,
            ;
        }
    }
}

/// A number with larger bits is farther from zero.
pub(crate) proof fn lemma_distance_keeps_order(a: nat, b: nat)
    requires
        a <= b,
    ensures
        distance(a) <= distance(b),
        a < b ==> distance(a) < distance(b),
    decreases b - a,
{
    if a < b {
        lemma_distance_keeps_order(a, (b - 1) as nat);
        lemma_distance_grows((b - 1) as nat);
    }
}

/// The numbers of the format are laid out without gaps: from zero on, each is the
/// step of its exponent farther from zero than the one whose bits come before.
pub proof fn numbers_follow_each_other_step_by_step(magnitude: nat)
    ensures
        distance(0) == 0,
        distance(magnitude + 1) == distance(magnitude) + if magnitude < 0x100_0000 {
            1
        } else {
            pow2((magnitude / 0x80_0000 - 1) as nat)
        },
{
    let m = magnitude;
    let e = m / 0x80_0000;
    let f = m % 0x80_0000;
    lemma2_to64();
    if e > 0 {
        let p = pow2((e - 1) as nat);
        if f < 0x7f_ffff {
            assert((m + 1) / 0x80_0000 == e && (m + 1) % 0x80_0000 == f + 1);
            assert((0x80_0000 + f + 1) * p == (0x80_0000 + f) * p + p) by (nonlinear_arith);
        } else {
            assert((m + 1) / 0x80_0000 == e + 1 && (m + 1) % 0x80_0000 == 0);
            lemma_pow2_unfold(e);
            assert(0x80_0000 * (2 * p) == (0x80_0000 + 0x7f_ffff) * p + p) by (nonlinear_arith);
        }
    } else if f == 0x7f_ffff {
        assert((m + 1) / 0x80_0000 == 1 && (m + 1) % 0x80_0000 == 0);
        assert(distance(m + 1) == 0x80_0000 * pow2(0));
    } else {
        assert((m + 1) / 0x80_0000 == 0 && (m + 1) % 0x80_0000 == m + 1);
    }
    if e == 1 {
        assert(pow2((e - 1) as nat) == 1);
    }
}

/// The highest bit is the sign: the numbers with it are the negatives of those
/// without. What lies beyond the infinities is no number.
pub proof fn highest_bit_is_the_sign(bits: u32)
    requires
        bits < 0x8000_0000,
    ensures
        (Single { bits }).value() == distance(bits as nat),
        (Single { bits: (bits + 0x8000_0000) as u32 }).value() == -distance(bits as nat),
        (Single { bits }).is_nan() <==> bits > 0x7f80_0000,
        (Single { bits: (bits + 0x8000_0000) as u32 }).is_nan() <==> bits > 0x7f80_0000,
{
}

/// Of two numbers either one is below the other or their values are the same; what
/// is no number is below nothing and above nothing.
pub proof fn numbers_are_ordered_by_value(x: Single, y: Single)
    ensures
        x.below(y) ==> !x.is_nan() && !y.is_nan() && x.value() < y.value(),
        !x.is_nan() && !y.is_nan() ==> x.below(y) || y.below(x) || x.value() == y.value(),
        !(x.below(y) && y.below(x)),
{
}

/// Clamping gives the number of the interval that is nearest: the number itself
/// inside it, a bound outside it; what is no number stays what it is.
pub proof fn clamping_gives_the_nearest_of_the_interval(x: Single, low: Single, high: Single)
    requires
        !low.is_nan(),
        !high.is_nan(),
        low.value() <= high.value(),
    ensures
        ({
            let r = x.clamped(low, high);
            &&& x.is_nan() ==> r == x
            &&& !x.is_nan() ==> low.value() <= r.value() <= high.value()
            &&& !x.is_nan() && low.value() <= x.value() <= high.value() ==> r == x
            &&& !x.is_nan() && x.value() < low.value() ==> r == low
            &&& !x.is_nan() && x.value() > high.value() ==> r == high
        }),
{
}

} // verus!
