//! Double-precision numbers, held by their bits, as far as they are ordered.

use vstd::arithmetic::power2::{lemma_pow2_adds, lemma_pow2_pos, lemma_pow2_strictly_increases, pow2};
use vstd::prelude::*;

verus! {

/// The sign bit of a double.
pub const SIGN_BIT: u64 = 0x8000_0000_0000_0000;

/// The magnitude of an infinity; whatever lies above it is not a number.
pub const INFINITE_MAGNITUDE: u64 = 0x7FF0_0000_0000_0000;

/// One unit of the exponent field, that is two to the power 52.
pub const EXPONENT_UNIT: u64 = 0x0010_0000_0000_0000;

/// A number in the IEEE 754 binary64 format. Two of these are equal where their bits are; how
/// they are ordered as numbers, [`Double::gt`] tells.
#[derive(Clone, Copy, Debug, PartialEq, Eq, Structural)]
pub struct Double {
    pub bits: u64,
}

/// The significand of the double with the given magnitude (its bits without the sign).
pub open spec fn significand(magnitude: nat) -> nat {
    if magnitude < EXPONENT_UNIT {
        magnitude
    } else {
        EXPONENT_UNIT as nat + magnitude % (EXPONENT_UNIT as nat)
    }
}

/// The weight of the last bit of the significand, in units of the smallest positive double.
pub open spec fn last_place(magnitude: nat) -> nat {
    if magnitude < EXPONENT_UNIT {
        1
    } else {
        pow2((magnitude / (EXPONENT_UNIT as nat) - 1) as nat)
    }
}

/// The absolute value of the double with the given magnitude, in units of the smallest
/// positive double (two to the power -1074). Every finite double is a whole number of
/// these; an infinity gets the next value after the largest finite one.
pub open spec fn absolute(magnitude: nat) -> nat {
    significand(magnitude) * last_place(magnitude)
}

impl Double {
    /// Whether the sign bit is set.
    pub open spec fn negative(self) -> bool {
        self.bits >= SIGN_BIT
    }

    /// The bits without the sign.
    pub open spec fn magnitude(self) -> nat {
        if self.negative() {
            (self.bits - SIGN_BIT) as nat
        } else {
            self.bits as nat
        }
    }

    /// Whether this is not a number.
    pub open spec fn nan(self) -> bool {
        self.magnitude() > INFINITE_MAGNITUDE
    }

    /// The number, in units of the smallest positive double.
    pub open spec fn value(self) -> int {
        if self.negative() {
            -absolute(self.magnitude())
        } else {
            absolute(self.magnitude()) as int
        }
    }

    /// `self > other`, which never holds where one of the two is not a number.
    pub open spec fn above(self, other: Double) -> bool {
        &&& !self.nan()
        &&& !other.nan()
        &&& self.value() > other.value()
    }

    /// The same number without its sign.
    pub open spec fn unsigned(self) -> Double {
        Double { bits: self.magnitude() as u64 }
    }

    /// Whether this double is the fraction `numerator / denominator`, rounded: it is finite,
    /// and at most half a unit in its last place away from the fraction.
    pub open spec fn rounds(self, numerator: int, denominator: int) -> bool {
        let error = self.value() * denominator - numerator * pow2(1074);
        &&& !self.nan()
        &&& self.magnitude() < INFINITE_MAGNITUDE
        &&& 2 * error <= denominator * last_place(self.magnitude())
        &&& -2 * error <= denominator * last_place(self.magnitude())
    }

    /// The double with the given bits.
    pub fn from_bits(bits: u64) -> (result: Double)
        ensures
            result.bits == bits,
    {
        Double { bits }
    }

    /// Whether this is not a number.
    pub fn is_nan(&self) -> (result: bool)
        ensures
            result == self.nan(),
    {
        self.abs().bits > INFINITE_MAGNITUDE
    }

    /// The absolute value.
    pub fn abs(&self) -> (result: Double)
        ensures
            result == self.unsigned(),
            !result.negative(),
            result.nan() == self.nan(),
            result.value() == absolute(self.magnitude()),
    {
        if self.bits >= SIGN_BIT {
            Double { bits: self.bits - SIGN_BIT }
        } else {
            Double { bits: self.bits }
        }
    }

    /// `self > other`.
    pub fn gt(&self, other: &Double) -> (result: bool)
        ensures
            result == self.above(*other),
    {
        if self.is_nan() || other.is_nan() {
            return false;
        }
        let mine: u64 = self.abs().bits;
        let theirs: u64 = other.abs().bits;
        proof {
            lemma_absolute_orders(self.magnitude(), other.magnitude());
            lemma_absolute_zero(self.magnitude());
            lemma_absolute_zero(other.magnitude());
        }
        if self.bits >= SIGN_BIT {
            other.bits >= SIGN_BIT && mine < theirs
        } else if other.bits >= SIGN_BIT {
            mine > 0 || theirs > 0
        } else {
            mine > theirs
        }
    }
}

/// Only a zero magnitude stands for zero.
pub proof fn lemma_absolute_zero(magnitude: nat)
    ensures
        absolute(magnitude) == 0 <==> magnitude == 0,
{
    let unit = EXPONENT_UNIT as nat;
    if magnitude >= unit {
        lemma_pow2_pos((magnitude / unit - 1) as nat);
    }
    let s = significand(magnitude);
    let p = last_place(magnitude);
    assert(s > 0 && p > 0 ==> s * p > 0) by (nonlinear_arith);
    assert(s == 0 ==> s * p == 0) by (nonlinear_arith);
}

/// A smaller magnitude stands for a smaller number.
proof fn lemma_absolute_increases(small: nat, large: nat)
    requires
        small < large,
    ensures
        absolute(small) < absolute(large),
{
    let unit = EXPONENT_UNIT as nat;
    let s1 = significand(small);
    let s2 = significand(large);
    let p1 = last_place(small);
    let p2 = last_place(large);
    if large < unit {
    } else if small < unit {
        lemma_pow2_pos((large / unit - 1) as nat);
        assert(s1 < s2);
        assert(s1 * 1 < s2 * p2) by (nonlinear_arith)
            requires
                s1 < s2,
                p2 >= 1,
        ;
    } else {
        let e1 = small / unit;
        let e2 = large / unit;
        lemma_pow2_pos((e1 - 1) as nat);
        assert(e1 <= e2) by (nonlinear_arith)
            requires
                small < large,
                e1 == small / unit,
                e2 == large / unit,
                unit > 0,
        ;
        if e1 == e2 {
            assert(s1 < s2);
            assert(s1 * p1 < s2 * p2) by (nonlinear_arith)
                requires
                    s1 < s2,
                    p1 == p2,
                    p1 > 0,
            ;
        } else {
            lemma_pow2_adds(1, (e1 - 1) as nat);
            vstd::arithmetic::power2::lemma2_to64();
            assert(pow2(e1) == 2 * p1);
            if e1 < e2 - 1 {
                lemma_pow2_strictly_increases(e1, (e2 - 1) as nat);
            }
            assert(p2 >= 2 * p1);
            assert(s1 * p1 < s2 * p2) by (nonlinear_arith)
                requires
                    s1 < 2 * unit,
                    s2 >= unit,
                    p2 >= 2 * p1,
                    p1 > 0,
            ;
        }
    }
}

/// Magnitudes are ordered as the numbers that they stand for.
pub proof fn lemma_absolute_orders(a: nat, b: nat)
    ensures
        a < b <==> absolute(a) < absolute(b),
        a == b <==> absolute(a) == absolute(b),
{
    if a < b {
        lemma_absolute_increases(a, b);
    } else if b < a {
        lemma_absolute_increases(b, a);
    }
}

/// How to see that a positive double rounds a fraction: its significand does, scaled by the
/// power of two that its exponent asks for.
pub proof fn lemma_rounds(d: Double, numerator: int, denominator: int, shift: nat)
    requires
        EXPONENT_UNIT <= d.bits < INFINITE_MAGNITUDE,
        shift + d.bits / EXPONENT_UNIT == 1075,
        denominator > 0,
        2 * (significand(d.bits as nat) * denominator - numerator * pow2(shift)) <= denominator,
        -2 * (significand(d.bits as nat) * denominator - numerator * pow2(shift)) <= denominator,
    ensures
        d.rounds(numerator, denominator),
{
    let s = significand(d.magnitude()) as int;
    let p = last_place(d.magnitude()) as int;
    let q = pow2(shift) as int;
    let exponent = (d.magnitude() / (EXPONENT_UNIT as nat) - 1) as nat;
    lemma_pow2_adds(shift, exponent);
    lemma_pow2_pos(exponent);
    assert(pow2(1074) == q * p);
    assert((s * p) * denominator - numerator * (q * p) == (s * denominator - numerator * q) * p)
        by (nonlinear_arith);
    let scaled = s * denominator - numerator * q;
    assert(2 * (scaled * p) <= denominator * p && -2 * (scaled * p) <= denominator * p)
        by (nonlinear_arith)
        requires
            2 * scaled <= denominator,
            -2 * scaled <= denominator,
            p > 0,
    ;
}

/// The order of two doubles, read off their bits: those of positive numbers grow with the
/// number, those of negative ones fall, and both zeros are the same. What is not a number is
/// above nothing, and below nothing.
pub proof fn law_order_by_bits(a: Double, b: Double)
    ensures
        ({
            let place = |d: Double|
                if d.bits < 0x8000_0000_0000_0000u64 {
                    d.bits as int
                } else {
                    0x8000_0000_0000_0000u64 - d.bits
                };
            &&& a.nan() <==> a.bits % 0x8000_0000_0000_0000u64 > 0x7FF0_0000_0000_0000u64
            &&& a.value() > b.value() <==> place(a) > place(b)
            &&& a.above(b) <==> !a.nan() && !b.nan() && place(a) > place(b)
        }),
{
    lemma_absolute_orders(a.magnitude(), b.magnitude());
    lemma_absolute_zero(a.magnitude());
    lemma_absolute_zero(b.magnitude());
}

/// The absolute value of a double has the same bits but for the sign. It is the number itself or
/// its negation, whichever is not below zero, and not a number exactly where the double is none.
pub proof fn law_absolute_value(d: Double)
    ensures
        d.unsigned().bits == d.bits % 0x8000_0000_0000_0000u64,
        d.unsigned().nan() == d.nan(),
        d.unsigned().value() >= 0,
        d.unsigned().value() == d.value() || d.unsigned().value() == -d.value(),
        d.value() == 0 <==> d.bits % 0x8000_0000_0000_0000u64 == 0,
        d.bits < 0x8000_0000_0000_0000u64 ==> d.value() >= 0,
        d.bits >= 0x8000_0000_0000_0000u64 ==> d.value() <= 0,
{
    lemma_absolute_zero(d.magnitude());
    assert(d.unsigned().magnitude() == d.magnitude());
}

} // verus!
