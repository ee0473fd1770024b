//! Single-precision values held by their bit patterns.
//!
//! The console stores and compares levels, frequencies and the like; it never
//! does arithmetic on them. Holding the IEEE 754 bits makes both exact.

use vstd::arithmetic::power2::lemma2_to64;
use vstd::arithmetic::power2::lemma_pow2_adds;
use vstd::arithmetic::power2::lemma_pow2_pos;
use vstd::arithmetic::power2::lemma_pow2_unfold;
use vstd::arithmetic::power2::pow2;
use vstd::prelude::*;



verus! {

/// An IEEE 754 single-precision value, held by its bits.
#[derive(Debug, Clone, Copy, PartialEq, Eq, Structural)]
pub struct Single {
    pub bits: u32,
}

/// Bits of the largest magnitude that is still a number: infinity.
pub const INFINITY_BITS: u32 = 0x7F80_0000;

/// The weight of the exponent field's lowest bit.
pub const EXPONENT_UNIT: u32 = 0x80_0000;

/// The bit that carries the sign.
pub const SIGN_BIT: u32 = 0x8000_0000;

impl Single {
    /// The magnitude bits, sign removed.
    pub open spec fn magnitude(self) -> int {
        if self.bits >= SIGN_BIT {
            self.bits - SIGN_BIT
        } else {
            self.bits as int
        }
    }

    /// Whether the value is not a number.
    pub open spec fn is_nan(self) -> bool {
        self.magnitude() > INFINITY_BITS
    }

    /// Where the value stands among all numbers. Both zeros stand at 0.
    pub open spec fn rank(self) -> int {
        if self.bits >= SIGN_BIT {
            -self.magnitude()
        } else {
            self.magnitude()
        }
    }

    /// Numeric `<=`: never true of a value that is not a number.
    pub open spec fn at_most(self, other: Single) -> bool {
        !self.is_nan() && !other.is_nan() && self.rank() <= other.rank()
    }

    /// Whether the value is the whole number `n`: the significand, hidden bit
    /// added, is `n` scaled up by what the exponent field scales down.
    pub open spec fn is_whole(self, n: nat) -> bool {
        let exponent = self.bits as int / EXPONENT_UNIT as int;
        let significand = EXPONENT_UNIT + self.bits as int % EXPONENT_UNIT as int;
        if n == 0 {
            self.bits == 0
        } else {
            127 <= exponent <= 150 && significand == n * pow2((150 - exponent) as nat)
        }
    }

    /// The whole number `n`, which a single-precision value holds exactly.
    pub fn from_u16(n: u16) -> (value: Single)
        ensures
            value.is_whole(n as nat),
            value == whole(n as nat),
    {
        if n == 0 {
            proof {
                whole_is_unique(Single { bits: 0 }, 0);
            }
            return Single { bits: 0 };
        }
        let mut significand: u32 = n as u32;
        let mut exponent: u32 = 150;
        proof {
            lemma2_to64();
            assert(n * pow2(0) == n) by (nonlinear_arith)
                requires
                    pow2(0) == 1,
            ;
        }
        while significand < EXPONENT_UNIT
            invariant
                0 < n,
                127 <= exponent <= 150,
                significand < 2 * EXPONENT_UNIT,
                significand == n * pow2((150 - exponent) as nat),
            decreases exponent,
        {
            proof {
                lemma2_to64();
                lemma_pow2_unfold((151 - exponent) as nat);
                let scale = pow2((150 - exponent) as nat) as int;
                let number = n as int;
                assert(number * (2 * scale) == 2 * (number * scale)) by (nonlinear_arith);
                if exponent == 127 {
                    assert(number * scale >= scale) by (nonlinear_arith)
                        requires
                            number >= 1,
                            scale >= 0,
                    ;
                }
            }
            significand = significand * 2;
            exponent = exponent - 1;
        }
        let bits: u32 = exponent * EXPONENT_UNIT + (significand - EXPONENT_UNIT);
        proof {
            assert(bits as int / EXPONENT_UNIT as int == exponent);
            assert(bits as int % EXPONENT_UNIT as int == significand - EXPONENT_UNIT);
        }
        let value = Single { bits };
        proof {
            whole_is_unique(value, n as nat);
        }
        value
    }

    /// Whether `self <= other` as numbers.
    pub fn le(self, other: Single) -> (le: bool)
        ensures
            le == self.at_most(other),
    {
        let (a, a_negative): (u32, bool) = if self.bits >= SIGN_BIT {
            (self.bits - SIGN_BIT, true)
        } else {
            (self.bits, false)
        };
        let (b, b_negative): (u32, bool) = if other.bits >= SIGN_BIT {
            (other.bits - SIGN_BIT, true)
        } else {
            (other.bits, false)
        };
        if a > INFINITY_BITS || b > INFINITY_BITS {
            false
        } else if a_negative && b_negative {
            b <= a
        } else if a_negative {
            true
        } else if b_negative {
            a == 0 && b == 0
        } else {
            a <= b
        }
    }
}

/// The value that is the whole number `n`.
pub open spec fn whole(n: nat) -> Single {
    choose|value: Single| value.is_whole(n)
}

/// No two values are the same whole number.
pub proof fn whole_is_unique(value: Single, n: nat)
    requires
        value.is_whole(n),
    ensures
        value == whole(n),
{
    let other = whole(n);
    assert(other.is_whole(n));
    if n > 0 {
        let unit = EXPONENT_UNIT as int;
        let a = value.bits as int / unit;
        let b = other.bits as int / unit;
        if a != b {
            let (low, high) = if a < b {
                (a, b)
            } else {
                (b, a)
            };
            let fine = pow2((150 - high) as nat);
            let step = pow2((high - low) as nat);
            lemma_pow2_adds((150 - high) as nat, (high - low) as nat);
            lemma_pow2_unfold((high - low) as nat);
            lemma_pow2_pos((high - low - 1) as nat);
            assert(n * (fine * step) >= 2 * (n * fine)) by (nonlinear_arith)
                requires
                    step >= 2,
            ;
        }
    }
}

/// How two values compare. What is not a number compares with nothing; both zeros are
/// one; a value with a sign is at most one without; those without a sign go by their
/// bits, and those with it the other way round.
pub proof fn how_two_values_compare(a: Single, b: Single, le: bool)
    requires
        call_ensures(Single::le, (a, b), le),
    ensures
        0x7F80_0000 < a.bits < 0x8000_0000 || 0xFF80_0000 < a.bits ==> !le,
        0x7F80_0000 < b.bits < 0x8000_0000 || 0xFF80_0000 < b.bits ==> !le,
        a.bits <= 0x7F80_0000 && b.bits <= 0x7F80_0000 ==> (le <==> a.bits <= b.bits),
        0x8000_0000 <= a.bits <= 0xFF80_0000 && 0x8000_0000 <= b.bits <= 0xFF80_0000 ==> (le
            <==> a.bits >= b.bits),
        0x8000_0000 <= a.bits <= 0xFF80_0000 && b.bits <= 0x7F80_0000 ==> le,
        a.bits <= 0x7F80_0000 && 0x8000_0000 <= b.bits <= 0xFF80_0000 ==> (le <==> a.bits == 0
            && b.bits == 0x8000_0000),
{
}

/// Where a value stands on the line: its magnitude from zero, to the left with a sign.
pub proof fn where_a_value_stands(value: Single)
    ensures
        value.bits < 0x8000_0000 ==> value.rank() == value.bits,
        value.bits >= 0x8000_0000 ==> value.rank() == 0x8000_0000 - value.bits,
        value.is_nan() <==> 0x7F80_0000 < value.bits < 0x8000_0000 || 0xFF80_0000 < value.bits,
{
}

proof fn lemma_whole_bits(value: Single, n: nat)
    requires
        value.is_whole(n),
        0 < n < 0x80_0000,
    ensures
        value.bits as int / 0x80_0000 <= 149,
        value.bits as int / 0x80_0000 >= 127,
{
    let exponent = value.bits as int / 0x80_0000;
    if exponent == 150 {
        lemma2_to64();
        let fine = pow2((150 - exponent) as nat);
        assert(fine == 1);
        assert(n * fine == n) by (nonlinear_arith)
            requires
                fine == 1,
        ;
    }
}

/// Nothing is zero, one is one, and twice a number has the next exponent.
pub proof fn how_whole_numbers_are_held(n: u16, m: u16, a: Single, b: Single)
    requires
        call_ensures(Single::from_u16, (n,), a),
        call_ensures(Single::from_u16, (m,), b),
    ensures
        n == 0 ==> a.bits == 0,
        n == 1 ==> a.bits == 0x3F80_0000,
        0 < n && m == 2 * n ==> b.bits == a.bits + 0x80_0000,
{
    if n == 1 {
        lemma2_to64();
        let one = Single { bits: 0x3F80_0000 };
        assert(one.is_whole(1));
        whole_is_unique(one, 1);
        whole_is_unique(a, 1);
    }
    if 0 < n && m == 2 * n {
        lemma_whole_bits(a, n as nat);
        let exponent = a.bits as int / 0x80_0000;
        let next = Single { bits: (a.bits + 0x80_0000) as u32 };
        lemma_pow2_unfold((150 - exponent) as nat);
        let fine = pow2((149 - exponent) as nat);
        assert(n * (2 * fine) == m * fine) by (nonlinear_arith)
            requires
                m == 2 * n,
        ;
        assert(next.is_whole(m as nat));
        whole_is_unique(next, m as nat);
        whole_is_unique(b, m as nat);
    }
}

proof fn lemma_wholes_rise(n: nat, m: nat, a: Single, b: Single)
    requires
        a.is_whole(n),
        b.is_whole(m),
        0 < n < m,
    ensures
        a.bits < b.bits,
{
    let unit = 0x80_0000int;
    let high = a.bits as int / unit;
    let low = b.bits as int / unit;
    if low < high {
        let fine = pow2((150 - high) as nat);
        let step = pow2((high - low) as nat);
        lemma_pow2_adds((150 - high) as nat, (high - low) as nat);
        lemma_pow2_unfold((high - low) as nat);
        lemma_pow2_pos((high - low - 1) as nat);
        lemma_pow2_pos((150 - high) as nat);
        assert(m * (fine * step) >= 2 * (n * fine)) by (nonlinear_arith)
            requires
                step >= 2,
                n < m,
                fine > 0,
        ;
    } else if low == high {
        let fine = pow2((150 - high) as nat);
        lemma_pow2_pos((150 - high) as nat);
        assert(n * fine < m * fine) by (nonlinear_arith)
            requires
                n < m,
                fine > 0,
        ;
    }
}

/// Whole numbers are held in their order.
pub proof fn whole_numbers_keep_their_order(n: u16, m: u16, a: Single, b: Single, le: bool)
    requires
        call_ensures(Single::from_u16, (n,), a),
        call_ensures(Single::from_u16, (m,), b),
        call_ensures(Single::le, (a, b), le),
    ensures
        n < m ==> a.bits < b.bits,
        le <==> n <= m,
{
    if 0 < n && n < m {
        lemma_wholes_rise(n as nat, m as nat, a, b);
    }
    if 0 < m && m < n {
        lemma_wholes_rise(m as nat, n as nat, b, a);
    }
    if n == m {
        whole_is_unique(a, n as nat);
        whole_is_unique(b, n as nat);
    }
}

} // verus!
