//! Numeric values in the IEEE 754 binary64 format, held as bit patterns.

use vstd::prelude::*;
use vstd::arithmetic::div_mod::lemma_fundamental_div_mod;
use vstd::arithmetic::power2::{
    lemma2_to64, lemma2_to64_rest, lemma_pow2_adds, lemma_pow2_pos,
    lemma_pow2_strictly_increases, lemma_pow2_unfold, pow2,
};

verus! {

/// The largest magnitude that is not a NaN: the pattern of infinity.
pub const INFINITY_BITS: u64 = 0x7ff0_0000_0000_0000;

/// The pattern of the quiet NaN with a clear sign and no payload.
pub const QUIET_NAN: u64 = 0x7ff8_0000_0000_0000;

/// The pattern of the sign bit alone.
pub const SIGN_BIT: u64 = 0x8000_0000_0000_0000;

/// The pattern of the lowest bit of the exponent: two to the power of 52.
pub const EXPONENT_UNIT: u64 = 0x10_0000_0000_0000;

/// The position of the leading one in the binary numeral of `m`, counted
/// from zero at the lowest place.
pub open spec fn leading(m: nat) -> nat
    decreases m,
{
    if m < 2 {
        0
    } else {
        1 + leading(m / 2)
    }
}

/// The integer `m` brought to 53 significant bits: padded with zeros where
/// it has fewer, and rounded to the nearest multiple of the bits that it
/// loses where it has more. Halfway between two multiples the even one is taken.
pub open spec fn significand(m: nat) -> nat {
    let e = leading(m);
    if e <= 52 {
        m * pow2((52 - e) as nat)
    } else {
        let unit = pow2((e - 52) as nat);
        let low = m / unit;
        let lost = m % unit;
        if 2 * lost > unit || (2 * lost == unit && low % 2 == 1) {
            low + 1
        } else {
            low
        }
    }
}

/// The bits of the binary64 value that is nearest to the integer `v`, for
/// `v` of at most 64 bits. The sign stands in the highest bit. The exponent
/// field holds the position of the leading one and the bias, 1023; the leading
/// one of the significand is not stored, and a significand that rounding
/// carries to 54 bits raises the exponent by one.
pub open spec fn nearest(v: int) -> int {
    if v == 0 {
        0
    } else {
        let m = (if v < 0 {
            -v
        } else {
            v
        }) as nat;
        let sign = if v < 0 {
            SIGN_BIT as int
        } else {
            0
        };
        sign + (leading(m) + 1022) * EXPONENT_UNIT + significand(m)
    }
}

/// The leading one of `m` stands at `e` where `m` lies between the powers of
/// two with the exponents `e` and `e + 1`.
proof fn lemma_leading(m: nat, e: nat)
    requires
        pow2(e) <= m < 2 * pow2(e),
    ensures
        leading(m) == e,
    decreases e,
{
    lemma2_to64();
    if e > 0 {
        lemma_pow2_unfold(e);
        lemma_leading(m / 2, (e - 1) as nat);
    }
}

/// A positive integer lies between the power of two at its leading one and
/// the next power of two.
pub proof fn lemma_leading_bounds(m: nat)
    requires
        m > 0,
    ensures
        pow2(leading(m)) <= m < 2 * pow2(leading(m)),
    decreases m,
{
    lemma2_to64();
    if m >= 2 {
        lemma_leading_bounds(m / 2);
        lemma_pow2_unfold(leading(m));
    }
}

/// The significand of an integer, at the place of the integer's leading one,
/// is the integer itself where 53 bits hold it. Otherwise it misses the
/// integer by half a unit of its last place at most, and where it misses it
/// by just that, it is even.
pub proof fn lemma_significand_is_nearest(m: nat)
    requires
        m > 0,
    ensures
        leading(m) <= 52 ==> significand(m) == m * pow2((52 - leading(m)) as nat),
        leading(m) > 52 ==> ({
            let unit = pow2((leading(m) - 52) as nat) as int;
            let placed = significand(m) * unit;
            &&& -unit <= 2 * (placed - m) <= unit
            &&& (2 * (placed - m) == unit || 2 * (m - placed) == unit) ==> significand(m) % 2 == 0
        }),
{
    let e = leading(m);
    if e > 52 {
        let unit = pow2((e - 52) as nat) as int;
        let low = m as int / unit;
        let lost = m as int % unit;
        lemma_pow2_pos((e - 52) as nat);
        lemma_fundamental_div_mod(m as int, unit);
        assert((low + 1) * unit == low * unit + unit) by (nonlinear_arith);
        assert(unit * low == low * unit) by (nonlinear_arith);
    }
}

/// A binary64 value, known by its 64 bits: one sign bit, eleven exponent bits
/// and fifty-two bits of significand.
#[derive(Clone, Copy, Debug, PartialEq, Eq, Structural)]
pub struct Binary64 {
    pub bits: u64,
}

impl Binary64 {
    /// Whether the sign bit is set.
    pub open spec fn sign_negative(self) -> bool {
        self.bits >= SIGN_BIT
    }

    /// The bits with the sign bit cleared.
    pub open spec fn magnitude(self) -> int {
        if self.bits >= SIGN_BIT {
            self.bits - SIGN_BIT
        } else {
            self.bits as int
        }
    }

    /// Whether the value is a NaN: an all-ones exponent with a nonzero significand.
    pub open spec fn nan(self) -> bool {
        self.magnitude() > INFINITY_BITS
    }

    /// Whether the value is positive or negative zero.
    pub open spec fn zero(self) -> bool {
        self.magnitude() == 0
    }

    /// Whether the value compares less than or equal to zero: it is no NaN,
    /// and it is a zero or carries the sign bit.
    pub open spec fn at_most_zero(self) -> bool {
        !self.nan() && (self.zero() || self.sign_negative())
    }

    /// The value itself, or the one quiet NaN in place of any NaN. The sign and
    /// the payload that a NaN carries can differ from one machine to another,
    /// and nothing that is computed tells them apart.
    pub open spec fn canonical(self) -> Binary64 {
        if self.nan() {
            Binary64 { bits: QUIET_NAN }
        } else {
            self
        }
    }

    /// The value with the given bits.
    pub fn from_bits(bits: u64) -> (value: Self)
        ensures
            value.bits == bits,
    {
        Binary64 { bits }
    }

    /// The value nearest to an integer, as a conversion of the language
    /// from `i64` to binary64 gives it.
    pub fn from_i64(value: i64) -> (nearest_value: Self)
        ensures
            nearest_value.bits == nearest(value as int),
    {
        if value == 0 {
            return Binary64 { bits: 0 };
        }
        let negative: bool = value < 0;
        let m: u64 = if negative {
            if value == i64::MIN {
                SIGN_BIT
            } else {
                (-value) as u64
            }
        } else {
            value as u64
        };
        proof {
            lemma2_to64();
            lemma2_to64_rest();
        }
        let mut e: u64 = 0;
        let mut power: u64 = 1;
        while power <= m / 2
            invariant
                0 < m <= SIGN_BIT,
                power == pow2(e as nat),
                power <= m,
                e <= 63,
            decreases m - power,
        {
            proof {
                lemma2_to64_rest();
                lemma_pow2_pos(e as nat);
                lemma_pow2_unfold((e + 1) as nat);
                if e + 1 > 63 {
                    lemma_pow2_strictly_increases(63, (e + 1) as nat);
                }
            }
            power = power * 2;
            e = e + 1;
        }
        proof {
            lemma_leading(m as nat, e as nat);
        }
        let rounded: u64 = if e <= 52 {
            let mut padded: u64 = m;
            let mut k: u64 = e;
            proof {
                lemma2_to64();
                assert(m * pow2(0) == m);
            }
            while k < 52
                invariant
                    e <= k <= 52,
                    padded == m * pow2((k - e) as nat),
                    padded < 2 * pow2(k as nat),
                decreases 52 - k,
            {
                proof {
                    lemma2_to64_rest();
                    lemma_pow2_unfold((k + 1 - e) as nat);
                    lemma_pow2_unfold((k + 1) as nat);
                    if k + 1 < 52 {
                        lemma_pow2_strictly_increases((k + 1) as nat, 52);
                    }
                    assert(2 * (m * pow2((k - e) as nat)) == m * (2 * pow2((k - e) as nat)))
                        by (nonlinear_arith);
                }
                padded = padded * 2;
                k = k + 1;
            }
            padded
        } else {
            let mut unit: u64 = 1;
            let mut k: u64 = 52;
            proof {
                lemma2_to64();
            }
            while k < e
                invariant
                    52 <= k <= e <= 63,
                    unit == pow2((k - 52) as nat),
                    unit <= 0x800,
                decreases e - k,
            {
                proof {
                    lemma2_to64();
                    lemma_pow2_unfold((k + 1 - 52) as nat);
                    if k + 1 - 52 < 11 {
                        lemma_pow2_strictly_increases((k + 1 - 52) as nat, 11);
                    }
                }
                unit = unit * 2;
                k = k + 1;
            }
            let low: u64 = m / unit;
            let lost: u64 = m % unit;
            proof {
                lemma_pow2_pos((e - 52) as nat);
                lemma_pow2_adds((e - 52) as nat, 53);
                assert(m < pow2((e - 52) as nat) * pow2(53)) by {
                    lemma_pow2_unfold((e + 1) as nat);
                }
                assert(low < pow2(53)) by (nonlinear_arith)
                    requires
                        low == m / unit,
                        unit > 0,
                        m < unit * pow2(53),
                ;
            }
            if 2 * lost > unit || (2 * lost == unit && low % 2 == 1) {
                low + 1
            } else {
                low
            }
        };
        let sign: u64 = if negative {
            SIGN_BIT
        } else {
            0
        };
        Binary64 { bits: sign + (e + 1022) * EXPONENT_UNIT + rounded }
    }

    /// The bits of the value.
    pub fn to_bits(self) -> (bits: u64)
        ensures
            bits == self.bits,
    {
        self.bits
    }

    /// The bits with the sign bit cleared.
    fn cleared_sign(self) -> (m: u64)
        ensures
            m == self.magnitude(),
    {
        if self.bits >= SIGN_BIT {
            self.bits - SIGN_BIT
        } else {
            self.bits
        }
    }

    /// Whether the sign bit is set, as it is in negative zero too.
    pub fn is_sign_negative(self) -> (r: bool)
        ensures
            r == self.sign_negative(),
    {
        self.bits >= SIGN_BIT
    }

    /// Whether the value is a NaN.
    pub fn is_nan(self) -> (r: bool)
        ensures
            r == self.nan(),
    {
        self.cleared_sign() > INFINITY_BITS
    }

    /// This value in its canonical form.
    pub fn to_canonical(self) -> (value: Self)
        ensures
            value == self.canonical(),
    {
        if self.is_nan() {
            Binary64 { bits: QUIET_NAN }
        } else {
            self
        }
    }

    /// Whether the value equals zero in binary64 comparison: it is positive
    /// or negative zero.
    pub fn is_zero(self) -> (r: bool)
        ensures
            r == self.zero(),
    {
        self.cleared_sign() == 0
    }

    /// Whether the value is less than or equal to zero in binary64
    /// comparison, which no NaN is.
    pub fn is_at_most_zero(self) -> (r: bool)
        ensures
            r == self.at_most_zero(),
    {
        !self.is_nan() && (self.is_zero() || self.is_sign_negative())
    }
}

} // verus!
