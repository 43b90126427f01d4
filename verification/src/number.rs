//! Numbers: double-precision numbers, held by their bit patterns.
//!
//! A pattern of 64 bits holds, from the top, one bit for the sign, eleven for the
//! exponent and fifty-two for the fraction. What is asked of a number here is
//! answered from these three: whether it is zero, whether two numbers are equal,
//! and which natural number it is, if any.

use vstd::prelude::*;
use vstd::arithmetic::power2::pow2;

verus! {

/// Two to the power 52: one more than the largest fraction.
pub const FRACTION_END: u64 = 0x10_0000_0000_0000;

/// Two to the power 63: the smallest pattern with the sign set.
pub const SIGN: u64 = 0x8000_0000_0000_0000;

/// The fraction of a pattern: its lowest 52 bits.
pub open spec fn fraction(bits: u64) -> nat {
    (bits % FRACTION_END) as nat
}

/// The exponent of a pattern, as it is stored: the 11 bits above the fraction.
pub open spec fn exponent(bits: u64) -> nat {
    ((bits / FRACTION_END) % 2048) as nat
}

/// Whether the sign of a pattern is set.
pub open spec fn is_negative(bits: u64) -> bool {
    bits >= SIGN
}

/// Whether a pattern is no number at all.
pub open spec fn is_nan(bits: u64) -> bool {
    exponent(bits) == 2047 && fraction(bits) != 0
}

/// Whether a pattern is zero, of either sign.
pub open spec fn is_zero(bits: u64) -> bool {
    exponent(bits) == 0 && fraction(bits) == 0
}

/// Whether two patterns are equal as numbers: neither is no number, and they are
/// the same pattern or both zero.
pub open spec fn equal(a: u64, b: u64) -> bool {
    !is_nan(a) && !is_nan(b) && (a == b || (is_zero(a) && is_zero(b)))
}

/// The pattern of the number with the opposite sign.
pub open spec fn negated(bits: u64) -> u64 {
    if bits >= SIGN {
        (bits - SIGN) as u64
    } else {
        (bits + SIGN) as u64
    }
}

/// The natural number that a pattern denotes, if it denotes one.
///
/// A pattern with exponent `e` between 1 and 2046 and fraction `f` denotes
/// `(2^52 + f) * 2^(e - 1075)`, with its sign. Zero of either sign is the natural
/// number 0. Numbers below zero, numbers with a fractional part, the infinities
/// and what is no number are no natural numbers.
pub open spec fn natural_of(bits: u64) -> Option<nat> {
    let e = exponent(bits);
    let significand = FRACTION_END + fraction(bits);
    if is_zero(bits) {
        Some(0)
    } else if is_negative(bits) || e < 1023 || e == 2047 {
        None
    } else if e >= 1075 {
        Some((significand * pow2((e - 1075) as nat)) as nat)
    } else if significand % (pow2((1075 - e) as nat) as int) == 0 {
        Some((significand / (pow2((1075 - e) as nat) as int)) as nat)
    } else {
        None
    }
}

/// A natural number as an index: itself, or the largest index where it is larger.
pub open spec fn saturated(n: nat) -> usize {
    if n <= usize::MAX {
        n as usize
    } else {
        usize::MAX
    }
}

/// Whether `bits` is zero, of either sign.
pub fn zero(bits: u64) -> (yes: bool)
    ensures
        yes == is_zero(bits),
{
    bits % FRACTION_END == 0 && (bits / FRACTION_END) % 2048 == 0
}

/// Whether `bits` is no number.
pub fn nan(bits: u64) -> (yes: bool)
    ensures
        yes == is_nan(bits),
{
    bits % FRACTION_END != 0 && (bits / FRACTION_END) % 2048 == 2047
}

/// Whether `a` and `b` are equal as numbers.
pub fn same(a: u64, b: u64) -> (yes: bool)
    ensures
        yes == equal(a, b),
{
    !nan(a) && !nan(b) && (a == b || (zero(a) && zero(b)))
}

/// The number with the opposite sign.
pub fn negate(bits: u64) -> (opposite: u64)
    ensures
        opposite == negated(bits),
{
    if bits >= SIGN {
        bits - SIGN
    } else {
        bits + SIGN
    }
}

/// The index that `bits` denotes: the natural number it is, or the largest index
/// where that number is larger; nothing where `bits` is no natural number.
pub fn natural(bits: u64) -> (index: Option<usize>)
    ensures
        index == match natural_of(bits) {
            Some(n) => Some(saturated(n)),
            None => None,
        },
{
    let f = bits % FRACTION_END;
    let e = (bits / FRACTION_END) % 2048;
    let significand = FRACTION_END + f;
    if e == 0 && f == 0 {
        Some(0)
    } else if bits >= SIGN || e < 1023 || e == 2047 {
        None
    } else if e >= 1075 {
        let shift = e - 1075;
        if shift > 11 {
            proof {
                lemma_large(significand, shift as nat);
            }
            Some(usize::MAX)
        } else {
            proof {
                vstd::arithmetic::power2::lemma2_to64();
                lemma_product_fits(significand, shift as nat);
                vstd::bits::lemma_u64_shl_is_mul(significand, shift);
            }
            let n: u64 = significand << shift;
            Some(index_of(n))
        }
    } else {
        let shift = 1075 - e;
        proof {
            vstd::bits::lemma_u64_pow2_no_overflow(shift as nat);
            vstd::bits::lemma_u64_shl_is_mul(1, shift);
        }
        let divisor: u64 = 1u64 << shift;
        if significand % divisor == 0 {
            Some(index_of(significand / divisor))
        } else {
            None
        }
    }
}

/// A natural number that fits 64 bits, as an index.
fn index_of(n: u64) -> (index: usize)
    ensures
        index == saturated(n as nat),
{
    if n > usize::MAX as u64 {
        usize::MAX
    } else {
        n as usize
    }
}

/// A significand times two to a power above 11 is beyond every index.
proof fn lemma_large(significand: u64, shift: nat)
    requires
        significand >= FRACTION_END,
        shift > 11,
    ensures
        significand * pow2(shift) > usize::MAX,
{
    vstd::arithmetic::power2::lemma2_to64();
    if shift > 12 {
        vstd::arithmetic::power2::lemma_pow2_strictly_increases(12, shift);
    }
    assert(pow2(shift) >= 4096);
    assert(significand * pow2(shift) >= 0x10_0000_0000_0000 * 4096) by (nonlinear_arith)
        requires
            significand >= 0x10_0000_0000_0000,
            pow2(shift) >= 4096,
    ;
}

/// A significand times two to a power up to 11 fits 64 bits.
proof fn lemma_product_fits(significand: u64, shift: nat)
    requires
        significand < 2 * FRACTION_END,
        shift <= 11,
    ensures
        significand * pow2(shift) <= u64::MAX,
{
    vstd::arithmetic::power2::lemma2_to64();
    if shift < 11 {
        vstd::arithmetic::power2::lemma_pow2_strictly_increases(shift, 11);
    }
    assert(pow2(shift) <= 2048);
    assert(significand * pow2(shift) <= 0x1F_FFFF_FFFF_FFFF * 2048) by (nonlinear_arith)
        requires
            significand <= 0x1F_FFFF_FFFF_FFFF,
            pow2(shift) <= 2048,
    ;
}

} // verus!
