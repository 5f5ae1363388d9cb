//! What the machine reads off the bit pattern of a binary64 float: whether
//! it is zero, and which integer it comes to when it is rounded down.
//!
//! A pattern holds a sign in bit 63, an exponent in bits 52 to 62 and a
//! fraction in bits 0 to 51. With an exponent `e` between 1 and 2046 the
//! magnitude is (2^52 + fraction) * 2^(e - 1075); exponent 2047 marks the
//! infinities and the values that are no numbers.

use vstd::prelude::*;
use vstd::arithmetic::power2::pow2;

verus! {

/// The exponent field of a pattern.
pub open spec fn exponent(bits: u64) -> nat {
    ((bits >> 52) & 0x7ff) as nat
}

/// The fraction field of a pattern.
pub open spec fn fraction(bits: u64) -> nat {
    (bits & 0xf_ffff_ffff_ffff) as nat
}

/// The sign bit of a pattern.
pub open spec fn is_negative(bits: u64) -> bool {
    (bits >> 63) == 1
}

/// The pattern of positive or of negative zero.
pub open spec fn is_zero(bits: u64) -> bool {
    exponent(bits) == 0 && fraction(bits) == 0
}

/// The pattern of an infinity or of a value that is no number.
pub open spec fn is_not_finite(bits: u64) -> bool {
    exponent(bits) == 0x7ff
}

/// The whole part of the magnitude of a finite pattern: the magnitude
/// rounded toward zero.
pub open spec fn whole_magnitude(bits: u64) -> nat {
    let e = exponent(bits);
    let m = 0x10_0000_0000_0000 + fraction(bits);
    if e < 1023 {
        0
    } else if e >= 1075 {
        m * pow2((e - 1075) as nat)
    } else {
        m / pow2((1075 - e) as nat)
    }
}

/// Whether a finite pattern has a part behind the point: whether its
/// magnitude is no whole number.
pub open spec fn has_fraction(bits: u64) -> bool {
    let e = exponent(bits);
    let m = 0x10_0000_0000_0000 + fraction(bits);
    if e < 1023 {
        !is_zero(bits)
    } else if e >= 1075 {
        false
    } else {
        m % pow2((1075 - e) as nat) != 0
    }
}

/// A finite pattern rounded down to a whole number.
pub open spec fn floored(bits: u64) -> int {
    if !is_negative(bits) {
        whole_magnitude(bits) as int
    } else if has_fraction(bits) {
        -(whole_magnitude(bits) as int) - 1
    } else {
        -(whole_magnitude(bits) as int)
    }
}

/// The integer that a pattern narrows to: the float rounded down, where it
/// is finite and the result is a 64-bit signed integer.
pub open spec fn narrowed(bits: u64) -> Option<i64> {
    if is_not_finite(bits) || floored(bits) < i64::MIN || floored(bits) > i64::MAX {
        None
    } else {
        Some(floored(bits) as i64)
    }
}

/// Whether the pattern is that of positive or of negative zero.
pub fn is_zero_bits(bits: u64) -> (r: bool)
    ensures
        r == is_zero(bits),
{
    assert((bits & 0x7fff_ffff_ffff_ffff == 0) <==> (((bits >> 52) & 0x7ff) == 0 && (bits
        & 0xf_ffff_ffff_ffff) == 0)) by (bit_vector);
    (bits & 0x7fff_ffff_ffff_ffff) == 0
}

/// The integer that the pattern narrows to, if there is one: the float
/// rounded down.
pub fn narrow(bits: u64) -> (r: Option<i64>)
    ensures
        r == narrowed(bits),
{
    let e: u64 = (bits >> 52) & 0x7ff;
    let f: u64 = bits & 0xf_ffff_ffff_ffff;
    let negative = (bits >> 63) == 1;
    assert(e <= 0x7ff && f <= 0xf_ffff_ffff_ffff) by (bit_vector)
        requires
            e == (bits >> 52) & 0x7ff,
            f == bits & 0xf_ffff_ffff_ffff,
    ;
    let m: u64 = 0x10_0000_0000_0000 + f;
    if e == 0x7ff {
        None
    } else if e < 1023 {
        if negative && (e != 0 || f != 0) {
            Some(-1)
        } else {
            Some(0)
        }
    } else if e >= 1086 {
        proof {
            let k = (e - 1075) as nat;
            vstd::arithmetic::power2::lemma2_to64();
            if k > 11 {
                vstd::arithmetic::power2::lemma_pow2_strictly_increases(11, k);
            }
            assert(m * pow2(k) >= 0x10_0000_0000_0000 * 0x800) by (nonlinear_arith)
                requires
                    m >= 0x10_0000_0000_0000,
                    pow2(k) >= 0x800,
            ;
            if m > 0x10_0000_0000_0000 || k > 11 {
                assert(m * pow2(k) > 0x10_0000_0000_0000 * 0x800) by (nonlinear_arith)
                    requires
                        m >= 0x10_0000_0000_0000,
                        pow2(k) >= 0x800,
                        m > 0x10_0000_0000_0000 || pow2(k) > 0x800,
                ;
            }
        }
        if negative && e == 1086 && f == 0 {
            Some(i64::MIN)
        } else {
            None
        }
    } else if e >= 1075 {
        let shift: u64 = e - 1075;
        proof {
            vstd::arithmetic::power2::lemma2_to64();
            if shift < 10 {
                vstd::arithmetic::power2::lemma_pow2_strictly_increases(shift as nat, 10);
            }
            assert(m * pow2(shift as nat) < 0x20_0000_0000_0000 * 0x400) by (nonlinear_arith)
                requires
                    m < 0x20_0000_0000_0000,
                    0 < pow2(shift as nat) <= 0x400,
            ;
            vstd::bits::lemma_u64_shl_is_mul(m, shift);
        }
        let magnitude: u64 = m << shift;
        if negative {
            Some(-(magnitude as i64))
        } else {
            Some(magnitude as i64)
        }
    } else {
        let shift: u64 = 1075 - e;
        let ghost unit = pow2(shift as nat);
        proof {
            vstd::bits::lemma_u64_shr_is_div(m, shift);
            vstd::arithmetic::power2::lemma_pow2_pos(shift as nat);
            vstd::arithmetic::div_mod::lemma_fundamental_div_mod(m as int, unit as int);
            assert(0 <= (m as int / unit as int) * unit <= m) by (nonlinear_arith)
                requires
                    unit > 0,
                    m == unit * (m as int / unit as int) + (m as int % unit as int),
                    0 <= m as int % unit as int,
                    0 <= m,
            ;
            assert(m as int / unit as int <= m) by (nonlinear_arith)
                requires
                    unit > 0,
                    0 <= m,
            ;
        }
        let magnitude: u64 = m >> shift;
        proof {
            vstd::bits::lemma_u64_shl_is_mul(magnitude, shift);
        }
        let whole: u64 = magnitude << shift;
        assert(m - whole == m as int % unit as int) by (nonlinear_arith)
            requires
                whole == magnitude * unit,
                magnitude == m as int / unit as int,
                m == unit * (m as int / unit as int) + (m as int % unit as int),
        ;
        if !negative {
            Some(magnitude as i64)
        } else if m != whole {
            Some(-(magnitude as i64) - 1)
        } else {
            Some(-(magnitude as i64))
        }
    }
}

} // verus!
