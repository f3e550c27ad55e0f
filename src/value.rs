//! Metric values are IEEE-754 binary64 bit patterns; this module turns one
//! into a 64-bit integer the way Rust's `as i64` does.
use vstd::arithmetic::power2::{lemma2_to64, pow2};
use vstd::bits::{lemma_u64_shl_is_mul, lemma_u64_shr_is_div};
use vstd::prelude::*;

verus! {

pub open spec fn sign_bit(bits: u64) -> bool {
    (bits >> 63u64) == 1
}

pub open spec fn exponent_field(bits: u64) -> u64 {
    (bits >> 52u64) & 0x7ff
}

pub open spec fn fraction_field(bits: u64) -> u64 {
    bits & 0xf_ffff_ffff_ffff
}

/// The integer part of a finite number with biased exponent `exp >= 1023`
/// and significand `m` (hidden bit included): `m * 2^(exp - 1075)`, rounded
/// toward zero.
pub open spec fn whole_part(exp: int, m: int) -> int {
    if exp >= 1075 {
        m * pow2((exp - 1075) as nat)
    } else {
        m / (pow2((1075 - exp) as nat) as int)
    }
}

pub open spec fn clamp_i64(x: int) -> i64 {
    if x < i64::MIN {
        i64::MIN
    } else if x > i64::MAX {
        i64::MAX
    } else {
        x as i64
    }
}

/// `f64::from_bits(bits) as i64`: truncation toward zero, saturating at the
/// ends of the range, with NaN giving zero.
pub open spec fn truncated(bits: u64) -> i64 {
    let exp = exponent_field(bits);
    let frac = fraction_field(bits);
    if exp == 0x7ff {
        if frac != 0 {
            0
        } else if sign_bit(bits) {
            i64::MIN
        } else {
            i64::MAX
        }
    } else if exp < 1023 {
        0
    } else {
        let w = whole_part(exp as int, frac + 0x10_0000_0000_0000);
        clamp_i64(if sign_bit(bits) { -w } else { w })
    }
}

/// Converts a value to a 64-bit integer as `f64 as i64` would.
pub fn truncate_to_i64(bits: u64) -> (r: i64)
    ensures
        r == truncated(bits),
{
    let exp: u64 = (bits >> 52u64) & 0x7ff;
    let frac: u64 = bits & 0xf_ffff_ffff_ffff;
    let neg = (bits >> 63u64) == 1;
    if exp == 0x7ff {
        if frac != 0 {
            0
        } else if neg {
            i64::MIN
        } else {
            i64::MAX
        }
    } else if exp < 1023 {
        0
    } else {
        let m: u64 = frac | 0x10_0000_0000_0000;
        assert(m == frac + 0x10_0000_0000_0000) by (bit_vector)
            requires
                frac == bits & 0xf_ffff_ffff_ffff,
                m == frac | 0x10_0000_0000_0000,
        ;
        assert(frac < 0x10_0000_0000_0000) by (bit_vector)
            requires
                frac == bits & 0xf_ffff_ffff_ffff,
        ;
        assert(m < 0x20_0000_0000_0000);
        proof {
            lemma2_to64();
        }
        if exp >= 1086 {
            proof {
                let e = (exp - 1075) as nat;
                vstd::arithmetic::power2::lemma_pow2_adds(11, (e - 11) as nat);
                vstd::arithmetic::power2::lemma_pow2_pos((e - 11) as nat);
                let p = pow2((e - 11) as nat);
                assert(m * (2048 * p) >= 0x10_0000_0000_0000 * 2048) by (nonlinear_arith)
                    requires
                        m >= 0x10_0000_0000_0000,
                        p >= 1,
                ;
            }
            if neg {
                i64::MIN
            } else {
                i64::MAX
            }
        } else {
            let mag: u64 = if exp >= 1075 {
                let s: u64 = exp - 1075;
                proof {
                    assert(pow2(s as nat) <= 1024) by {
                        if s < 10 {
                            vstd::arithmetic::power2::lemma_pow2_strictly_increases(s as nat, 10);
                        }
                    }
                    assert(m * pow2(s as nat) < 0x20_0000_0000_0000 * 1024) by (nonlinear_arith)
                        requires
                            m < 0x20_0000_0000_0000,
                            pow2(s as nat) <= 1024,
                            pow2(s as nat) > 0,
                    ;
                    lemma_u64_shl_is_mul(m, s);
                }
                m << s
            } else {
                let s: u64 = 1075 - exp;
                proof {
                    lemma_u64_shr_is_div(m, s);
                    vstd::arithmetic::power2::lemma_pow2_pos(s as nat);
                    vstd::arithmetic::div_mod::lemma_div_is_ordered_by_denominator(m as int, 1, pow2(s as nat) as int);
                }
                m >> s
            };
            assert(mag < 0x8000_0000_0000_0000);
            if neg {
                -(mag as i64)
            } else {
                mag as i64
            }
        }
    }
}

} // verus!
