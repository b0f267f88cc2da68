//! IEEE-754 numbers as bit patterns, and their conversion to unsigned
//! integers: towards zero, saturating, with NaN giving zero.
use vstd::arithmetic::power2::{lemma2_to64, lemma2_to64_rest, lemma_pow2_strictly_increases, pow2};
use vstd::bits::{lemma_u32_shl_is_mul, lemma_u32_shr_is_div, lemma_u64_shl_is_mul, lemma_u64_shr_is_div};
use vstd::prelude::*;

verus! {

/// The integer part of `significand * 2^exponent`, limited to `max`; zero for
/// a negative number and for NaN.
pub open spec fn float_to_uint(
    negative: bool,
    nan: bool,
    significand: nat,
    exponent: int,
    max: nat,
) -> nat {
    if nan || negative {
        0
    } else if exponent >= 0 {
        let v = significand * pow2(exponent as nat);
        if v > max {
            max
        } else {
            v
        }
    } else {
        significand / pow2((-exponent) as nat)
    }
}

/// The exponent field of a single.
pub open spec fn single_exponent(bits: u32) -> int {
    (bits as int / 0x80_0000) % 0x100
}

/// The fraction field of a single.
pub open spec fn single_fraction(bits: u32) -> int {
    bits as int % 0x80_0000
}

/// The unsigned 32-bit integer that the single with the bit pattern `bits`
/// converts to.
pub open spec fn single_to_u32(bits: u32) -> u32 {
    let e = single_exponent(bits);
    let f = single_fraction(bits);
    float_to_uint(
        bits >= 0x8000_0000,
        e == 0xff && f != 0,
        (if e == 0 {
            f
        } else {
            0x80_0000 + f
        }) as nat,
        (if e == 0 {
            1
        } else {
            e
        }) - 150,
        u32::MAX as nat,
    ) as u32
}

/// The exponent field of a double.
pub open spec fn double_exponent(bits: u64) -> int {
    (bits as int / 0x10_0000_0000_0000) % 0x800
}

/// The fraction field of a double.
pub open spec fn double_fraction(bits: u64) -> int {
    bits as int % 0x10_0000_0000_0000
}

/// The unsigned 64-bit integer that the double with the bit pattern `bits`
/// converts to.
pub open spec fn double_to_u64(bits: u64) -> u64 {
    let e = double_exponent(bits);
    let f = double_fraction(bits);
    float_to_uint(
        bits >= 0x8000_0000_0000_0000,
        e == 0x7ff && f != 0,
        (if e == 0 {
            f
        } else {
            0x10_0000_0000_0000 + f
        }) as nat,
        (if e == 0 {
            1
        } else {
            e
        }) - 1075,
        u64::MAX as nat,
    ) as u64
}

/// Converts the single with the bit pattern `bits` to an integer.
pub fn single_bits_to_u32(bits: u32) -> (v: u32)
    ensures
        v == single_to_u32(bits),
{
    let e: u32 = (bits / 0x80_0000) % 0x100;
    let f: u32 = bits % 0x80_0000;
    proof {
        lemma2_to64();
    }
    if bits >= 0x8000_0000 || (e == 0xff && f != 0) {
        0
    } else if e < 127 {
        proof {
            let k = if e == 0 {
                149nat
            } else {
                (150 - e) as nat
            };
            lemma_pow2_strictly_increases(23, k);
            if e != 0 {
                lemma_pow2_strictly_increases(23, 24);
                if k > 24 {
                    lemma_pow2_strictly_increases(24, k);
                }
                vstd::arithmetic::div_mod::lemma_basic_div((0x80_0000 + f) as int, pow2(k) as int);
            } else {
                vstd::arithmetic::div_mod::lemma_basic_div(f as int, pow2(k) as int);
            }
        }
        0
    } else if e >= 159 {
        proof {
            let k = (e - 150) as nat;
            if k > 9 {
                lemma_pow2_strictly_increases(9, k);
            }
            assert((0x80_0000 + f) * pow2(k) > u32::MAX) by (nonlinear_arith)
                requires
                    pow2(k) >= 512,
                    f >= 0,
            ;
        }
        u32::MAX
    } else if e >= 150 {
        let m: u32 = 0x80_0000 + f;
        let s: u32 = e - 150;
        proof {
            if s < 8 {
                lemma_pow2_strictly_increases(s as nat, 8);
            }
            assert(m * pow2(s as nat) <= u32::MAX) by (nonlinear_arith)
                requires
                    pow2(s as nat) <= 256,
                    m < 0x100_0000,
            ;
            lemma_u32_shl_is_mul(m, s);
        }
        m << s
    } else {
        let m: u32 = 0x80_0000 + f;
        let s: u32 = 150 - e;
        proof {
            lemma_u32_shr_is_div(m, s);
        }
        m >> s
    }
}

/// Converts the double with the bit pattern `bits` to an integer.
pub fn double_bits_to_u64(bits: u64) -> (v: u64)
    ensures
        v == double_to_u64(bits),
{
    let e: u64 = (bits / 0x10_0000_0000_0000) % 0x800;
    let f: u64 = bits % 0x10_0000_0000_0000;
    proof {
        lemma2_to64();
        lemma2_to64_rest();
    }
    if bits >= 0x8000_0000_0000_0000 || (e == 0x7ff && f != 0) {
        0
    } else if e < 1023 {
        proof {
            let k = if e == 0 {
                1074nat
            } else {
                (1075 - e) as nat
            };
            if k > 53 {
                lemma_pow2_strictly_increases(53, k);
            }
            if e != 0 {
                vstd::arithmetic::div_mod::lemma_basic_div(
                    (0x10_0000_0000_0000 + f) as int,
                    pow2(k) as int,
                );
            } else {
                vstd::arithmetic::div_mod::lemma_basic_div(f as int, pow2(k) as int);
            }
        }
        0
    } else if e >= 1087 {
        proof {
            let k = (e - 1075) as nat;
            if k > 12 {
                lemma_pow2_strictly_increases(12, k);
            }
            assert((0x10_0000_0000_0000 + f) * pow2(k) > u64::MAX) by (nonlinear_arith)
                requires
                    pow2(k) >= 4096,
                    f >= 0,
            ;
        }
        u64::MAX
    } else if e >= 1075 {
        let m: u64 = 0x10_0000_0000_0000 + f;
        let s: u64 = e - 1075;
        proof {
            if s < 11 {
                lemma_pow2_strictly_increases(s as nat, 11);
            }
            assert(m * pow2(s as nat) <= u64::MAX) by (nonlinear_arith)
                requires
                    pow2(s as nat) <= 2048,
                    m < 0x20_0000_0000_0000,
            ;
            lemma_u64_shl_is_mul(m, s);
        }
        m << s
    } else {
        let m: u64 = 0x10_0000_0000_0000 + f;
        let s: u64 = 1075 - e;
        proof {
            lemma_u64_shr_is_div(m, s);
        }
        m >> s
    }
}

} // verus!
