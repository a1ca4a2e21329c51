//! The IEEE-754 double-precision bit model.
//!
//! Every floating-point quantity in this crate is carried as its raw 64-bit
//! pattern.  This module gives that pattern an exact mathematical meaning:
//! a finite pattern denotes the integer `scaled(bits)`, which is the denoted
//! real value multiplied by 2^1074 (the scale that makes every finite double
//! an integer).  All classification, ordering and integer extraction below is
//! specified against that model and proved, bit for bit.
use vstd::prelude::*;

use vstd::arithmetic::div_mod::{
    lemma_fundamental_div_mod, lemma_fundamental_div_mod_converse, lemma_basic_div,
    lemma_div_is_ordered, lemma_div_multiples_vanish, lemma_small_mod,
};
use vstd::arithmetic::mul::{
    lemma_mul_inequality, lemma_mul_strictly_positive,
};
use vstd::arithmetic::power2::{
    lemma2_to64, lemma2_to64_rest, lemma_pow2_adds, lemma_pow2_pos,
    lemma_pow2_strictly_increases, pow2,
};
use vstd::bits::{
    lemma_u128_shr_is_div, lemma_u64_pow2_no_overflow, lemma_u64_shl_is_mul,
};

verus! {

/// Mask of the sign bit.
pub const SIGN_MASK: u64 = 0x8000_0000_0000_0000;

/// Mask of the 11 exponent bits.
pub const EXP_MASK: u64 = 0x7FF0_0000_0000_0000;

/// Mask of the 52 fraction bits.
pub const FRAC_MASK: u64 = 0x000F_FFFF_FFFF_FFFF;

/// The implicit leading significand bit of a normal number (2^52).
pub const IMPLICIT_BIT: u64 = 0x0010_0000_0000_0000;

/// Exponent field value reserved for infinities and NaNs.
pub const EXP_SPECIAL: u64 = 0x7FF;

/// Bit pattern of positive infinity.
pub const POS_INF_BITS: u64 = 0x7FF0_0000_0000_0000;

/// Bit pattern of negative infinity.
pub const NEG_INF_BITS: u64 = 0xFFF0_0000_0000_0000;

/// Bit pattern of 1.0.
pub const ONE_BITS: u64 = 0x3FF0_0000_0000_0000;

/// Bit pattern of +0.0.
pub const ZERO_BITS: u64 = 0;

/// The power of two by which `scaled` multiplies the denoted value.
pub const SCALE_EXP: u64 = 1074;

/// Whether the sign bit is set.
pub open spec fn sign_bit(bits: u64) -> bool {
    bits & SIGN_MASK != 0
}

/// The 11-bit exponent field.
pub open spec fn exp_field(bits: u64) -> u64 {
    (bits >> 52) & 0x7FF
}

/// The 52-bit fraction field.
pub open spec fn frac_field(bits: u64) -> u64 {
    bits & FRAC_MASK
}

/// Whether the pattern denotes a NaN.
pub open spec fn is_nan(bits: u64) -> bool {
    exp_field(bits) == EXP_SPECIAL && frac_field(bits) != 0
}

/// Whether the pattern denotes +infinity or -infinity.
pub open spec fn is_infinite(bits: u64) -> bool {
    exp_field(bits) == EXP_SPECIAL && frac_field(bits) == 0
}

/// Whether the pattern denotes a finite number.
pub open spec fn is_finite(bits: u64) -> bool {
    exp_field(bits) != EXP_SPECIAL
}

/// The full significand: the fraction with the implicit bit of normal numbers.
pub open spec fn mantissa(bits: u64) -> nat {
    if exp_field(bits) == 0 {
        frac_field(bits) as nat
    } else {
        (frac_field(bits) + IMPLICIT_BIT) as nat
    }
}

/// The power of two that multiplies the significand in `scaled`.
///
/// A finite pattern denotes `(-1)^sign * mantissa * 2^(E - 1075)` where `E`
/// is the exponent field clamped up to 1; scaled by 2^1074 that is
/// `(-1)^sign * mantissa * 2^(scale_index)`.
pub open spec fn scale_index(bits: u64) -> nat {
    if exp_field(bits) == 0 {
        0
    } else {
        (exp_field(bits) - 1) as nat
    }
}

/// The magnitude of a finite pattern, scaled by 2^1074.
pub open spec fn magnitude(bits: u64) -> nat {
    mantissa(bits) * pow2(scale_index(bits))
}

/// The value denoted by a finite pattern, multiplied by 2^1074.
///
/// This is an exact integer for every finite double; it orders and adds the
/// way the denoted real values do.
pub open spec fn scaled(bits: u64) -> int {
    if sign_bit(bits) {
        -(magnitude(bits) as int)
    } else {
        magnitude(bits) as int
    }
}

/// Whether a finite pattern denotes a value that is non-negative.
pub open spec fn is_nonneg(bits: u64) -> bool {
    is_finite(bits) && scaled(bits) >= 0
}

/// The key of the total order on patterns: integer comparison of keys agrees
/// with the order of the denoted values (with -0.0 just before +0.0, and the
/// infinities at the ends); NaN patterns sort above +infinity.
pub open spec fn key(bits: u64) -> u64 {
    if sign_bit(bits) {
        !bits
    } else {
        bits | SIGN_MASK
    }
}

/// Whether the pattern denotes a NaN.
pub fn nan_bits(bits: u64) -> (r: bool)
    ensures
        r == is_nan(bits),
{
    (bits >> 52) & 0x7FF == 0x7FF && bits & FRAC_MASK != 0
}

/// Whether the pattern denotes a finite number.
pub fn finite_bits(bits: u64) -> (r: bool)
    ensures
        r == is_finite(bits),
{
    (bits >> 52) & 0x7FF != 0x7FF
}

/// Whether the pattern is +infinity.
pub fn pos_inf_bits(bits: u64) -> (r: bool)
    ensures
        r == (bits == POS_INF_BITS),
{
    bits == POS_INF_BITS
}

/// Whether the pattern is -infinity.
pub fn neg_inf_bits(bits: u64) -> (r: bool)
    ensures
        r == (bits == NEG_INF_BITS),
{
    bits == NEG_INF_BITS
}

/// The total-order key of a pattern.
pub fn key_of(bits: u64) -> (r: u64)
    ensures
        r == key(bits),
{
    if bits & SIGN_MASK != 0 {
        !bits
    } else {
        bits | SIGN_MASK
    }
}

/// Whether `a` sorts at or below `b` in the total order on patterns.
pub fn le_bits(a: u64, b: u64) -> (r: bool)
    ensures
        r == (key(a) <= key(b)),
{
    key_of(a) <= key_of(b)
}

/// Whether `a` sorts strictly below `b` in the total order on patterns.
pub fn lt_bits(a: u64, b: u64) -> (r: bool)
    ensures
        r == (key(a) < key(b)),
{
    key_of(a) < key_of(b)
}

/// How `m * 2^(e-1)` divides by 2^1074: quotient and remainder come from
/// dividing `m` itself by 2^(1075-e).
proof fn lemma_scaled_split(m: int, e: int)
    requires
        m >= 0,
        1 <= e <= 1075,
    ensures
        (m * pow2((e - 1) as nat)) % (pow2(1074) as int) == (m % (pow2((1075 - e) as nat) as int))
            * pow2((e - 1) as nat),
        (m * pow2((e - 1) as nat)) / (pow2(1074) as int) == m / (pow2((1075 - e) as nat) as int),
{
    let a = pow2((e - 1) as nat) as int;
    let b = pow2((1075 - e) as nat) as int;
    lemma_pow2_pos((e - 1) as nat);
    lemma_pow2_pos((1075 - e) as nat);
    lemma_pow2_adds((e - 1) as nat, (1075 - e) as nat);
    assert(pow2(1074) as int == a * b);
    lemma_fundamental_div_mod(m, b);
    let q = m / b;
    let r = m % b;
    assert(m * a == q * (a * b) + (r * a)) by (nonlinear_arith)
        requires
            m == q * b + r,
    ;
    assert(0 <= r * a < a * b) by (nonlinear_arith)
        requires
            0 <= r < b,
            a > 0,
    ;
    lemma_fundamental_div_mod_converse(m * a, a * b, q, r * a);
}

/// When the whole scale fits in the exponent, `m * 2^(e-1)` is a multiple of
/// 2^1074 with quotient `m * 2^(e-1075)`.
proof fn lemma_scaled_big(m: int, e: int)
    requires
        m >= 0,
        e > 1075,
    ensures
        (m * pow2((e - 1) as nat)) % (pow2(1074) as int) == 0,
        (m * pow2((e - 1) as nat)) / (pow2(1074) as int) == m * pow2((e - 1075) as nat),
{
    let p = pow2(1074) as int;
    let c = pow2((e - 1075) as nat) as int;
    lemma_pow2_pos(1074);
    lemma_pow2_pos((e - 1075) as nat);
    lemma_pow2_adds((e - 1075) as nat, 1074);
    assert(pow2((e - 1) as nat) as int == c * p);
    assert(m * (c * p) == (m * c) * p + 0) by (nonlinear_arith);
    lemma_fundamental_div_mod_converse(m * (c * p), p, m * c, 0);
}

/// The fraction field is below the implicit bit, and the exponent field is
/// at most the special value.
proof fn lemma_field_bounds(bits: u64)
    ensures
        frac_field(bits) < 0x0010_0000_0000_0000,
        exp_field(bits) <= 0x7FF,
{
    assert(bits & 0x000F_FFFF_FFFF_FFFF < 0x0010_0000_0000_0000) by (bit_vector);
    assert((bits >> 52) & 0x7FF <= 0x7FF) by (bit_vector);
}

/// A pattern whose non-sign bits are clear has zero exponent and fraction
/// fields, and conversely.
proof fn lemma_zero_magnitude(bits: u64)
    ensures
        (bits & 0x7FFF_FFFF_FFFF_FFFF == 0) <==> ((bits >> 52) & 0x7FF == 0 && bits
            & 0x000F_FFFF_FFFF_FFFF == 0),
{
    assert((bits & 0x7FFF_FFFF_FFFF_FFFF == 0) <==> ((bits >> 52) & 0x7FF == 0 && bits
        & 0x000F_FFFF_FFFF_FFFF == 0)) by (bit_vector);
}

/// The magnitude of a finite pattern is zero exactly when both fields are.
proof fn lemma_magnitude_zero(bits: u64)
    ensures
        magnitude(bits) == 0 <==> (exp_field(bits) == 0 && frac_field(bits) == 0),
{
    lemma_field_bounds(bits);
    lemma_pow2_pos(scale_index(bits));
    if exp_field(bits) == 0 && frac_field(bits) == 0 {
        assert(mantissa(bits) == 0);
    } else {
        assert(mantissa(bits) > 0);
        lemma_mul_strictly_positive(mantissa(bits) as int, pow2(scale_index(bits)) as int);
    }
}

/// Whether the pattern denotes a value that is a non-negative integer below
/// 2^64, under the scaled model.
pub open spec fn exact_u64_cond(bits: u64) -> bool {
    &&& is_finite(bits)
    &&& scaled(bits) >= 0
    &&& scaled(bits) % (pow2(1074) as int) == 0
    &&& scaled(bits) / (pow2(1074) as int) < 0x1_0000_0000_0000_0000
}

/// The non-negative integer a pattern denotes, under the scaled model.
pub open spec fn exact_u64_of(bits: u64) -> int {
    scaled(bits) / (pow2(1074) as int)
}

/// Extracts the exact `u64` a finite pattern denotes, if it denotes one:
/// `Some(n)` exactly when the pattern is finite, non-negative, integral and
/// below 2^64, and then `n` is that integer.
#[verifier::rlimit(50)]
pub fn as_exact_u64(bits: u64) -> (r: Option<u64>)
    ensures
        match r {
            Option::Some(n) => exact_u64_cond(bits) && n == exact_u64_of(bits),
            Option::None => !exact_u64_cond(bits),
        },
{
    let e: u64 = (bits >> 52) & 0x7FF;
    let f: u64 = bits & FRAC_MASK;
    proof {
        lemma_field_bounds(bits);
        lemma_zero_magnitude(bits);
        lemma_magnitude_zero(bits);
        lemma_pow2_pos(1074);
        lemma2_to64();
        lemma2_to64_rest();
    }
    if bits & 0x7FFF_FFFF_FFFF_FFFF == 0 {
        // A zero of either sign denotes the integer 0.
        proof {
            assert(scaled(bits) == 0);
            lemma_small_mod(0, pow2(1074));
            lemma_basic_div(0, pow2(1074) as int);
        }
        return Some(0u64);
    }
    if bits & SIGN_MASK != 0 {
        // Negative and of nonzero magnitude: not a non-negative integer.
        proof {
            assert(magnitude(bits) > 0);
        }
        return None;
    }
    if e == 0x7FF {
        // Infinity or NaN.
        return None;
    }
    if e == 0 {
        // Subnormal and nonzero: strictly between 0 and 1.
        proof {
            assert(mantissa(bits) == f as nat);
            assert(scale_index(bits) == 0);
            assert(pow2(0) == 1);
            assert(magnitude(bits) == f as nat * 1);
            assert(scaled(bits) == f as int);
            lemma_pow2_strictly_increases(52, 1074);
            lemma_small_mod(f as nat, pow2(1074));
        }
        return None;
    }
    let m: u64 = f + IMPLICIT_BIT;
    proof {
        assert(mantissa(bits) == m);
        assert(scale_index(bits) == (e - 1) as nat);
        assert(scaled(bits) == m * pow2((e - 1) as nat));
    }
    if e < 1023 {
        // Magnitude below 1 but not zero: not an integer.
        proof {
            lemma_scaled_split(m as int, e as int);
            assert(pow2(53) <= pow2((1075 - e) as nat)) by {
                if e < 1022 {
                    lemma_pow2_strictly_increases(53, (1075 - e) as nat);
                }
            }
            lemma_small_mod(m as nat, pow2((1075 - e) as nat));
            lemma_mul_strictly_positive(m as int, pow2((e - 1) as nat) as int);
        }
        return None;
    }
    if e <= 1075 {
        let shift: u64 = 1075 - e;
        proof {
            lemma_u64_pow2_no_overflow(shift as nat);
            lemma_u64_shl_is_mul(1u64, shift);
        }
        let p: u64 = 1u64 << shift;
        proof {
            lemma_scaled_split(m as int, e as int);
            lemma_pow2_pos(shift as nat);
            lemma_pow2_pos((e - 1) as nat);
            lemma_mul_strictly_positive(m as int, pow2((e - 1) as nat) as int);
            if m % p != 0 {
                lemma_mul_strictly_positive(
                    (m % p) as int,
                    pow2((e - 1) as nat) as int,
                );
            }
        }
        if m % p == 0 {
            proof {
                assert(p == pow2(shift as nat));
                assert(scaled(bits) == m * pow2((e - 1) as nat));
                assert((m as int) % (pow2((1075 - e) as nat) as int) == 0);
                assert(((m as int) % (pow2((1075 - e) as nat) as int)) * pow2((e - 1) as nat)
                    == 0) by (nonlinear_arith)
                    requires
                        (m as int) % (pow2((1075 - e) as nat) as int) == 0,
                ;
                assert(scaled(bits) % (pow2(1074) as int) == 0);
                assert(exact_u64_of(bits) == m as int / p as int);
                assert(exact_u64_cond(bits));
            }
            Some(m / p)
        } else {
            None
        }
    } else if e <= 1086 {
        // The value is m * 2^(e-1075); it still fits in 64 bits.
        let k: u64 = e - 1075;
        proof {
            lemma_scaled_big(m as int, e as int);
            lemma_pow2_pos((e - 1) as nat);
            lemma_mul_strictly_positive(m as int, pow2((e - 1) as nat) as int);
            assert(m < 0x20_0000_0000_0000);
            lemma_pow2_adds(53, (e - 1075) as nat);
            lemma_mul_inequality(m as int + 1, pow2(53) as int, pow2(k as nat) as int);
            assert((m as int + 1) * pow2(k as nat) <= pow2(53) * pow2(k as nat)) by {
                lemma_pow2_pos(k as nat);
                lemma_mul_inequality(m as int + 1, pow2(53) as int, pow2(k as nat) as int);
            }
            assert(m * pow2(k as nat) + pow2(k as nat) == (m as int + 1) * pow2(k as nat))
                by (nonlinear_arith);
            lemma_pow2_pos(k as nat);
            assert(pow2((53 + k) as nat) <= pow2(64)) by {
                if 53 + k < 64 {
                    lemma_pow2_strictly_increases((53 + k) as nat, 64);
                }
            }
            lemma_u64_shl_is_mul(m, k);
            assert(scaled(bits) % (pow2(1074) as int) == 0);
            assert(exact_u64_of(bits) == m * pow2(k as nat));
            assert(m * pow2(k as nat) < pow2(64));
            assert(exact_u64_cond(bits));
        }
        Some(m << k)
    } else {
        // The value is at least 2^64.
        proof {
            lemma_scaled_big(m as int, e as int);
            assert(m >= 0x10_0000_0000_0000);
            lemma_pow2_adds(52, (e - 1075) as nat);
            lemma_mul_inequality(pow2(52) as int, m as int, pow2((e - 1075) as nat) as int);
            assert(pow2(52) * pow2((e - 1075) as nat) <= m * pow2((e - 1075) as nat)) by {
                lemma_pow2_pos((e - 1075) as nat);
                lemma_mul_inequality(pow2(52) as int, m as int, pow2((e - 1075) as nat) as int);
            }
            assert(pow2(64) <= pow2((52 + (e - 1075)) as nat)) by {
                if 64 < 52 + e - 1075 {
                    lemma_pow2_strictly_increases(64, (52 + e - 1075) as nat);
                }
            }
        }
        None
    }
}

/// The order key determines the pattern.
pub proof fn lemma_key_injective(a: u64, b: u64)
    requires
        key(a) == key(b),
    ensures
        a == b,
{
    assert(((if a & 0x8000_0000_0000_0000 != 0 {
        !a
    } else {
        a | 0x8000_0000_0000_0000
    }) == (if b & 0x8000_0000_0000_0000 != 0 {
        !b
    } else {
        b | 0x8000_0000_0000_0000
    })) ==> a == b) by (bit_vector);
}

/// A negative pattern of nonzero magnitude has a negative scaled value.
pub proof fn lemma_negative_scaled(bits: u64)
    requires
        bits & SIGN_MASK != 0,
        bits & 0x7FFF_FFFF_FFFF_FFFF != 0,
    ensures
        scaled(bits) < 0,
{
    lemma_zero_magnitude(bits);
    lemma_magnitude_zero(bits);
}

/// A pattern with the sign bit clear, or of zero magnitude, has a
/// non-negative scaled value.
pub proof fn lemma_nonneg_scaled(bits: u64)
    requires
        bits & SIGN_MASK == 0 || bits & 0x7FFF_FFFF_FFFF_FFFF == 0,
    ensures
        scaled(bits) >= 0,
{
    lemma_zero_magnitude(bits);
    lemma_magnitude_zero(bits);
}

/// Whether the pattern denotes a number in the closed interval from 0 to 1,
/// under the scaled model.
pub open spec fn valid_quantile(bits: u64) -> bool {
    &&& is_finite(bits)
    &&& 0 <= scaled(bits) <= pow2(1074) as int
}

/// Decides `valid_quantile` from the bits alone.
pub fn check_quantile(bits: u64) -> (r: bool)
    ensures
        r == valid_quantile(bits),
{
    proof {
        lemma_field_bounds(bits);
        lemma_zero_magnitude(bits);
        lemma_magnitude_zero(bits);
        lemma2_to64();
        lemma2_to64_rest();
    }
    if bits & 0x7FFF_FFFF_FFFF_FFFF == 0 {
        proof {
            lemma_pow2_pos(1074);
        }
        return true;
    }
    if bits & SIGN_MASK != 0 {
        proof {
            assert(magnitude(bits) > 0);
        }
        return false;
    }
    let e: u64 = (bits >> 52) & 0x7FF;
    let f: u64 = bits & FRAC_MASK;
    if e == 0x7FF {
        return false;
    }
    proof {
        assert((bits & 0x8000_0000_0000_0000 == 0 && (bits >> 52) & 0x7FF < 0x7FF) ==> (bits
            <= 0x3FF0_0000_0000_0000 <==> ((bits >> 52) & 0x7FF < 1023 || ((bits >> 52) & 0x7FF
            == 1023 && bits & 0x000F_FFFF_FFFF_FFFF == 0)))) by (bit_vector);
        let mnt = mantissa(bits) as int;
        let si = scale_index(bits);
        lemma_pow2_pos(si);
        assert(scaled(bits) == mnt * pow2(si));
        if e == 0 {
            // Subnormal: below 2^52, well below 1.
            assert(pow2(0) == 1);
            assert(exp_field(bits) == 0);
            assert(mantissa(bits) == f as nat);
            assert(scale_index(bits) == 0);
            assert(magnitude(bits) == f as nat * 1);
            assert(scaled(bits) == f as int);
            lemma_pow2_strictly_increases(52, 1074);
            assert(valid_quantile(bits));
            assert(bits <= 0x3FF0_0000_0000_0000);
        } else {
            assert(mnt * pow2(si) >= 0) by (nonlinear_arith)
                requires
                    mnt >= 0,
            ;
            if e < 1023 {
                assert(mnt * pow2(si) < pow2(53) * pow2(si)) by (nonlinear_arith)
                    requires
                        0 <= mnt < pow2(53),
                        pow2(si) > 0,
                ;
                lemma_pow2_adds(53, si);
                if 53 + si < 1074 {
                    lemma_pow2_strictly_increases((53 + si) as nat, 1074);
                }
                assert(valid_quantile(bits));
                assert(bits <= 0x3FF0_0000_0000_0000);
            } else if e == 1023 && f == 0 {
                lemma_pow2_adds(52, 1022);
                assert(mnt == pow2(52));
                assert(si == 1022);
                assert(mnt * pow2(si) == pow2(52) * pow2(1022));
                assert(valid_quantile(bits));
                assert(bits <= 0x3FF0_0000_0000_0000);
            } else if e == 1023 {
                // Fraction bits present: strictly above 1.
                assert(mnt * pow2(si) > pow2(52) * pow2(si)) by (nonlinear_arith)
                    requires
                        mnt > pow2(52),
                        pow2(si) > 0,
                ;
                lemma_pow2_adds(52, 1022);
                assert(!valid_quantile(bits));
                assert(bits > 0x3FF0_0000_0000_0000);
            } else {
                // Exponent above 1023: at least 2.
                assert(mnt * pow2(si) >= pow2(52) * pow2(si)) by (nonlinear_arith)
                    requires
                        mnt >= pow2(52),
                        pow2(si) > 0,
                ;
                lemma_pow2_adds(52, si);
                lemma_pow2_strictly_increases(1074, (52 + si) as nat);
                assert(!valid_quantile(bits));
                assert(bits > 0x3FF0_0000_0000_0000);
            }
        }
    }
    bits <= ONE_BITS
}

/// The nearest-rank numerator: the floor of `q * n`, under the scaled model.
pub open spec fn floor_rank(q: u64, n: int) -> int {
    (scaled(q) * n) / (pow2(1074) as int)
}

/// The nearest-rank index for quantile `q` over `n` sorted samples:
/// the floor of `q * n`, clamped to the last index.
pub fn quantile_index(q: u64, n: usize) -> (r: usize)
    requires
        valid_quantile(q),
        n >= 1,
    ensures
        r == if floor_rank(q, n as int) < n - 1 {
            floor_rank(q, n as int)
        } else {
            (n - 1) as int
        },
{
    proof {
        lemma_field_bounds(q);
        lemma_zero_magnitude(q);
        lemma_magnitude_zero(q);
        lemma_pow2_pos(1074);
        lemma2_to64();
        lemma2_to64_rest();
    }
    if q & 0x7FFF_FFFF_FFFF_FFFF == 0 {
        proof {
            assert(scaled(q) == 0);
            assert(scaled(q) * (n as int) == 0) by (nonlinear_arith)
                requires
                    scaled(q) == 0,
            ;
            lemma_basic_div(0, pow2(1074) as int);
        }
        return 0;
    }
    proof {
        assert(magnitude(q) > 0);
        assert(!sign_bit(q));
    }
    let e: u64 = (q >> 52) & 0x7FF;
    let f: u64 = q & FRAC_MASK;
    let m64: u64 = if e == 0 {
        f
    } else {
        f + IMPLICIT_BIT
    };
    let ee: u64 = if e == 0 {
        1
    } else {
        e
    };
    proof {
        assert(pow2(0) == 1);
        assert(mantissa(q) == m64 as nat);
        assert(scale_index(q) == (ee - 1) as nat);
        let pe = pow2((ee - 1) as nat) as int;
        lemma_pow2_pos((ee - 1) as nat);
        assert(scaled(q) == (m64 as int) * pe);
        // The quantile is at most 1, so the exponent stays at or below 1023.
        if ee > 1023 {
            assert((m64 as int) * pe >= pow2(52) * pe) by (nonlinear_arith)
                requires
                    m64 as int >= pow2(52),
                    pe > 0,
            ;
            lemma_pow2_adds(52, (ee - 1) as nat);
            lemma_pow2_strictly_increases(1074, (51 + ee) as nat);
            assert(false);
        }
        // No overflow of the 128-bit product.
        assert((m64 as int) * (n as int) < pow2(53) * pow2(64)) by (nonlinear_arith)
            requires
                0 <= (m64 as int) < pow2(53),
                0 <= (n as int) < pow2(64),
        ;
        lemma_pow2_adds(53, 64);
        lemma_pow2_adds(64, 64);
        lemma_pow2_strictly_increases(117, 128);
    }
    let shift: u64 = 1075 - ee;
    let prod: u128 = (m64 as u128) * (n as u128);
    proof {
        let pe = pow2((ee - 1) as nat) as int;
        let mn = (m64 as int) * (n as int);
        // The scaled numerator splits as for the integer extraction.
        assert(scaled(q) * (n as int) == mn * pe) by (nonlinear_arith)
            requires
                scaled(q) == (m64 as int) * pe,
                mn == (m64 as int) * (n as int),
        ;
        lemma_scaled_split(mn, ee as int);
        assert(floor_rank(q, n as int) == mn / (pow2(shift as nat) as int));
        // The rank is at most n.
        assert(scaled(q) * (n as int) <= pow2(1074) as int * (n as int)) by (nonlinear_arith)
            requires
                0 <= scaled(q) <= pow2(1074) as int,
                n as int >= 0,
        ;
        lemma_div_is_ordered(
            scaled(q) * (n as int),
            pow2(1074) as int * (n as int),
            pow2(1074) as int,
        );
        lemma_div_multiples_vanish(n as int, pow2(1074) as int);
    }
    let t128: u128 = if shift >= 128 {
        proof {
            lemma_pow2_strictly_increases(117, shift as nat);
            lemma_basic_div((m64 as int) * (n as int), pow2(shift as nat) as int);
        }
        0
    } else {
        proof {
            lemma_u128_shr_is_div(prod, shift as u128);
        }
        prod >> (shift as u128)
    };
    if t128 >= n as u128 {
        n - 1
    } else {
        t128 as usize
    }
}


/// For sign-clear finite patterns, plain integer order on the bits is
/// magnitude order: the exponent/fraction fields compare lexicographically,
/// and the scaled magnitude follows them.
proof fn lemma_magnitude_monotone(a: u64, b: u64)
    requires
        is_finite(a),
        is_finite(b),
        a & SIGN_MASK == 0,
        b & SIGN_MASK == 0,
        a <= b,
    ensures
        magnitude(a) <= magnitude(b),
{
    lemma_field_bounds(a);
    lemma_field_bounds(b);
    lemma2_to64();
    lemma2_to64_rest();
    assert((a & 0x8000_0000_0000_0000 == 0 && b & 0x8000_0000_0000_0000 == 0 && a <= b) ==> (((a
        >> 52) & 0x7FF) < ((b >> 52) & 0x7FF) || (((a >> 52) & 0x7FF) == ((b >> 52) & 0x7FF) && (a
        & 0x000F_FFFF_FFFF_FFFF) <= (b & 0x000F_FFFF_FFFF_FFFF)))) by (bit_vector);
    let ea = exp_field(a);
    let eb = exp_field(b);
    let ma = mantissa(a) as int;
    let mb = mantissa(b) as int;
    let sa = scale_index(a);
    let sb = scale_index(b);
    lemma_pow2_pos(sa);
    lemma_pow2_pos(sb);
    if ea == eb {
        assert(ma <= mb);
        lemma_mul_inequality(ma, mb, pow2(sa) as int);
    } else {
        assert(ea < eb);
        if ea == 0 {
            // Subnormal against normal: below 2^52 against at least 2^52.
            assert(magnitude(a) < pow2(52)) by {
                assert(ma < pow2(52));
                assert(pow2(0) == 1);
            }
            assert(pow2(52) <= magnitude(b)) by {
                assert(mb >= pow2(52));
                assert((mb) * (pow2(sb) as int) >= (pow2(52) as int) * 1) by (nonlinear_arith)
                    requires
                        mb >= pow2(52),
                        pow2(sb) >= 1,
                ;
            }
        } else {
            // Both normal, with a strictly smaller exponent on the left.
            assert(magnitude(a) < pow2((52 + ea) as nat)) by {
                assert(ma < pow2(53));
                assert((ma) * (pow2(sa) as int) < (pow2(53) as int) * (pow2(sa) as int))
                    by (nonlinear_arith)
                    requires
                        0 <= ma < pow2(53),
                        pow2(sa) >= 1,
                ;
                lemma_pow2_adds(53, sa);
            }
            assert(pow2((52 + ea) as nat) <= magnitude(b)) by {
                assert(mb >= pow2(52));
                assert((mb) * (pow2(sb) as int) >= (pow2(52) as int) * (pow2(sb) as int))
                    by (nonlinear_arith)
                    requires
                        mb >= pow2(52),
                        pow2(sb) >= 1,
                ;
                lemma_pow2_adds(52, sb);
                if 52 + ea < 52 + sb {
                    lemma_pow2_strictly_increases((52 + ea) as nat, (52 + sb) as nat);
                }
            }
        }
    }
}

/// The total order on patterns agrees with the scaled numeric model on
/// finite patterns: whatever sorts at or below also denotes at most as much.
/// (The one slack is the two zeros: -0.0 sorts just before +0.0 while both
/// denote 0.)
pub proof fn lemma_key_orders_scaled(a: u64, b: u64)
    requires
        is_finite(a),
        is_finite(b),
        key(a) <= key(b),
    ensures
        scaled(a) <= scaled(b),
{
    lemma_field_bounds(a);
    lemma_field_bounds(b);
    if a & SIGN_MASK != 0 && b & SIGN_MASK == 0 {
        // Negative against non-negative.
    } else if a & SIGN_MASK == 0 && b & SIGN_MASK != 0 {
        assert((a & 0x8000_0000_0000_0000 == 0 && b & 0x8000_0000_0000_0000 != 0) ==> !((if a
            & 0x8000_0000_0000_0000 != 0 {
            !a
        } else {
            a | 0x8000_0000_0000_0000
        }) <= (if b & 0x8000_0000_0000_0000 != 0 {
            !b
        } else {
            b | 0x8000_0000_0000_0000
        }))) by (bit_vector);
    } else if a & SIGN_MASK == 0 && b & SIGN_MASK == 0 {
        assert((a & 0x8000_0000_0000_0000 == 0 && b & 0x8000_0000_0000_0000 == 0 && (a
            | 0x8000_0000_0000_0000) <= (b | 0x8000_0000_0000_0000)) ==> a <= b) by (bit_vector);
        lemma_magnitude_monotone(a, b);
    } else {
        // Both negative: complementing reverses the order, and the sign bit
        // does not enter the magnitude.
        let a2 = a & 0x7FFF_FFFF_FFFF_FFFF;
        let b2 = b & 0x7FFF_FFFF_FFFF_FFFF;
        assert((a & 0x8000_0000_0000_0000 != 0 && b & 0x8000_0000_0000_0000 != 0 && !a <= !b)
            ==> (b & 0x7FFF_FFFF_FFFF_FFFF) <= (a & 0x7FFF_FFFF_FFFF_FFFF)) by (bit_vector);
        assert(((a & 0x7FFF_FFFF_FFFF_FFFF) >> 52) & 0x7FF == (a >> 52) & 0x7FF) by (bit_vector);
        assert(((b & 0x7FFF_FFFF_FFFF_FFFF) >> 52) & 0x7FF == (b >> 52) & 0x7FF) by (bit_vector);
        assert((a & 0x7FFF_FFFF_FFFF_FFFF) & 0x000F_FFFF_FFFF_FFFF == a & 0x000F_FFFF_FFFF_FFFF)
            by (bit_vector);
        assert((b & 0x7FFF_FFFF_FFFF_FFFF) & 0x000F_FFFF_FFFF_FFFF == b & 0x000F_FFFF_FFFF_FFFF)
            by (bit_vector);
        assert((a & 0x7FFF_FFFF_FFFF_FFFF) & 0x8000_0000_0000_0000 == 0) by (bit_vector);
        assert((b & 0x7FFF_FFFF_FFFF_FFFF) & 0x8000_0000_0000_0000 == 0) by (bit_vector);
        assert(magnitude(a2) == magnitude(a));
        assert(magnitude(b2) == magnitude(b));
        lemma_magnitude_monotone(b2, a2);
    }
}

} // verus!
