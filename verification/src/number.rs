//! Double-precision numbers, modelled by their IEEE-754 bit patterns.
//!
//! The engine's `Value::Number` carries the 64 bits of the double it stands
//! for. Classification (NaN, infinity, signed zero), ordering and equality,
//! and conversion to the wrapping integer forms are all pure functions of
//! those bits and are implemented here over integers. Only the two
//! conversions whose exact result no short statement can give - reading a
//! decimal string and printing a decimal string - go through the standard
//! library, behind named trusted items.
use vstd::prelude::*;
use vstd::arithmetic::power2::{
    pow2, lemma_pow2_adds, lemma_pow2_pos, lemma_pow2_strictly_increases,
};
use vstd::arithmetic::div_mod::{
    lemma_fundamental_div_mod, lemma_fundamental_div_mod_converse_mod,
};
use vstd::bits::{lemma_u64_pow2_no_overflow, lemma_u64_shl_is_mul};

verus! {

/// Mask of the biased-exponent field of a double.
pub const EXP_MASK: u64 = 0x7FF0_0000_0000_0000;

/// Mask of the mantissa field of a double.
pub const MANTISSA_MASK: u64 = 0x000F_FFFF_FFFF_FFFF;

/// Mask of the sign bit of a double.
pub const SIGN_MASK: u64 = 0x8000_0000_0000_0000;

/// The canonical quiet NaN.
pub const NAN_BITS: u64 = 0x7FF8_0000_0000_0000;

/// Positive infinity.
pub const INFINITY_BITS: u64 = 0x7FF0_0000_0000_0000;

/// Negative infinity.
pub const NEG_INFINITY_BITS: u64 = 0xFFF0_0000_0000_0000;

/// Positive zero.
pub const ZERO_BITS: u64 = 0x0000_0000_0000_0000;

/// Negative zero.
pub const NEG_ZERO_BITS: u64 = 0x8000_0000_0000_0000;

/// The bits of 1.0.
pub const ONE_BITS: u64 = 0x3FF0_0000_0000_0000;

pub open spec fn spec_is_nan(b: u64) -> bool {
    b & EXP_MASK == EXP_MASK && b & MANTISSA_MASK != 0
}

pub open spec fn spec_is_infinite(b: u64) -> bool {
    b & EXP_MASK == EXP_MASK && b & MANTISSA_MASK == 0
}

pub open spec fn spec_is_sign_negative(b: u64) -> bool {
    b & SIGN_MASK != 0
}

/// Either of the two zeros.
pub open spec fn spec_is_zero(b: u64) -> bool {
    b & (EXP_MASK | MANTISSA_MASK) == 0
}

pub fn is_nan_bits(b: u64) -> (r: bool)
    ensures
        r == spec_is_nan(b),
{
    b & EXP_MASK == EXP_MASK && b & MANTISSA_MASK != 0
}

pub fn is_infinite_bits(b: u64) -> (r: bool)
    ensures
        r == spec_is_infinite(b),
{
    b & EXP_MASK == EXP_MASK && b & MANTISSA_MASK == 0
}

pub fn is_sign_negative_bits(b: u64) -> (r: bool)
    ensures
        r == spec_is_sign_negative(b),
{
    b & SIGN_MASK != 0
}

pub fn is_zero_bits(b: u64) -> (r: bool)
    ensures
        r == spec_is_zero(b),
{
    b & (EXP_MASK | MANTISSA_MASK) == 0
}

/// The magnitude bits of a double: everything but the sign.
pub open spec fn spec_magnitude(b: u64) -> u64 {
    b & 0x7FFF_FFFF_FFFF_FFFF
}

/// A double's place on the number line, as an integer key: magnitude bits,
/// negated for negative doubles. For every pair of non-NaN doubles the
/// order of the keys is the IEEE order, and the keys are equal exactly for
/// equal doubles (the two zeros share the key zero).
pub open spec fn spec_num_key(b: u64) -> int {
    if spec_is_sign_negative(b) {
        -(spec_magnitude(b) as int)
    } else {
        spec_magnitude(b) as int
    }
}

/// IEEE `==` of two doubles: false on any NaN, true for the two zeros.
pub open spec fn spec_ieee_eq(a: u64, b: u64) -> bool {
    !spec_is_nan(a) && !spec_is_nan(b) && spec_num_key(a) == spec_num_key(b)
}

/// IEEE `<` of two doubles: false on any NaN.
pub open spec fn spec_ieee_lt(a: u64, b: u64) -> bool {
    !spec_is_nan(a) && !spec_is_nan(b) && spec_num_key(a) < spec_num_key(b)
}

pub fn ieee_eq(a: u64, b: u64) -> (r: bool)
    ensures
        r == spec_ieee_eq(a, b),
{
    if is_nan_bits(a) || is_nan_bits(b) {
        return false;
    }
    let ma = a & 0x7FFF_FFFF_FFFF_FFFF;
    let mb = b & 0x7FFF_FFFF_FFFF_FFFF;
    let na = a & SIGN_MASK != 0;
    let nb = b & SIGN_MASK != 0;
    if na == nb {
        ma == mb
    } else {
        ma == 0 && mb == 0
    }
}

pub fn ieee_lt(a: u64, b: u64) -> (r: bool)
    ensures
        r == spec_ieee_lt(a, b),
{
    if is_nan_bits(a) || is_nan_bits(b) {
        return false;
    }
    let ma = a & 0x7FFF_FFFF_FFFF_FFFF;
    let mb = b & 0x7FFF_FFFF_FFFF_FFFF;
    let na = a & SIGN_MASK != 0;
    let nb = b & SIGN_MASK != 0;
    if !na && !nb {
        ma < mb
    } else if na && nb {
        mb < ma
    } else if na {
        // a <= 0 <= b: strictly less unless both are zeros.
        ma != 0 || mb != 0
    } else {
        false
    }
}

/// The biased exponent field.
pub open spec fn spec_exp_field(b: u64) -> u64 {
    (b >> 52) & 0x7FF
}

/// The mantissa with its implicit leading bit restored (absent for
/// subnormals).
pub open spec fn spec_full_mantissa(b: u64) -> int {
    if spec_exp_field(b) == 0 {
        (b & MANTISSA_MASK) as int
    } else {
        (b & MANTISSA_MASK) + 0x10_0000_0000_0000
    }
}

/// The integer part of a double's magnitude, truncated toward zero; zero
/// for NaN and the infinities (as the wrapping conversions treat them).
pub open spec fn spec_trunc_magnitude(b: u64) -> int {
    if spec_exp_field(b) == 0x7FF {
        0
    } else if spec_exp_field(b) >= 1075 {
        spec_full_mantissa(b) * pow2((spec_exp_field(b) - 1075) as nat)
    } else {
        spec_full_mantissa(b) / pow2((1075 - spec_exp_field(b)) as nat) as int
    }
}

/// The double truncated toward zero, as an unbounded integer.
pub open spec fn spec_trunc(b: u64) -> int {
    if spec_is_sign_negative(b) {
        -spec_trunc_magnitude(b)
    } else {
        spec_trunc_magnitude(b)
    }
}

/// 2^e as a machine word.
pub fn pow2_u64(e: u32) -> (r: u64)
    requires
        e < 64,
    ensures
        r == pow2(e as nat),
        r >= 1,
{
    proof {
        lemma_u64_pow2_no_overflow(e as nat);
        lemma_u64_shl_is_mul(1u64, e as u64);
        lemma_pow2_pos(e as nat);
    }
    1u64 << (e as u64)
}

/// Truncation toward zero, wrapped modulo 2^32, as the classical
/// to-unsigned-32-bit conversion asks. NaN and the infinities give zero.
pub fn f64_to_wrapping_u32(bits: u64) -> (r: u32)
    ensures
        r as int == spec_trunc(bits) % 0x1_0000_0000,
{
    proof {
        assert((bits >> 52) & 0x7FF < 0x800) by (bit_vector);
    }
    let e = ((bits >> 52) & 0x7FF) as u32;
    proof {
        assert(e as u64 == spec_exp_field(bits));
    }
    if e == 0x7FF {
        return 0;
    }
    let m = bits & MANTISSA_MASK;
    let full: u64 = if e == 0 {
        m
    } else {
        proof {
            assert(m < 0x10_0000_0000_0000) by (bit_vector)
                requires
                    m == bits & 0x000F_FFFF_FFFF_FFFF,
            ;
        }
        m + 0x10_0000_0000_0000
    };
    proof {
        assert(full < 0x20_0000_0000_0000) by (bit_vector)
            requires
                full == bits & 0x000F_FFFF_FFFF_FFFF || full == (bits
                    & 0x000F_FFFF_FFFF_FFFF) + 0x10_0000_0000_0000,
        ;
        assert(full as int == spec_full_mantissa(bits));
    }
    let t: u32;
    if e >= 1075 {
        let shift = e - 1075;
        if shift >= 32 {
            t = 0;
            proof {
                vstd::arithmetic::power2::lemma2_to64();
                lemma_pow2_adds(32, (shift - 32) as nat);
                assert(spec_trunc_magnitude(bits) == (full * pow2((shift - 32) as nat)) * pow2(
                    32,
                )) by (nonlinear_arith)
                    requires
                        spec_trunc_magnitude(bits) == full * pow2(shift as nat),
                        pow2(shift as nat) == pow2(32) * pow2((shift - 32) as nat),
                ;
                lemma_fundamental_div_mod_converse_mod(
                    spec_trunc_magnitude(bits),
                    0x1_0000_0000,
                    full as int * pow2((shift - 32) as nat) as int,
                    0,
                );
            }
        } else {
            let keep = 32 - shift;
            let pk = pow2_u64(keep);
            let low = full % pk;
            let ps = pow2_u64(shift);
            proof {
                vstd::arithmetic::power2::lemma2_to64();
                lemma_pow2_adds(keep as nat, shift as nat);
                lemma_pow2_pos(keep as nat);
                lemma_pow2_pos(shift as nat);
                assert(low * ps < 0x1_0000_0000) by (nonlinear_arith)
                    requires
                        low < pk,
                        pk as int * ps as int == pow2(32),
                        pow2(32) == 0x1_0000_0000,
                        ps >= 1,
                ;
                let q = full as int / pk as int;
                lemma_fundamental_div_mod(full as int, pk as int);
                assert(full as int * ps as int == q * 0x1_0000_0000 + low as int * ps as int)
                    by (nonlinear_arith)
                    requires
                        full as int == q * pk + low,
                        pk as int * ps as int == 0x1_0000_0000,
                ;
                lemma_fundamental_div_mod_converse_mod(
                    full as int * ps as int,
                    0x1_0000_0000,
                    q,
                    low as int * ps as int,
                );
            }
            t = (low * ps) as u32;
        }
    } else {
        let s = 1075 - e;
        if s >= 54 {
            t = 0;
            proof {
                lemma_pow2_strictly_increases(53, s as nat);
                vstd::arithmetic::power2::lemma2_to64();
                vstd::arithmetic::power2::lemma2_to64_rest();
                vstd::arithmetic::div_mod::lemma_basic_div(
                    spec_full_mantissa(bits),
                    pow2(s as nat) as int,
                );
                assert(spec_trunc_magnitude(bits) == 0);
            }
        } else {
            let ps = pow2_u64(s);
            let mag = full / ps;
            t = (mag % 0x1_0000_0000) as u32;
            proof {
                assert(mag as int == spec_trunc_magnitude(bits));
            }
        }
    }
    proof {
        assert(t as int == spec_trunc_magnitude(bits) % 0x1_0000_0000) by {
            if e < 1075 && 1075 - e < 54 {
            } else {
            }
        };
    }
    if bits & SIGN_MASK != 0 {
        proof {
            let mag = spec_trunc_magnitude(bits);
            lemma_fundamental_div_mod(mag, 0x1_0000_0000);
            if t != 0 {
                lemma_fundamental_div_mod_converse_mod(
                    -mag,
                    0x1_0000_0000,
                    -(mag / 0x1_0000_0000) - 1,
                    0x1_0000_0000 - t as int,
                );
            } else {
                lemma_fundamental_div_mod_converse_mod(
                    -mag,
                    0x1_0000_0000,
                    -(mag / 0x1_0000_0000),
                    0,
                );
            }
        }
        if t == 0 {
            0
        } else {
            (0xFFFF_FFFFu32 - t) + 1
        }
    } else {
        t
    }
}

/// Truncation toward zero, wrapped into the signed 32-bit range.
pub fn f64_to_wrapping_i32(bits: u64) -> (r: i32)
    ensures
        r as int == if spec_trunc(bits) % 0x1_0000_0000 < 0x8000_0000 {
            spec_trunc(bits) % 0x1_0000_0000
        } else {
            spec_trunc(bits) % 0x1_0000_0000 - 0x1_0000_0000
        },
{
    let t = f64_to_wrapping_u32(bits);
    if t <= 0x7FFF_FFFF {
        t as i32
    } else {
        ((t as i64) - 0x1_0000_0000) as i32
    }
}

/// Truncation toward zero, wrapped modulo 2^16.
pub fn f64_to_wrapping_u16(bits: u64) -> (r: u16)
    ensures
        r as int == spec_trunc(bits) % 0x1_0000,
{
    let t = f64_to_wrapping_u32(bits);
    proof {
        let x = spec_trunc(bits);
        lemma_fundamental_div_mod(x, 0x1_0000_0000);
        lemma_fundamental_div_mod(x % 0x1_0000_0000, 0x1_0000);
        lemma_fundamental_div_mod_converse_mod(
            x,
            0x1_0000,
            (x / 0x1_0000_0000) * 0x1_0000 + (x % 0x1_0000_0000) / 0x1_0000,
            (x % 0x1_0000_0000) % 0x1_0000,
        );
    }
    (t % 0x1_0000) as u16
}

/// Truncation toward zero, wrapped into the signed 16-bit range.
pub fn f64_to_wrapping_i16(bits: u64) -> (r: i16)
    ensures
        r as int == if spec_trunc(bits) % 0x1_0000 < 0x8000 {
            spec_trunc(bits) % 0x1_0000
        } else {
            spec_trunc(bits) % 0x1_0000 - 0x1_0000
        },
{
    let t = f64_to_wrapping_u16(bits);
    if t <= 0x7FFF {
        t as i16
    } else {
        ((t as i32) - 0x1_0000) as i16
    }
}

/// The floor of the base-two logarithm.
pub open spec fn spec_log2(n: nat) -> nat
    decreases n,
{
    if n <= 1 {
        0
    } else {
        1 + spec_log2(n / 2)
    }
}

proof fn lemma_log2_bounds(m: nat)
    requires
        m >= 1,
    ensures
        pow2(spec_log2(m)) <= m < pow2(spec_log2(m) + 1),
    decreases m,
{
    vstd::arithmetic::power2::lemma_pow2_unfold(spec_log2(m) + 1);
    if m <= 1 {
        vstd::arithmetic::power2::lemma2_to64();
    } else {
        lemma_log2_bounds(m / 2);
        vstd::arithmetic::power2::lemma_pow2_unfold(spec_log2(m));
    }
}

proof fn lemma_pow2_le(a: nat, b: nat)
    requires
        a <= b,
    ensures
        pow2(a) <= pow2(b),
{
    if a < b {
        lemma_pow2_strictly_increases(a, b);
    }
}

proof fn lemma_log2_unique(m: nat, k: nat)
    requires
        pow2(k) <= m < pow2(k + 1),
    ensures
        spec_log2(m) == k,
{
    lemma_pow2_pos(k);
    lemma_log2_bounds(m);
    if spec_log2(m) < k {
        lemma_pow2_le(spec_log2(m) + 1, k);
        assert(false);
    } else if spec_log2(m) > k {
        lemma_pow2_le(k + 1, spec_log2(m));
        assert(false);
    }
}

/// The bit pattern of the double holding the integer `n` exactly, for
/// `|n| < 2^53`.
pub open spec fn spec_double_of_int(n: int) -> u64 {
    if n == 0 {
        0
    } else {
        let mag = if n < 0 {
            (-n) as nat
        } else {
            n as nat
        };
        let k = spec_log2(mag);
        (((if n < 0 {
            0x8000_0000_0000_0000int
        } else {
            0int
        }) + (1023 + k) * 0x10_0000_0000_0000 + (mag * pow2((52 - k) as nat)
            - 0x10_0000_0000_0000)) as u64)
    }
}

/// The double that holds a signed 32-bit integer (such a double is exact).
pub fn from_i32_bits(n: i32) -> (r: u64)
    ensures
        r == spec_double_of_int(n as int),
{
    if n == 0 {
        return 0;
    }
    let neg = n < 0;
    let mag: u64 = if n >= 0 {
        n as u64
    } else {
        (-(n as i64)) as u64
    };
    let mut k: u32 = 31;
    proof {
        vstd::arithmetic::power2::lemma2_to64();
        assert(mag < pow2(32));
    }
    while k > 0 && pow2_u64(k) > mag
        invariant
            k < 64,
            1 <= mag,
            mag < pow2(k as nat + 1),
        decreases k,
    {
        proof {
            vstd::arithmetic::power2::lemma_pow2_unfold(k as nat);
        }
        k -= 1;
    }
    proof {
        vstd::arithmetic::power2::lemma2_to64();
        assert(pow2(k as nat) <= mag) by {
            if k > 0 {
            } else {
            }
        };
        lemma_log2_unique(mag as nat, k as nat);
        lemma_pow2_adds((52 - k) as nat, k as nat);
        lemma_pow2_adds((52 - k) as nat, k as nat + 1);
        vstd::arithmetic::power2::lemma2_to64_rest();
        assert(mag * pow2((52 - k) as nat) < pow2(53)) by (nonlinear_arith)
            requires
                mag < pow2(k as nat + 1),
                pow2((52 - k) as nat) * pow2(k as nat + 1) == pow2(53),
                pow2((52 - k) as nat) >= 1,
        ;
        assert(pow2(52) <= mag * pow2((52 - k) as nat)) by (nonlinear_arith)
            requires
                pow2(k as nat) <= mag,
                pow2((52 - k) as nat) * pow2(k as nat) == pow2(52),
                pow2((52 - k) as nat) >= 1,
        ;
    }
    let shifted = mag * pow2_u64(52 - k);
    let sign_part: u64 = if neg {
        0x8000_0000_0000_0000
    } else {
        0
    };
    sign_part + (1023 + k as u64) * 0x10_0000_0000_0000 + (shifted - 0x10_0000_0000_0000)
}

/// The decimal digit characters of a natural number, most significant
/// first.
pub open spec fn spec_digits(n: nat) -> Seq<char>
    decreases n,
{
    if n < 10 {
        seq![spec_digit_char(n as int)]
    } else {
        spec_digits(n / 10).push(spec_digit_char((n % 10) as int))
    }
}

/// The character of one decimal digit.
pub open spec fn spec_digit_char(d: int) -> char {
    if d == 0 {
        '0'
    } else if d == 1 {
        '1'
    } else if d == 2 {
        '2'
    } else if d == 3 {
        '3'
    } else if d == 4 {
        '4'
    } else if d == 5 {
        '5'
    } else if d == 6 {
        '6'
    } else if d == 7 {
        '7'
    } else if d == 8 {
        '8'
    } else {
        '9'
    }
}

fn digit_char(d: u32) -> (r: char)
    requires
        d < 10,
    ensures
        r == spec_digit_char(d as int),
{
    if d == 0 {
        '0'
    } else if d == 1 {
        '1'
    } else if d == 2 {
        '2'
    } else if d == 3 {
        '3'
    } else if d == 4 {
        '4'
    } else if d == 5 {
        '5'
    } else if d == 6 {
        '6'
    } else if d == 7 {
        '7'
    } else if d == 8 {
        '8'
    } else {
        '9'
    }
}

/// The decimal text of an unsigned 32-bit number.
pub fn u32_to_string(n: u32) -> (r: String)
    ensures
        r@ == spec_digits(n as nat),
{
    let mut digits: Vec<char> = Vec::new();
    let mut rest = n;
    proof {
        assert(spec_digits(n as nat) =~= spec_digits(rest as nat) + digits@);
    }
    while rest >= 10
        invariant
            spec_digits(n as nat) == spec_digits(rest as nat) + digits@,
        decreases rest,
    {
        let ghost pre = digits@;
        let d = digit_char(rest % 10);
        digits.insert(0, d);
        proof {
            assert(digits@ =~= seq![d] + pre);
            assert(spec_digits(rest as nat) == spec_digits((rest / 10) as nat).push(
                spec_digit_char((rest % 10) as int),
            ));
            assert(spec_digits((rest / 10) as nat) + digits@ =~= spec_digits(rest as nat) + pre);
        }
        rest = rest / 10;
    }
    let ghost pre = digits@;
    let d = digit_char(rest);
    digits.insert(0, d);
    proof {
        assert(digits@ =~= seq![d] + pre);
        assert(spec_digits(rest as nat) =~= seq![d]);
        assert(spec_digits(n as nat) =~= digits@);
    }
    crate::strings::string_from_chars(&digits)
}

/// Truncation toward zero, clamped into the unsigned 32-bit range: what
/// a cast of a double to a machine count gives. NaN and everything
/// negative give zero.
pub fn f64_to_saturating_u32(bits: u64) -> (r: u32)
    ensures
        r as int == if spec_trunc(bits) < 0 {
            0
        } else if spec_trunc(bits) > 0xFFFF_FFFF {
            0xFFFF_FFFF
        } else {
            spec_trunc(bits)
        },
{
    proof {
        assert((bits >> 52) & 0x7FF < 0x800) by (bit_vector);
    }
    let e = ((bits >> 52) & 0x7FF) as u32;
    if e == 0x7FF {
        return 0;
    }
    if bits & SIGN_MASK != 0 {
        proof {
            lemma_pow2_pos(if spec_exp_field(bits) >= 1075 {
                (spec_exp_field(bits) - 1075) as nat
            } else {
                (1075 - spec_exp_field(bits)) as nat
            });
            let full = spec_full_mantissa(bits);
            if spec_exp_field(bits) >= 1075 {
                assert(full * pow2((spec_exp_field(bits) - 1075) as nat) >= 0) by (nonlinear_arith)
                    requires
                        full >= 0,
                        pow2((spec_exp_field(bits) - 1075) as nat) >= 1,
                ;
            } else {
                vstd::arithmetic::div_mod::lemma_div_is_ordered(
                    0,
                    full,
                    pow2((1075 - spec_exp_field(bits)) as nat) as int,
                );
            }
        }
        return 0;
    }
    let m = bits & MANTISSA_MASK;
    let full: u64 = if e == 0 {
        m
    } else {
        proof {
            assert(m < 0x10_0000_0000_0000) by (bit_vector)
                requires
                    m == bits & 0x000F_FFFF_FFFF_FFFF,
            ;
        }
        m + 0x10_0000_0000_0000
    };
    proof {
        assert(full < 0x20_0000_0000_0000) by (bit_vector)
            requires
                full == bits & 0x000F_FFFF_FFFF_FFFF || full == (bits & 0x000F_FFFF_FFFF_FFFF)
                    + 0x10_0000_0000_0000,
        ;
        assert(full as int == spec_full_mantissa(bits));
    }
    if e >= 1075 {
        let shift = e - 1075;
        if shift >= 32 || full >= 0x1_0000_0000 {
            proof {
                vstd::arithmetic::power2::lemma2_to64();
                lemma_pow2_pos((shift) as nat);
                if shift >= 32 {
                    lemma_pow2_le(32, shift as nat);
                    assert(full * pow2(shift as nat) > 0xFFFF_FFFF || full == 0) by (
                    nonlinear_arith)
                        requires
                            pow2(shift as nat) >= 0x1_0000_0000,
                            full >= 0,
                    ;
                } else {
                    assert(full * pow2(shift as nat) >= full) by (nonlinear_arith)
                        requires
                            full >= 0,
                            pow2(shift as nat) >= 1,
                    ;
                }
            }
            if full == 0 {
                proof {
                    assert(spec_trunc_magnitude(bits) == 0) by (nonlinear_arith)
                        requires
                            spec_trunc_magnitude(bits) == spec_full_mantissa(bits) * pow2(
                                (spec_exp_field(bits) - 1075) as nat,
                            ),
                            spec_full_mantissa(bits) == 0,
                    ;
                }
                return 0;
            }
            return 0xFFFF_FFFF;
        }
        let ps = pow2_u64(shift);
        proof {
            vstd::arithmetic::power2::lemma2_to64();
            lemma_pow2_le(shift as nat, 31);
            assert((full as int) * (ps as int) < 0x8000_0000_0000_0000) by (nonlinear_arith)
                requires
                    full < 0x1_0000_0000,
                    ps <= 0x8000_0000,
            ;
        }
        let prod: u64 = full * ps;
        if prod > 0xFFFF_FFFF {
            0xFFFF_FFFF
        } else {
            prod as u32
        }
    } else {
        let s = 1075 - e;
        if s >= 54 {
            proof {
                lemma_pow2_strictly_increases(53, s as nat);
                vstd::arithmetic::power2::lemma2_to64();
                vstd::arithmetic::power2::lemma2_to64_rest();
                vstd::arithmetic::div_mod::lemma_basic_div(
                    spec_full_mantissa(bits),
                    pow2(s as nat) as int,
                );
            }
            return 0;
        }
        let ps = pow2_u64(s);
        let mag = full / ps;
        if mag > 0xFFFF_FFFF {
            0xFFFF_FFFF
        } else {
            mag as u32
        }
    }
}

/// What the standard library's decimal parse of a string returns, as bits:
/// `None` where the string is not a well-formed decimal number.
pub uninterp spec fn parsed_number(s: Seq<char>) -> Option<u64>;

/// Relies on `str::parse` for doubles: the result is a function of the
/// characters alone, and parse failure depends on the characters alone.
/// (`Duration::as_secs_f64` of a zero duration only pins the parse to the
/// double-precision type; its value is discarded.)
#[verifier::external_body]
pub(crate) fn parse_decimal_bits(s: &str) -> (r: Option<u64>)
    ensures
        r == parsed_number(s@),
{
    let mut x = std::time::Duration::from_secs(0).as_secs_f64();
    match s.parse() {
        Ok(v) => {
            x = v;
            Some(x.to_bits())
        },
        Err(_) => None,
    }
}

/// What the standard library's plain decimal display of the double with
/// these bits prints.
pub uninterp spec fn decimal_text(bits: u64) -> Seq<char>;

/// Relies on the standard library's `Display` for doubles: the printed text
/// is a function of the bits alone. The body first rebuilds the double from
/// its mantissa and exponent fields: `Duration::from_secs(n).as_secs_f64()`
/// converts a small integer exactly, and the two half-sized power-of-two
/// scalings are each exact - the halves stay within `powi`'s exact range
/// (magnitude under 1023, so its repeated squaring never leaves the finite
/// range), and each intermediate product is a representable value, the
/// mantissa times a power of two between 2^-538 and 2^539.
#[verifier::external_body]
fn decimal_display(bits: u64) -> (r: String)
    requires
        !spec_is_nan(bits),
        !spec_is_infinite(bits),
    ensures
        r@ == decimal_text(bits),
{
    let e = (bits >> 52) & 0x7FF;
    let m = (bits & MANTISSA_MASK) | (if e != 0 { 1u64 << 52 } else { 0 });
    let epow: i32 = if e != 0 { e as i32 - 1075 } else { -1074 };
    let half = epow / 2;
    let two = std::time::Duration::from_secs(2).as_secs_f64();
    let mut x = std::time::Duration::from_secs(m).as_secs_f64();
    x = x * two.powi(half);
    x = x * two.powi(epow - half);
    if bits >> 63 == 1 {
        x = -x;
    }
    format!("{}", x)
}

/// What the standard library's scientific-notation display of the double
/// with these bits prints.
pub uninterp spec fn scientific_text(bits: u64) -> Seq<char>;

/// Relies on the standard library's `LowerExp` for doubles: the printed
/// text is a function of the bits alone. The double is rebuilt from its
/// fields exactly as in `decimal_display`, with the same two exact
/// half-sized scalings.
#[verifier::external_body]
fn scientific_display(bits: u64) -> (r: String)
    requires
        !spec_is_nan(bits),
        !spec_is_infinite(bits),
    ensures
        r@ == scientific_text(bits),
{
    let e = (bits >> 52) & 0x7FF;
    let m = (bits & MANTISSA_MASK) | (if e != 0 { 1u64 << 52 } else { 0 });
    let epow: i32 = if e != 0 { e as i32 - 1075 } else { -1074 };
    let half = epow / 2;
    let two = std::time::Duration::from_secs(2).as_secs_f64();
    let mut x = std::time::Duration::from_secs(m).as_secs_f64();
    x = x * two.powi(half);
    x = x * two.powi(epow - half);
    if bits >> 63 == 1 {
        x = -x;
    }
    format!("{:e}", x)
}

/// The first index of `c` in `s`, or -1.
pub open spec fn spec_find_char(s: Seq<char>, c: char) -> int
    decreases s.len(),
{
    if s.len() == 0 {
        -1
    } else if s[0] == c {
        0
    } else {
        let r = spec_find_char(s.subrange(1, s.len() as int), c);
        if r < 0 {
            -1
        } else {
            1 + r
        }
    }
}

proof fn lemma_find_char_at(s: Seq<char>, c: char, i: int)
    requires
        0 <= i <= s.len(),
        forall|j: int| 0 <= j < i ==> s[j] != c,
        i < s.len() ==> s[i] == c,
    ensures
        spec_find_char(s, c) == if i == s.len() {
            -1int
        } else {
            i
        },
    decreases s.len(),
{
    if s.len() == 0 {
    } else if s[0] == c {
        assert(i == 0);
    } else {
        let tail = s.subrange(1, s.len() as int);
        assert(i >= 1);
        assert(forall|j: int| 0 <= j < i - 1 ==> tail[j] == s[j + 1] && s[j + 1] != c);
        assert(i - 1 < tail.len() ==> tail[i - 1] == c);
        lemma_find_char_at(tail, c, i - 1);
    }
}

/// The text with a `+` inserted after a bare `e` of its exponent part, as
/// the legacy engine prints scientific notation.
pub open spec fn spec_exp_fix(s: Seq<char>) -> Seq<char> {
    let i = spec_find_char(s, 'e');
    if i < 0 {
        s
    } else if i + 1 < s.len() && s[i + 1] == '-' {
        s
    } else {
        s.subrange(0, i + 1) + seq!['+'] + s.subrange(i + 1, s.len() as int)
    }
}

fn exp_fix(s: String) -> (r: String)
    ensures
        r@ == spec_exp_fix(s@),
{
    let v = crate::strings::chars_vec(s.as_str());
    let n = v.len();
    let mut i: usize = 0;
    while i < n && v[i] != 'e'
        invariant
            i <= n,
            n == s@.len(),
            v@ == s@,
            forall|j: int| 0 <= j < i ==> s@[j] != 'e',
        decreases n - i,
    {
        i += 1;
    }
    proof {
        lemma_find_char_at(s@, 'e', i as int);
    }
    if i == n {
        return s;
    }
    if i + 1 < n && v[i + 1] == '-' {
        return s;
    }
    let head = s.as_str().substring_char(0, i + 1);
    let tail = s.as_str().substring_char(i + 1, n);
    let r = String::from_str(head).concat("+").concat(tail);
    proof {
        reveal_strlit("+");
        assert(r@ =~= spec_exp_fix(s@));
    }
    r
}

/// The sign-and-digits decimal text of a signed 32-bit number.
pub open spec fn spec_i32_text(n: int) -> Seq<char> {
    if n < 0 {
        seq!['-'] + spec_digits((-n) as nat)
    } else {
        spec_digits(n as nat)
    }
}

/// The decimal text of a signed 32-bit number.
pub fn i32_to_string(n: i32) -> (r: String)
    ensures
        r@ == spec_i32_text(n as int),
{
    if n >= 0 {
        u32_to_string(n as u32)
    } else {
        let mag: u32 = (-(n as i64)) as u32;
        let digits = u32_to_string(mag);
        let r = String::from_str("-").concat(digits.as_str());
        proof {
            reveal_strlit("-");
            assert(r@ =~= spec_i32_text(n as int));
        }
        r
    }
}

/// The text the legacy engine prints for the double with these bits:
/// `NaN` and the infinities by name, `0` for both zeros, scientific
/// notation with an explicit `+` for very large and very small magnitudes,
/// and the standard library's shortest decimal form otherwise.
pub open spec fn spec_f64_text(bits: u64) -> Seq<char> {
    if spec_is_nan(bits) {
        "NaN"@
    } else if bits == INFINITY_BITS {
        "Infinity"@
    } else if bits == NEG_INFINITY_BITS {
        "-Infinity"@
    } else if spec_is_zero(bits) {
        "0"@
    } else if spec_magnitude(bits) >= 0x430C_6BF5_2634_0000 || spec_magnitude(bits)
        < 0x3EE4_F8B5_88E3_68F1 {
        spec_exp_fix(scientific_text(bits))
    } else {
        decimal_text(bits)
    }
}

/// Prints a double as the legacy engine does. The magnitude thresholds are
/// the bit patterns of 1e15 and 1e-5: comparison of non-negative doubles
/// is comparison of their bits.
pub fn f64_to_string(bits: u64) -> (r: String)
    ensures
        r@ == spec_f64_text(bits),
{
    if is_nan_bits(bits) {
        return String::from_str("NaN");
    }
    if bits == INFINITY_BITS {
        return String::from_str("Infinity");
    }
    if bits == NEG_INFINITY_BITS {
        return String::from_str("-Infinity");
    }
    if is_zero_bits(bits) {
        return String::from_str("0");
    }
    let mag = bits & 0x7FFF_FFFF_FFFF_FFFF;
    if mag >= 0x430C_6BF5_2634_0000 || mag < 0x3EE4_F8B5_88E3_68F1 {
        proof {
            assert(bits & 0x7FF0_0000_0000_0000 == 0x7FF0_0000_0000_0000 && bits
                & 0x000F_FFFF_FFFF_FFFF == 0 ==> bits == 0x7FF0_0000_0000_0000 || bits
                == 0xFFF0_0000_0000_0000) by (bit_vector);
        }
        exp_fix(scientific_display(bits))
    } else {
        proof {
            assert(bits & 0x7FF0_0000_0000_0000 != 0x7FF0_0000_0000_0000) by (bit_vector)
                requires
                    bits & 0x7FFF_FFFF_FFFF_FFFF < 0x430C_6BF5_2634_0000,
            ;
        }
        decimal_display(bits)
    }
}

} // verus!
