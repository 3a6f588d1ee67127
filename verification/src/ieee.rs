//! Reading IEEE 754 numbers by their bit patterns.
//!
//! Times, coordinates and AMF numbers reach the library as the bits of a
//! binary64 or binary32 number. The library compares them and recognises
//! whole numbers; it never does arithmetic on them. Their meaning is given
//! by the integers `double` and `single`: the number scaled by a power of
//! two that makes every finite number whole.

use vstd::arithmetic::power2;
use vstd::prelude::*;

verus! {

/// Bits of positive infinity in binary64.
pub const INFINITY: u64 = 0x7ff0_0000_0000_0000;

/// The sign bit of binary64.
pub const SIGN: u64 = 0x8000_0000_0000_0000;

/// The implicit leading bit of a normal binary64 significand.
pub const HIDDEN: u64 = 0x10_0000_0000_0000;

/// Bits of positive infinity in binary32.
pub const INFINITY_32: u32 = 0x7f80_0000;

/// The sign bit of binary32.
pub const SIGN_32: u32 = 0x8000_0000;

/// Absolute values below this bound are written as integers when whole.
pub const WHOLE_BOUND: u64 = 1_000_000_000_000_000;

/// The magnitude encoded by the bits without their sign, where the fraction
/// is `width` bits wide, counted in units of the least positive number.
/// Infinity counts as the number one past the greatest finite one.
pub open spec fn magnitude(bits: nat, width: nat) -> nat {
    let exponent = bits / power2::pow2(width);
    let fraction = bits % power2::pow2(width);
    if exponent == 0 {
        fraction
    } else {
        (power2::pow2(width) + fraction) * power2::pow2((exponent - 1) as nat)
    }
}

/// Whether the bits are those of a binary64 number that is not a NaN.
pub open spec fn is_number(bits: u64) -> bool {
    bits % SIGN <= INFINITY
}

/// Whether the bits are those of a finite binary64 number.
pub open spec fn finite(bits: u64) -> bool {
    bits % SIGN < INFINITY
}

/// The binary64 number with these bits, times 2 to the power of 1074.
pub open spec fn double(bits: u64) -> int {
    let size = magnitude((bits % SIGN) as nat, 52);
    if bits >= SIGN {
        -size
    } else {
        size as int
    }
}

/// The integer that the number is, where it is one and its absolute value
/// is below `WHOLE_BOUND`.
pub open spec fn whole_number(bits: u64) -> Option<int> {
    let unit = power2::pow2(1074) as int;
    if finite(bits) && double(bits) % unit == 0 && -(WHOLE_BOUND * unit) < double(bits)
        < WHOLE_BOUND * unit {
        Some(double(bits) / unit)
    } else {
        None
    }
}

/// The position of a binary32 number among all of them: `0` for both zeros,
/// one more for each next greater number.
pub open spec fn rank(bits: u32) -> int {
    if bits >= SIGN_32 {
        -(bits - SIGN_32)
    } else {
        bits as int
    }
}

/// The binary32 number with these bits, times 2 to the power of 149.
pub open spec fn single(bits: u32) -> int {
    let size = magnitude((bits % SIGN_32) as nat, 23);
    if bits >= SIGN_32 {
        -size
    } else {
        size as int
    }
}

/// More bits, greater magnitude.
proof fn lemma_magnitude_increases(a: nat, b: nat, width: nat)
    requires
        a < b,
    ensures
        magnitude(a, width) < magnitude(b, width),
{
    let p = power2::pow2(width);
    power2::lemma_pow2_pos(width);
    let (ea, fa) = (a / p, a % p);
    let (eb, fb) = (b / p, b % p);
    vstd::arithmetic::div_mod::lemma_fundamental_div_mod(a as int, p as int);
    vstd::arithmetic::div_mod::lemma_fundamental_div_mod(b as int, p as int);
    vstd::arithmetic::div_mod::lemma_mod_bound(a as int, p as int);
    vstd::arithmetic::div_mod::lemma_mod_bound(b as int, p as int);
    assert(ea <= eb) by (nonlinear_arith)
        requires
            a == p * ea + fa,
            b == p * eb + fb,
            0 <= fa < p,
            0 <= fb < p,
            a < b,
    ;
    if ea == eb {
        if ea > 0 {
            let q = power2::pow2((ea - 1) as nat);
            power2::lemma_pow2_pos((ea - 1) as nat);
            assert((p + fa) * q < (p + fb) * q) by (nonlinear_arith)
                requires
                    fa < fb,
                    q > 0,
            ;
        }
    } else {
        let qb = power2::pow2((eb - 1) as nat);
        power2::lemma_pow2_pos((eb - 1) as nat);
        assert(p * qb <= (p + fb) * qb) by (nonlinear_arith)
            requires
                fb >= 0,
                qb > 0,
        ;
        if ea == 0 {
            assert(p <= p * qb) by (nonlinear_arith)
                requires
                    qb >= 1,
            ;
        } else {
            let qa = power2::pow2((ea - 1) as nat);
            power2::lemma_pow2_pos((ea - 1) as nat);
            assert(power2::pow2(ea) == 2 * qa) by {
                power2::lemma_pow2_unfold(ea);
            }
            assert((p + fa) * qa < p * (2 * qa)) by (nonlinear_arith)
                requires
                    fa < p,
                    qa > 0,
            ;
            if ea < eb - 1 {
                power2::lemma_pow2_strictly_increases(ea, (eb - 1) as nat);
            }
            assert(p * power2::pow2(ea) <= p * qb) by (nonlinear_arith)
                requires
                    power2::pow2(ea) <= qb,
            ;
        }
    }
}

proof fn lemma_magnitude_zero(width: nat)
    ensures
        magnitude(0, width) == 0,
{
    power2::lemma_pow2_pos(width);
    vstd::arithmetic::div_mod::lemma_div_basics(power2::pow2(width) as int);
    vstd::arithmetic::div_mod::lemma_small_mod(0, power2::pow2(width));
}

proof fn lemma_magnitude_order(a: nat, b: nat, width: nat)
    ensures
        a < b <==> magnitude(a, width) < magnitude(b, width),
        a == b <==> magnitude(a, width) == magnitude(b, width),
{
    if a < b {
        lemma_magnitude_increases(a, b, width);
    } else if b < a {
        lemma_magnitude_increases(b, a, width);
    }
}

/// The bits of zero are those of the number zero.
pub proof fn lemma_zero()
    ensures
        double(0) == 0,
        is_number(0),
{
    lemma_magnitude_zero(52);
}

/// Ranks order the binary32 numbers as the numbers themselves are ordered.
pub proof fn law_rank_orders_numbers(a: u32, b: u32)
    ensures
        rank(a) < rank(b) <==> single(a) < single(b),
        rank(a) == rank(b) <==> single(a) == single(b),
{
    let (ma, mb) = ((a % SIGN_32) as nat, (b % SIGN_32) as nat);
    lemma_magnitude_order(ma, mb, 23);
    lemma_magnitude_order(0, ma, 23);
    lemma_magnitude_order(0, mb, 23);
    lemma_magnitude_zero(23);
}

/// Reading a rank back gives the number that it was taken from, negative
/// zero coming back as zero.
pub proof fn law_rank_is_reversible(bits: u32)
    ensures
        bits != SIGN_32 ==> rank_bits(rank(bits)) == bits,
        rank_bits(rank(SIGN_32)) == 0,
{
}

/// The bits of the binary32 number of the given rank.
pub open spec fn rank_bits(rank: int) -> int {
    if rank < 0 {
        SIGN_32 - rank
    } else {
        rank
    }
}

/// Whether the number is neither infinite nor a NaN.
pub fn is_finite(bits: u64) -> (yes: bool)
    ensures
        yes == finite(bits),
{
    bits % SIGN < INFINITY
}

/// Whether the first number is less than the second; never so where either
/// is a NaN.
pub fn less(a: u64, b: u64) -> (yes: bool)
    ensures
        yes == (is_number(a) && is_number(b) && double(a) < double(b)),
{
    let (ma, mb): (u64, u64) = (a % SIGN, b % SIGN);
    proof {
        lemma_magnitude_order(ma as nat, mb as nat, 52);
        lemma_magnitude_order(0, ma as nat, 52);
        lemma_magnitude_order(0, mb as nat, 52);
        lemma_magnitude_zero(52);
    }
    if ma > INFINITY || mb > INFINITY {
        return false;
    }
    if a >= SIGN {
        if b >= SIGN {
            mb < ma
        } else {
            ma > 0 || mb > 0
        }
    } else {
        b < SIGN && ma < mb
    }
}

proof fn lemma_remainder(n: int, unit: int, quotient: int, remainder: int)
    requires
        unit > 0,
        0 <= remainder < unit,
        n == quotient * unit + remainder,
    ensures
        n / unit == quotient,
        n % unit == remainder,
{
    vstd::arithmetic::div_mod::lemma_fundamental_div_mod_converse(n, unit, quotient, remainder);
}

/// Numbers strictly between 0 and 1, and those from 2 to the power of 52 on,
/// are not written as integers.
proof fn lemma_not_whole(bits: u64)
    requires
        bits % SIGN > 0,
        (bits % SIGN) / HIDDEN < 1023 || (bits % SIGN) / HIDDEN > 1074,
    ensures
        whole_number(bits) is None,
{
    power2::lemma2_to64_rest();
    let size = (bits % SIGN) as nat;
    let exponent = size / power2::pow2(52);
    let fraction = size % power2::pow2(52);
    let value = magnitude(size, 52) as int;
    let unit = power2::pow2(1074) as int;
    power2::lemma_pow2_pos(1074);
    lemma_magnitude_zero(52);
    lemma_magnitude_increases(0, size, 52);
    if exponent < 1023 {
        assert(value < unit) by {
            power2::lemma_pow2_strictly_increases(52, 1074);
            if exponent > 0 {
                let q = power2::pow2((exponent - 1) as nat);
                power2::lemma_pow2_pos((exponent - 1) as nat);
                assert((power2::pow2(52) + fraction) * q < power2::pow2(53) * q) by (nonlinear_arith)
                    requires
                        fraction < power2::pow2(52),
                        power2::pow2(53) == 2 * power2::pow2(52),
                        q > 0,
                ;
                power2::lemma_pow2_adds(53, (exponent - 1) as nat);
                if exponent + 52 < 1074 {
                    power2::lemma_pow2_strictly_increases(exponent + 52, 1074);
                }
            }
        }
        if bits >= SIGN {
            lemma_remainder(-value, unit, -1, unit - value);
        } else {
            lemma_remainder(value, unit, 0, value);
        }
    } else {
        let q = power2::pow2((exponent - 1) as nat);
        if 1074 < exponent - 1 {
            power2::lemma_pow2_strictly_increases(1074, (exponent - 1) as nat);
        }
        assert(value >= WHOLE_BOUND * unit) by (nonlinear_arith)
            requires
                value == (power2::pow2(52) + fraction) * q,
                q >= unit,
                unit > 0,
                fraction >= 0,
                power2::pow2(52) >= WHOLE_BOUND,
        ;
    }
}

/// A significand that ends at or before the binary point: what is left of
/// the point is the integer part.
proof fn lemma_integer_part(bits: u64, shift: nat, high: nat, low: nat)
    requires
        bits % SIGN > 0,
        1023 <= (bits % SIGN) / HIDDEN <= 1074,
        shift == 1075 - (bits % SIGN) / HIDDEN,
        HIDDEN + (bits % SIGN) % HIDDEN == high * power2::pow2(shift) + low,
        low < power2::pow2(shift),
    ensures
        whole_number(bits) == if low == 0 && high < WHOLE_BOUND {
            Some(if bits >= SIGN {
                -high
            } else {
                high as int
            })
        } else {
            None
        },
{
    power2::lemma2_to64_rest();
    let size = (bits % SIGN) as nat;
    let exponent = size / power2::pow2(52);
    let value = magnitude(size, 52) as int;
    let unit = power2::pow2(1074) as int;
    let p = power2::pow2((exponent - 1) as nat) as int;
    let q = power2::pow2(shift) as int;
    power2::lemma_pow2_pos((exponent - 1) as nat);
    power2::lemma_pow2_pos(shift);
    power2::lemma_pow2_pos(1074);
    power2::lemma_pow2_adds((exponent - 1) as nat, shift);
    assert(unit == p * q);
    assert(value == (high * q + low) * p);
    assert(value == high * unit + low * p) by (nonlinear_arith)
        requires
            value == (high * q + low) * p,
            unit == p * q,
    ;
    assert(0 <= low * p < unit) by (nonlinear_arith)
        requires
            unit == p * q,
            0 <= low < q,
            p > 0,
    ;
    assert((low * p == 0) == (low == 0)) by (nonlinear_arith)
        requires
            p > 0,
    ;
    lemma_remainder(value, unit, high as int, low * p);
    if low == 0 {
        assert(-value == (-high) * unit + 0) by (nonlinear_arith)
            requires
                value == high * unit,
        ;
        lemma_remainder(-value, unit, -high, 0);
        assert((value < WHOLE_BOUND * unit) == (high < WHOLE_BOUND)) by (nonlinear_arith)
            requires
                value == high * unit,
                unit > 0,
        ;
        assert(value >= 0);
    } else {
        assert(-value == (-high - 1) * unit + (unit - low * p)) by (nonlinear_arith)
            requires
                value == high * unit + low * p,
        ;
        lemma_remainder(-value, unit, -high - 1, unit - low * p);
    }
}

/// The integer that the number is, where it is one and is written as one.
pub fn whole(bits: u64) -> (n: Option<i64>)
    ensures
        match n {
            Some(n) => whole_number(bits) == Some(n as int),
            None => whole_number(bits) is None,
        },
{
    let size: u64 = bits % SIGN;
    if size == 0 {
        proof {
            power2::lemma_pow2_pos(1074);
            lemma_magnitude_zero(52);
            lemma_remainder(0, power2::pow2(1074) as int, 0, 0);
            assert(WHOLE_BOUND * power2::pow2(1074) > 0) by (nonlinear_arith)
                requires
                    power2::pow2(1074) > 0,
            ;
        }
        return Some(0);
    }
    let exponent: u64 = size / HIDDEN;
    if exponent < 1023 || exponent > 1074 {
        proof {
            lemma_not_whole(bits);
        }
        return None;
    }
    let shift: u64 = 1075 - exponent;
    let significand: u64 = HIDDEN + size % HIDDEN;
    proof {
        power2::lemma2_to64();
        power2::lemma2_to64_rest();
        power2::lemma_pow2_pos(shift as nat);
        if shift < 52 {
            power2::lemma_pow2_strictly_increases(shift as nat, 52);
        }
        vstd::bits::lemma_u64_shl_is_mul(1, shift);
    }
    let point: u64 = 1u64 << shift;
    let high: u64 = significand / point;
    let low: u64 = significand % point;
    proof {
        vstd::arithmetic::div_mod::lemma_fundamental_div_mod(significand as int, point as int);
        assert(high * power2::pow2(shift as nat) == power2::pow2(shift as nat) * high) by (nonlinear_arith);
        lemma_integer_part(bits, shift as nat, high as nat, low as nat);
    }
    if low != 0 || high >= WHOLE_BOUND {
        None
    } else if bits >= SIGN {
        Some(-(high as i64))
    } else {
        Some(high as i64)
    }
}

/// The rank of a binary32 number.
pub fn rank_of(bits: u32) -> (r: i32)
    ensures
        r == rank(bits),
{
    if bits >= SIGN_32 {
        -((bits - SIGN_32) as i32)
    } else {
        bits as i32
    }
}

/// The bits of the binary32 number of the given rank.
pub fn bits_of(rank: i32) -> (bits: u32)
    requires
        rank != i32::MIN,
    ensures
        bits == rank_bits(rank as int),
{
    if rank < 0 {
        SIGN_32 + (-rank) as u32
    } else {
        rank as u32
    }
}

} // verus!
