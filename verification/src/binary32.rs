//! Real numbers that arrive as the bit pattern of an IEEE 754 single
//! precision number. The engine never computes with such a number. It
//! orders two of them, holds one between two others, rounds one to a whole
//! number or down to a fixed-point number, and names the pattern of a small
//! whole number; all of that is exact.
//!
//! A pattern is a sign bit, eight bits of exponent and 23 bits of fraction.
//! Every finite number is a whole multiple of 2^-149, the smallest positive
//! one; `magnitude` counts in that unit, so it is an exact natural number.

use vstd::arithmetic::div_mod::lemma_basic_div;
use vstd::arithmetic::div_mod::lemma_div_by_multiple;
use vstd::arithmetic::div_mod::lemma_div_multiples_vanish_quotient;
use vstd::arithmetic::div_mod::lemma_div_non_zero;
use vstd::arithmetic::div_mod::lemma_fundamental_div_mod_converse;
use vstd::arithmetic::mul::lemma_mul_inequality;
use vstd::arithmetic::mul::lemma_mul_is_associative;
use vstd::arithmetic::mul::lemma_mul_is_commutative;
use vstd::arithmetic::mul::lemma_mul_strict_inequality;
use vstd::arithmetic::power2::lemma2_to64;
use vstd::arithmetic::power2::lemma_pow2_adds;
use vstd::arithmetic::power2::lemma_pow2_pos;
use vstd::arithmetic::power2::lemma_pow2_strictly_increases;
use vstd::arithmetic::power2::pow2;
use vstd::bits::lemma_u32_shl_is_mul;
use vstd::bits::lemma_u32_shr_is_div;
use vstd::bits::lemma_u64_shl_is_mul;
use vstd::prelude::*;

verus! {

/// The pattern of positive infinity; every pattern below it is a finite
/// number that is not negative.
pub const INFINITY: u32 = 0x7F80_0000;

/// The pattern of zero with the sign bit set.
pub const NEGATIVE_ZERO: u32 = 0x8000_0000;

/// The pattern of 65536, the first number beyond the fixed-point scale.
pub const SCALE_END: u32 = 0x4780_0000;

/// The first whole number that `nearest_whole` does not report: 2^40.
pub const WHOLE_END: i64 = 0x100_0000_0000;

/// The first whole number that `from_whole` has no pattern for: 2^24. Up to
/// it every whole number has a pattern of its own.
pub const WHOLE_PATTERNS_END: u32 = 0x100_0000;

/// The exponent bits of a pattern.
pub open spec fn exponent_field(bits: u32) -> nat {
    (bits as nat / 0x80_0000) % 0x100
}

/// The fraction bits of a pattern.
pub open spec fn fraction_field(bits: u32) -> nat {
    bits as nat % 0x80_0000
}

/// The pattern is a finite number that is not negative.
pub open spec fn is_magnitude(bits: u32) -> bool {
    bits < INFINITY
}

/// The pattern is a finite number above zero.
pub open spec fn is_positive(bits: u32) -> bool {
    0 < bits < INFINITY
}

/// The absolute value of a finite pattern, in units of 2^-149.
pub open spec fn magnitude(bits: u32) -> nat {
    if exponent_field(bits) == 0 {
        fraction_field(bits)
    } else {
        (0x80_0000 + fraction_field(bits)) * pow2((exponent_field(bits) - 1) as nat)
    }
}

/// The pattern is zero, or a positive number below 65536.
pub open spec fn on_scale(bits: u32) -> bool {
    bits < SCALE_END || bits == NEGATIVE_ZERO
}

/// The number in units of 2^-16, rounded down.
pub open spec fn fixed_point(bits: u32) -> nat {
    magnitude(bits) / pow2(133)
}

/// The pattern is a finite number, of either sign.
pub open spec fn is_finite(bits: u32) -> bool {
    exponent_field(bits) != 0xFF
}

/// The sign bit of the pattern is set.
pub open spec fn is_negative(bits: u32) -> bool {
    bits >= NEGATIVE_ZERO
}

/// The whole number nearest to the absolute value of a finite pattern; a
/// number halfway between two whole numbers goes to the greater.
pub open spec fn nearest_magnitude(bits: u32) -> nat {
    (magnitude(bits) + pow2(148)) / pow2(149)
}

/// The whole number nearest to a finite pattern; a number halfway between
/// two whole numbers goes to the one farther from zero.
pub open spec fn nearest(bits: u32) -> int {
    if is_negative(bits) {
        -(nearest_magnitude(bits) as int)
    } else {
        nearest_magnitude(bits) as int
    }
}

/// The number that a finite pattern stands for, in units of 2^-149.
pub open spec fn value(bits: u32) -> int {
    if is_negative(bits) {
        -(magnitude(bits) as int)
    } else {
        magnitude(bits) as int
    }
}

/// The number `x` held between `low` and `high`.
pub open spec fn clamped(x: u32, low: u32, high: u32) -> u32 {
    if value(x) < value(low) {
        low
    } else if value(x) > value(high) {
        high
    } else {
        x
    }
}

/// A greater exponent gives no lesser power of two.
proof fn lemma_pow2_increases(e1: nat, e2: nat)
    requires
        e1 <= e2,
    ensures
        pow2(e1) <= pow2(e2),
{
    if e1 < e2 {
        lemma_pow2_strictly_increases(e1, e2);
    }
}

/// Among finite numbers that are not negative, the greater number has the
/// greater pattern.
pub proof fn lemma_magnitude_increases(a: u32, b: u32)
    requires
        is_magnitude(a),
        is_magnitude(b),
        a < b,
    ensures
        magnitude(a) < magnitude(b),
{
    let ea = exponent_field(a);
    let eb = exponent_field(b);
    let fa = fraction_field(a);
    let fb = fraction_field(b);
    assert(a == ea * 0x80_0000 + fa && b == eb * 0x80_0000 + fb);
    assert(1 <= eb ==> pow2((eb - 1) as nat) >= 1) by {
        lemma_pow2_pos((eb - 1) as nat);
    }
    if ea == eb {
        if ea != 0 {
            let p = pow2((ea - 1) as nat);
            lemma_pow2_pos((ea - 1) as nat);
            lemma_mul_strict_inequality((0x80_0000 + fa) as int, (0x80_0000 + fb) as int, p as int);
        }
    } else {
        assert(ea < eb);
        let pb = pow2((eb - 1) as nat);
        lemma_mul_inequality(0x80_0000, (0x80_0000 + fb) as int, pb as int);
        assert(0x80_0000 * pb <= magnitude(b));
        if ea == 0 {
            assert(0x80_0000 * 1 <= 0x80_0000 * pb) by (nonlinear_arith)
                requires
                    pb >= 1,
            ;
        } else {
            let pa = pow2((ea - 1) as nat);
            lemma_pow2_pos((ea - 1) as nat);
            lemma_mul_strict_inequality((0x80_0000 + fa) as int, 0x100_0000, pa as int);
            assert(magnitude(a) < 0x100_0000 * pa);
            lemma_pow2_adds(1, (ea - 1) as nat);
            lemma2_to64();
            assert(pow2(ea) == 2 * pa);
            lemma_pow2_increases(ea, (eb - 1) as nat);
            assert(0x100_0000 * pa == 0x80_0000 * (2 * pa)) by (nonlinear_arith);
            lemma_mul_inequality(pow2(ea) as int, pb as int, 0x80_0000);
            lemma_mul_is_commutative(pow2(ea) as int, 0x80_0000);
            lemma_mul_is_commutative(pb as int, 0x80_0000);
        }
    }
}

/// Two finite numbers that are not negative compare as their patterns do.
pub proof fn lemma_magnitude_order(a: u32, b: u32)
    requires
        is_magnitude(a),
        is_magnitude(b),
    ensures
        a < b <==> magnitude(a) < magnitude(b),
        a == b <==> magnitude(a) == magnitude(b),
{
    if a < b {
        lemma_magnitude_increases(a, b);
    } else if b < a {
        lemma_magnitude_increases(b, a);
    }
}

/// Whether the first number is greater than the second. There is no answer
/// unless both are finite and not negative.
pub fn exceeds(a: u32, b: u32) -> (r: Option<bool>)
    ensures
        r is Some <==> is_magnitude(a) && is_magnitude(b),
        r matches Some(greater) ==> greater == (magnitude(a) > magnitude(b)),
{
    if a < INFINITY && b < INFINITY {
        proof {
            lemma_magnitude_order(a, b);
        }
        Some(a > b)
    } else {
        None
    }
}

/// A finite number that is not negative is a finite number.
pub proof fn lemma_magnitude_is_finite(bits: u32)
    requires
        is_magnitude(bits),
    ensures
        is_finite(bits),
        !is_negative(bits),
{
}

/// The pattern without its sign stands for the absolute value.
proof fn lemma_without_sign(bits: u32)
    ensures
        exponent_field(bits & 0x7FFF_FFFF) == exponent_field(bits),
        fraction_field(bits & 0x7FFF_FFFF) == fraction_field(bits),
        magnitude(bits & 0x7FFF_FFFF) == magnitude(bits),
        is_finite(bits) <==> is_magnitude(bits & 0x7FFF_FFFF),
{
    let rest = bits & 0x7FFF_FFFF;
    assert((rest / 0x80_0000) % 0x100 == (bits / 0x80_0000) % 0x100) by (bit_vector)
        requires
            rest == bits & 0x7FFF_FFFF,
    ;
    assert(rest % 0x80_0000 == bits % 0x80_0000) by (bit_vector)
        requires
            rest == bits & 0x7FFF_FFFF,
    ;
    assert(rest < 0x8000_0000) by (bit_vector)
        requires
            rest == bits & 0x7FFF_FFFF,
    ;
}

/// Whether the pattern is a finite number.
pub fn finite(bits: u32) -> (r: bool)
    ensures
        r == is_finite(bits),
{
    let e: u32 = (bits >> 23) & 0xFF;
    assert(e == (bits / 0x80_0000) % 0x100) by (bit_vector)
        requires
            e == (bits >> 23) & 0xFF,
    ;
    e != 0xFF
}

/// Whether the first number is less than the second. There is no answer
/// unless both are finite. Zero is zero under either sign.
pub fn less(a: u32, b: u32) -> (r: Option<bool>)
    ensures
        r is Some <==> is_finite(a) && is_finite(b),
        r matches Some(l) ==> l == (value(a) < value(b)),
{
    let size_a: u32 = a & 0x7FFF_FFFF;
    let size_b: u32 = b & 0x7FFF_FFFF;
    proof {
        lemma_without_sign(a);
        lemma_without_sign(b);
    }
    if size_a >= INFINITY || size_b >= INFINITY {
        return None;
    }
    proof {
        lemma_magnitude_order(size_a, size_b);
        lemma_magnitude_order(size_a, 0);
        lemma_magnitude_order(size_b, 0);
        assert(magnitude(0) == 0);
    }
    let negative_a = a >= NEGATIVE_ZERO;
    let negative_b = b >= NEGATIVE_ZERO;
    if negative_a {
        if negative_b {
            Some(size_a > size_b)
        } else {
            Some(size_a > 0 || size_b > 0)
        }
    } else {
        if negative_b {
            Some(false)
        } else {
            Some(size_a < size_b)
        }
    }
}

/// The number `x` held between `low` and `high`. There is no answer unless
/// all three are finite and `low` is not above `high`.
pub fn clamp(x: u32, low: u32, high: u32) -> (r: Option<u32>)
    ensures
        r is Some <==> is_finite(x) && is_finite(low) && is_finite(high) && value(low) <= value(
            high,
        ),
        r matches Some(c) ==> c == clamped(x, low, high) && is_finite(c) && value(low) <= value(c)
            <= value(high),
{
    match less(high, low) {
        Some(false) => {},
        _ => {
            return None;
        },
    }
    match less(x, low) {
        None => None,
        Some(true) => Some(low),
        Some(false) => match less(high, x) {
            None => None,
            Some(true) => Some(high),
            Some(false) => Some(x),
        },
    }
}

/// The number in units of 2^-16, rounded down. There is no answer unless the
/// number is zero or positive and below 65536.
pub fn quantise(bits: u32) -> (q: Option<u32>)
    ensures
        q is Some <==> on_scale(bits),
        q matches Some(n) ==> n == fixed_point(bits),
{
    if bits == NEGATIVE_ZERO {
        assert(exponent_field(bits) == 0 && fraction_field(bits) == 0);
        proof {
            lemma_pow2_pos(133);
            lemma_basic_div(0, pow2(133) as int);
        }
        return Some(0);
    }
    if bits >= SCALE_END {
        return None;
    }
    let e: u32 = bits >> 23;
    let f: u32 = bits & 0x7F_FFFF;
    assert(e == bits / 0x80_0000) by (bit_vector)
        requires
            e == bits >> 23,
    ;
    assert(f == bits % 0x80_0000) by (bit_vector)
        requires
            f == bits & 0x7F_FFFF,
    ;
    assert(e == exponent_field(bits) && f == fraction_field(bits) && e <= 142);
    proof {
        lemma2_to64();
        lemma_pow2_pos(133);
        lemma_pow2_increases(32, 133);
    }
    if e == 0 {
        proof {
            lemma_basic_div(f as int, pow2(133) as int);
        }
        return Some(0);
    }
    let m: u32 = 0x80_0000 | f;
    assert(m == 0x80_0000 + f) by (bit_vector)
        requires
            m == 0x80_0000 | f,
            f < 0x80_0000,
    ;
    let ghost low = pow2((e - 1) as nat);
    proof {
        lemma_pow2_pos((e - 1) as nat);
    }
    if e >= 134 {
        let shift: u64 = (e - 134) as u64;
        let ghost up = pow2(shift as nat);
        proof {
            lemma_pow2_adds(shift as nat, 133);
            lemma_pow2_increases(shift as nat, 8);
            assert(m * up <= 0xFF_FFFF * 0x100) by (nonlinear_arith)
                requires
                    m <= 0xFF_FFFF,
                    up <= 0x100,
                    up >= 0,
            ;
            lemma_u64_shl_is_mul(m as u64, shift);
            lemma_mul_is_associative(m as int, up as int, pow2(133) as int);
            lemma_div_by_multiple(m * up, pow2(133) as int);
            assert(magnitude(bits) == (m * up) * pow2(133));
        }
        let q: u64 = (m as u64) << shift;
        assert(q == fixed_point(bits));
        Some(q as u32)
    } else if e >= 111 {
        let shift: u32 = 134 - e;
        let ghost down = pow2(shift as nat);
        proof {
            lemma_pow2_pos(shift as nat);
            lemma_pow2_adds((e - 1) as nat, shift as nat);
            lemma_u32_shr_is_div(m, shift);
            lemma_div_multiples_vanish_quotient(low as int, m as int, down as int);
            lemma_mul_is_commutative(low as int, m as int);
            assert(magnitude(bits) == low * m);
            assert(pow2(133) == low * down);
        }
        assert(m >> shift == fixed_point(bits));
        Some(m >> shift)
    } else {
        proof {
            lemma_pow2_adds((e - 1) as nat, (134 - e) as nat);
            lemma_pow2_increases(24, (134 - e) as nat);
            assert(m * low < pow2((134 - e) as nat) * low) by (nonlinear_arith)
                requires
                    m < 0x100_0000,
                    0x100_0000 <= pow2((134 - e) as nat),
                    low >= 1,
            ;
            lemma_mul_is_commutative(low as int, pow2((134 - e) as nat) as int);
            lemma_basic_div(m * low, pow2(133) as int);
        }
        assert(fixed_point(bits) == 0);
        Some(0)
    }
}

/// The pattern of a whole number. There is none from 2^24 on.
pub fn from_whole(n: u32) -> (r: Option<u32>)
    ensures
        r is Some <==> n < WHOLE_PATTERNS_END,
        r matches Some(bits) ==> is_magnitude(bits) && magnitude(bits) == n * pow2(149) && nearest(
            bits,
        ) == n,
{
    if n >= WHOLE_PATTERNS_END {
        return None;
    }
    proof {
        lemma2_to64();
        lemma_pow2_pos(148);
        lemma_pow2_pos(149);
        lemma_pow2_adds(1, 148);
    }
    if n == 0 {
        proof {
            lemma_basic_div(pow2(148) as int, pow2(149) as int);
        }
        return Some(0);
    }
    let mut k: u32 = 23;
    while (n >> k) == 0
        invariant
            k <= 23,
            1 <= n < pow2((k + 1) as nat),
        decreases k,
    {
        proof {
            lemma_u32_shr_is_div(n, k);
            lemma_pow2_pos(k as nat);
            if n >= pow2(k as nat) {
                lemma_div_non_zero(n as int, pow2(k as nat) as int);
            }
            if k == 0 {
                lemma2_to64();
                assert(n < 1);
            }
        }
        k -= 1;
    }
    let shift: u32 = 23 - k;
    let ghost up = pow2(shift as nat);
    let ghost low = pow2(k as nat);
    proof {
        lemma_u32_shr_is_div(n, k);
        lemma_pow2_pos(k as nat);
        if n < low {
            lemma_basic_div(n as int, low as int);
        }
        lemma_pow2_pos(shift as nat);
        lemma_pow2_adds(k as nat, shift as nat);
        lemma_pow2_adds((k + 1) as nat, shift as nat);
        lemma_pow2_adds(1, k as nat);
        assert(low * up == 0x80_0000);
        assert(n * up >= low * up) by (nonlinear_arith)
            requires
                n >= low,
                up >= 0,
        ;
        assert(n * up < (2 * low) * up) by (nonlinear_arith)
            requires
                n < 2 * low,
                up > 0,
        ;
        assert((2 * low) * up == 2 * (low * up)) by (nonlinear_arith);
        lemma_u32_shl_is_mul(n, shift);
    }
    let m: u32 = n << shift;
    let e: u32 = 127 + k;
    let f: u32 = m & 0x7F_FFFF;
    let bits: u32 = (e << 23) | f;
    assert(f == m - 0x80_0000) by (bit_vector)
        requires
            f == m & 0x7F_FFFF,
            0x80_0000 <= m < 0x100_0000,
    ;
    assert(bits == e * 0x80_0000 + f) by (bit_vector)
        requires
            bits == (e << 23) | f,
            e <= 150,
            f < 0x80_0000,
    ;
    proof {
        assert(exponent_field(bits) == e && fraction_field(bits) == f);
        let scale = pow2((e - 1) as nat);
        lemma_pow2_adds(shift as nat, (e - 1) as nat);
        assert(up * scale == pow2(149));
        assert(magnitude(bits) == m * scale);
        lemma_mul_is_associative(n as int, up as int, scale as int);
        assert(magnitude(bits) == n * pow2(149));
        lemma_fundamental_div_mod_converse(
            n * pow2(149) + pow2(148),
            pow2(149) as int,
            n as int,
            pow2(148) as int,
        );
    }
    Some(bits)
}

/// The whole number nearest to the number, where the number is finite and
/// that whole number lies between -2^40 and 2^40, both excluded.
pub fn nearest_whole(bits: u32) -> (r: Option<i64>)
    ensures
        r is Some <==> is_finite(bits) && -WHOLE_END < nearest(bits) < WHOLE_END,
        r matches Some(n) ==> n == nearest(bits),
{
    let e: u32 = (bits >> 23) & 0xFF;
    let f: u32 = bits & 0x7F_FFFF;
    let negative: bool = bits >= NEGATIVE_ZERO;
    assert(e == (bits / 0x80_0000) % 0x100) by (bit_vector)
        requires
            e == (bits >> 23) & 0xFF,
    ;
    assert(f == bits % 0x80_0000) by (bit_vector)
        requires
            f == bits & 0x7F_FFFF,
    ;
    if e == 0xFF {
        return None;
    }
    proof {
        lemma2_to64();
        lemma_pow2_pos(148);
        lemma_pow2_pos(149);
        lemma_pow2_adds(1, 148);
    }
    if e == 0 {
        proof {
            lemma_pow2_increases(32, 148);
            lemma_basic_div((f + pow2(148)) as int, pow2(149) as int);
        }
        return Some(0);
    }
    let m: u32 = 0x80_0000 | f;
    assert(m == 0x80_0000 + f) by (bit_vector)
        requires
            m == 0x80_0000 | f,
            f < 0x80_0000,
    ;
    let ghost low = pow2((e - 1) as nat);
    proof {
        lemma_pow2_pos((e - 1) as nat);
    }
    if e >= 150 {
        let ghost up = pow2((e - 150) as nat);
        proof {
            lemma_pow2_pos((e - 150) as nat);
            lemma_pow2_adds((e - 150) as nat, 149);
            lemma_mul_is_associative(m as int, up as int, pow2(149) as int);
            // the half that is added does not reach the next multiple
            lemma_fundamental_div_mod_converse(
                (m * up) * pow2(149) + pow2(148),
                pow2(149) as int,
                (m * up) as int,
                pow2(148) as int,
            );
            assert(nearest_magnitude(bits) == m * up);
        }
        if e >= 167 {
            proof {
                lemma_pow2_increases(17, (e - 150) as nat);
                assert(m * up >= 0x80_0000 * 0x2_0000) by (nonlinear_arith)
                    requires
                        m >= 0x80_0000,
                        up >= 0x2_0000,
                ;
            }
            return None;
        }
        let shift: u64 = (e - 150) as u64;
        proof {
            lemma_pow2_increases(shift as nat, 16);
            assert(m * up <= 0xFF_FFFF * 0x1_0000) by (nonlinear_arith)
                requires
                    m <= 0xFF_FFFF,
                    up <= 0x1_0000,
                    up >= 0,
            ;
            lemma_u64_shl_is_mul(m as u64, shift);
        }
        let whole: u64 = (m as u64) << shift;
        if negative {
            Some(-(whole as i64))
        } else {
            Some(whole as i64)
        }
    } else if e >= 126 {
        let shift: u32 = 150 - e;
        let ghost down = pow2(shift as nat);
        let ghost half = pow2((shift - 1) as nat);
        proof {
            lemma_pow2_pos(shift as nat);
            lemma_pow2_adds((e - 1) as nat, shift as nat);
            lemma_pow2_adds((e - 1) as nat, (shift - 1) as nat);
            lemma_pow2_increases((shift - 1) as nat, 23);
            lemma_u32_shl_is_mul(1, (shift - 1) as u32);
            lemma_u32_shr_is_div((m + half) as u32, shift);
            lemma_div_multiples_vanish_quotient(low as int, (m + half) as int, down as int);
            assert(low * (m + half) == m * low + low * half) by (nonlinear_arith);
        }
        let half_unit: u32 = 1u32 << (shift - 1);
        let whole: u32 = (m + half_unit) >> shift;
        assert(whole == nearest_magnitude(bits));
        if negative {
            Some(-(whole as i64))
        } else {
            Some(whole as i64)
        }
    } else {
        proof {
            lemma_pow2_adds((e - 1) as nat, (149 - e) as nat);
            lemma_pow2_increases(24, (149 - e) as nat);
            assert(m * low < pow2((149 - e) as nat) * low) by (nonlinear_arith)
                requires
                    m < 0x100_0000,
                    0x100_0000 <= pow2((149 - e) as nat),
                    low >= 1,
            ;
            lemma_mul_is_commutative(low as int, pow2((149 - e) as nat) as int);
            lemma_basic_div((m * low + pow2(148)) as int, pow2(149) as int);
        }
        Some(0)
    }
}

} // verus!
