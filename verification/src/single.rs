//! Single-precision numbers as bit patterns: what can be read off the 32
//! bits without floating-point arithmetic.
//!
//! A pattern holds a sign bit, eight bits of exponent and 23 bits of
//! fraction. Where the exponent bits are not all set, it stands for the
//! number `±significand × 2^binary_exponent`.

use vstd::prelude::*;

verus! {

/// The bit pattern of positive infinity.
pub const INFINITY_BITS: u32 = 0x7f80_0000;

/// The bit pattern with its sign cleared: the magnitude of the number.
pub open spec fn magnitude(bits: u32) -> u32 {
    (bits % 0x8000_0000) as u32
}

/// Whether the bit pattern is that of a number, not of a NaN.
pub open spec fn is_number(bits: u32) -> bool {
    magnitude(bits) <= INFINITY_BITS
}

/// Whether the sign bit is set.
pub open spec fn is_negative(bits: u32) -> bool {
    bits >= 0x8000_0000
}

/// The eight exponent bits.
pub open spec fn exponent_field(bits: u32) -> int {
    (bits / 0x80_0000 % 256) as int
}

/// The 23 fraction bits.
pub open spec fn fraction(bits: u32) -> int {
    (bits % 0x80_0000) as int
}

/// The significand of a finite number: the fraction, with the implicit
/// leading bit unless the number is subnormal.
pub open spec fn significand(bits: u32) -> int {
    if exponent_field(bits) == 0 {
        fraction(bits)
    } else {
        fraction(bits) + 0x80_0000
    }
}

/// The power of two by which the significand of a finite number is
/// multiplied.
pub open spec fn binary_exponent(bits: u32) -> int {
    if exponent_field(bits) == 0 {
        -149
    } else {
        exponent_field(bits) - 150
    }
}

/// Two to the power of `n`.
pub open spec fn two_to(n: nat) -> nat
    decreases n,
{
    if n == 0 {
        1
    } else {
        2 * two_to((n - 1) as nat)
    }
}

/// The magnitude of a finite number times `2^k`, rounded to the nearest
/// integer, a half away from zero.
pub open spec fn scaled_magnitude(bits: u32, k: nat) -> int {
    let shift = binary_exponent(bits) + k;
    if shift >= 0 {
        significand(bits) * two_to(shift as nat)
    } else {
        (2 * significand(bits) + two_to((-shift) as nat)) / (2 * two_to((-shift) as nat) as int)
    }
}

/// The number times `2^k`, rounded to the nearest integer, a half away from
/// zero, and cut to the range of 32 bits; 0 for a NaN.
pub open spec fn fixed_point(bits: u32, k: nat) -> int {
    if !is_number(bits) {
        0
    } else {
        let m = if magnitude(bits) == INFINITY_BITS {
            0x8000_0000
        } else {
            scaled_magnitude(bits, k)
        };
        if is_negative(bits) {
            if m >= 0x8000_0000 {
                i32::MIN as int
            } else {
                -m
            }
        } else {
            if m >= 0x8000_0000 {
                i32::MAX as int
            } else {
                m
            }
        }
    }
}

/// Powers of two grow with the exponent.
pub proof fn lemma_two_to_grows(a: nat, b: nat)
    requires
        a <= b,
    ensures
        two_to(a) <= two_to(b),
        two_to(a) >= 1,
    decreases b,
{
    if a < b {
        lemma_two_to_grows(a, (b - 1) as nat);
    } else if a > 0 {
        lemma_two_to_grows((a - 1) as nat, (a - 1) as nat);
    }
}

/// Powers of two multiply as their exponents add.
pub proof fn lemma_two_to_adds(a: nat, b: nat)
    ensures
        two_to(a + b) == two_to(a) * two_to(b),
    decreases b,
{
    if b > 0 {
        lemma_two_to_adds(a, (b - 1) as nat);
        assert(two_to(a + b) == 2 * two_to((a + b - 1) as nat));
        assert(2 * (two_to(a) * two_to((b - 1) as nat)) == two_to(a) * (2 * two_to((b - 1) as nat)))
            by (nonlinear_arith);
    } else {
        assert(two_to(a) * 1 == two_to(a)) by (nonlinear_arith);
    }
}

/// The powers of two that the conversion meets.
proof fn lemma_two_to_values()
    ensures
        two_to(25) == 0x200_0000,
        two_to(26) == 0x400_0000,
        two_to(30) == 0x4000_0000,
        two_to(31) == 0x8000_0000,
        two_to(62) == 0x4000_0000_0000_0000,
{
    reveal_with_fuel(two_to, 9);
    assert(two_to(6) == 0x40);
    assert(two_to(7) == 0x80);
    assert(two_to(8) == 0x100);
    lemma_two_to_adds(8, 8);
    assert(two_to(16) == 0x1_0000);
    lemma_two_to_adds(16, 8);
    assert(two_to(24) == 0x100_0000);
    assert(two_to(25) == 2 * two_to(24));
    assert(two_to(26) == 2 * two_to(25));
    lemma_two_to_adds(24, 6);
    assert(two_to(30) == 0x4000_0000);
    lemma_two_to_adds(24, 7);
    assert(two_to(31) == 0x8000_0000);
    lemma_two_to_adds(31, 31);
    assert(two_to(62) == 0x4000_0000_0000_0000);
}

/// Two to the power of `n`, for a power that fits.
pub fn power_of_two(n: u32) -> (p: u64)
    requires
        n <= 62,
    ensures
        p == two_to(n as nat),
{
    let mut p: u64 = 1;
    let mut i: u32 = 0;
    proof {
        lemma_two_to_grows(0, 62);
    }
    while i < n
        invariant
            i <= n,
            n <= 62,
            p == two_to(i as nat),
            p <= two_to(62),
        decreases n - i,
    {
        proof {
            lemma_two_to_grows((i + 1) as nat, 62);
            lemma_two_to_values();
        }
        p = 2 * p;
        i += 1;
    }
    p
}

/// The three fields of a pattern make up the pattern, and the exponent bits
/// of infinity are all set.
proof fn lemma_fields(bits: u32)
    ensures
        0 <= exponent_field(bits) < 256,
        0 <= fraction(bits) < 0x80_0000,
        magnitude(bits) == exponent_field(bits) * 0x80_0000 + fraction(bits),
        magnitude(bits) == INFINITY_BITS <==> exponent_field(bits) == 255 && fraction(bits) == 0,
        is_number(bits) <==> exponent_field(bits) < 255 || fraction(bits) == 0,
{
    let q = bits / 0x80_0000;
    assert(bits == q * 0x80_0000 + bits % 0x80_0000);
    assert(q < 512);
    assert(bits % 0x8000_0000 == (q % 256) * 0x80_0000 + bits % 0x80_0000);
}

/// The number with the given bit pattern as a fixed-point number of
/// `fractional_bits` fractional bits: see [`fixed_point`].
pub fn to_fixed_point(bits: u32, fractional_bits: u8) -> (v: i32)
    ensures
        v == fixed_point(bits, fractional_bits as nat),
{
    let field: u32 = bits / 0x80_0000 % 256;
    let frac: u32 = bits % 0x80_0000;
    let negative = bits >= 0x8000_0000;
    proof {
        lemma_fields(bits);
    }
    if field == 255 {
        if frac != 0 {
            return 0;
        }
        return if negative {
            i32::MIN
        } else {
            i32::MAX
        };
    }
    let s: u64 = if field == 0 {
        frac as u64
    } else {
        frac as u64 + 0x80_0000
    };
    let exponent: i32 = if field == 0 {
        -149
    } else {
        field as i32 - 150
    };
    let shift: i32 = exponent + fractional_bits as i32;
    proof {
        lemma_fields(bits);
        assert(magnitude(bits) != INFINITY_BITS);
        assert(s == significand(bits));
        assert(exponent == binary_exponent(bits));
    }
    let ghost wanted = scaled_magnitude(bits, fractional_bits as nat);
    let m: u64 = if shift >= 31 {
        proof {
            lemma_two_to_grows(31, shift as nat);
            lemma_two_to_values();
            assert(s >= 1 ==> s * two_to(shift as nat) >= 0x8000_0000) by (nonlinear_arith)
                requires
                    two_to(shift as nat) >= 0x8000_0000,
            ;
            assert(s == 0 ==> s * two_to(shift as nat) == 0) by (nonlinear_arith);
        }
        if s == 0 {
            0
        } else {
            0x8000_0000
        }
    } else if shift >= 0 {
        let p = power_of_two(shift as u32);
        proof {
            lemma_two_to_grows(shift as nat, 30);
            lemma_two_to_values();
            assert(s * p <= 0x100_0000 * 0x4000_0000) by (nonlinear_arith)
                requires
                    s < 0x100_0000,
                    p <= 0x4000_0000,
            ;
            assert(wanted == s * p);
        }
        s * p
    } else if shift < -25 {
        proof {
            let r = (-shift) as nat;
            lemma_two_to_grows(26, r);
            lemma_two_to_values();
            let p = two_to(r) as int;
            assert((2 * s + p) / (2 * p) == 0) by (nonlinear_arith)
                requires
                    0 <= 2 * s < p,
            ;
            assert(wanted == 0);
        }
        0
    } else {
        let p = power_of_two((-shift) as u32);
        proof {
            lemma_two_to_grows((-shift) as nat, 25);
            lemma_two_to_values();
            assert(wanted == (2 * s + p) / (2 * p as int));
            assert((2 * s + p) / (2 * p as int) < 0x8000_0000) by (nonlinear_arith)
                requires
                    0 <= s < 0x100_0000,
                    1 <= p,
            ;
        }
        (2 * s + p) / (2 * p)
    };
    assert(m >= 0x8000_0000 <==> wanted >= 0x8000_0000);
    assert(m < 0x8000_0000 ==> m == wanted);
    if negative {
        if m >= 0x8000_0000 {
            i32::MIN
        } else {
            -(m as i32)
        }
    } else {
        if m >= 0x8000_0000 {
            i32::MAX
        } else {
            m as i32
        }
    }
}

/// The scaled magnitude is the nearest integer. Where the number times
/// `2^k` is an integer, it is that integer. Else, `p` being the power of two
/// that the significand is divided by, the result times `p` lies within
/// half of `p` of the significand, and exactly half of `p` away only where
/// it lies above.
pub proof fn lemma_scaled_magnitude_is_nearest(bits: u32, k: nat)
    requires
        exponent_field(bits) < 255,
    ensures
        binary_exponent(bits) + k >= 0 ==> scaled_magnitude(bits, k) == significand(bits) * two_to(
            (binary_exponent(bits) + k) as nat,
        ),
        binary_exponent(bits) + k < 0 ==> ({
            let p = two_to((-(binary_exponent(bits) + k)) as nat) as int;
            let m = scaled_magnitude(bits, k);
            &&& 2 * (m * p - significand(bits)) <= p
            &&& 2 * (significand(bits) - m * p) < p
        }),
{
    let shift = binary_exponent(bits) + k;
    if shift < 0 {
        let p = two_to((-shift) as nat) as int;
        let s = significand(bits);
        let m = scaled_magnitude(bits, k);
        lemma_two_to_grows(0, (-shift) as nat);
        assert(m == (2 * s + p) / (2 * p));
        assert(2 * (m * p - s) <= p && 2 * (s - m * p) < p) by (nonlinear_arith)
            requires
                p >= 1,
                m == (2 * s + p) / (2 * p),
        ;
    }
}

} // verus!
