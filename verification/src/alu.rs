//! Executable forms of the M-extension arithmetic — the high halves of the
//! 64-bit products and RISC-V division and remainder — proved equal to the
//! two's-complement specifications in `bits`.

use crate::bits::{
    div_signed, div_unsigned, div_trunc, mul_high_ss, mul_high_su, mul_high_uu, rem_signed,
    rem_trunc, rem_unsigned, signed32, to_u32,
};
use vstd::arithmetic::div_mod::{
    lemma_fundamental_div_mod, lemma_fundamental_div_mod_converse_mod, lemma_hoist_over_denominator,
    lemma_mod_add_multiples_vanish, lemma_sub_mod_noop,
};
use vstd::arithmetic::mul::{
    lemma_mul_is_commutative, lemma_mul_is_distributive_sub,
    lemma_mul_is_distributive_sub_other_way, lemma_mul_nonnegative, lemma_mul_unary_negation,
    lemma_mul_upper_bound,
};
use vstd::bits::lemma_u64_shr_is_div;
use vstd::math::abs;
use vstd::prelude::*;

verus! {

/// 2^32 as an integer.
spec fn two_32() -> int {
    0x1_0000_0000
}

/// A value already in `[0, 2^32)` is its own residue.
proof fn lemma_to_u32_small(x: int)
    requires
        0 <= x < 0x1_0000_0000,
    ensures
        to_u32(x) as int == x,
{
    lemma_fundamental_div_mod_converse_mod(x, two_32(), 0, x);
}

/// The residue of a negated small value.
proof fn lemma_to_u32_neg(x: int)
    requires
        0 <= x < 0x1_0000_0000,
    ensures
        to_u32(-x) as int == if x == 0 {
            0
        } else {
            0x1_0000_0000 - x
        },
{
    if x == 0 {
        lemma_to_u32_small(0);
    } else {
        lemma_fundamental_div_mod_converse_mod(-x, two_32(), -1, two_32() - x);
    }
}

/// Wrapping subtraction on words is subtraction of residues.
proof fn lemma_wrapping_sub_to_u32(x: u32, y: u32)
    ensures
        x.wrapping_sub(y) == to_u32(x as int - y as int),
{
    if x as int - y as int >= 0 {
        lemma_to_u32_small(x as int - y as int);
    } else {
        lemma_fundamental_div_mod_converse_mod(
            x as int - y as int,
            two_32(),
            -1,
            x as int - y as int + two_32(),
        );
    }
}

/// Subtracting inside or outside `to_u32` is the same.
proof fn lemma_to_u32_sub(x: int, y: int)
    requires
        0 <= y < 0x1_0000_0000,
    ensures
        to_u32(to_u32(x) as int - y) == to_u32(x - y),
{
    lemma_sub_mod_noop(x, y, two_32());
    lemma_to_u32_small(y);
}

/// The unsigned magnitude of the two's-complement value of `a`.
proof fn lemma_magnitude(a: u32)
    ensures
        a >= 0x8000_0000 ==> (0u32.wrapping_sub(a)) as int == abs(signed32(a)),
        a < 0x8000_0000 ==> a as int == abs(signed32(a)),
{
}

/// The upper word of the unsigned product, as an integer: it fits below 2^32.
proof fn lemma_high_uu_bounds(a: u32, b: u32)
    ensures
        0 <= (a as int) * (b as int) <= 0xFFFF_FFFE_0000_0001,
        0 <= ((a as int) * (b as int)) / 0x1_0000_0000 < 0x1_0000_0000,
        mul_high_uu(a, b) as int == ((a as int) * (b as int)) / 0x1_0000_0000,
{
    lemma_mul_nonnegative(a as int, b as int);
    lemma_mul_upper_bound(a as int, 0xFFFF_FFFF, b as int, 0xFFFF_FFFF);
    assert(((a as int) * (b as int)) / 0x1_0000_0000 <= 0xFFFF_FFFE_0000_0001int / 0x1_0000_0000)
        by {
        vstd::arithmetic::div_mod::lemma_div_is_ordered(
            (a as int) * (b as int),
            0xFFFF_FFFE_0000_0001,
            0x1_0000_0000,
        );
    }
    vstd::arithmetic::div_mod::lemma_div_pos_is_pos((a as int) * (b as int), 0x1_0000_0000);
    lemma_to_u32_small(((a as int) * (b as int)) / 0x1_0000_0000);
}

/// The signed high products are the unsigned high product corrected by the
/// operands whose sign bit is set.
proof fn lemma_mul_high_correction(a: u32, b: u32)
    ensures
        mul_high_su(a, b) == to_u32(
            ((a as int) * (b as int)) / 0x1_0000_0000 - (if a >= 0x8000_0000 {
                b as int
            } else {
                0
            }),
        ),
        mul_high_ss(a, b) == to_u32(
            ((a as int) * (b as int)) / 0x1_0000_0000 - (if a >= 0x8000_0000 {
                b as int
            } else {
                0
            }) - (if b >= 0x8000_0000 {
                a as int
            } else {
                0
            }),
        ),
{
    let k = two_32();
    let p = (a as int) * (b as int);
    // MULHSU
    if a >= 0x8000_0000 {
        assert((a as int - k) * (b as int) == p - k * (b as int)) by {
            lemma_mul_is_distributive_sub_other_way(b as int, a as int, k);
            lemma_mul_is_commutative(a as int, b as int);
            lemma_mul_is_commutative(k, b as int);
        }
        assert(signed32(a) * (b as int) == p + (-(b as int)) * k);
        lemma_hoist_over_denominator(p, -(b as int), 0x1_0000_0000nat);
    }
    // MULH
    if a >= 0x8000_0000 && b >= 0x8000_0000 {
        assert((a as int - k) * (b as int - k) == p - k * (b as int) - k * (a as int) + k * k) by {
            lemma_mul_is_distributive_sub(a as int - k, b as int, k);
            lemma_mul_is_distributive_sub_other_way(b as int, a as int, k);
            lemma_mul_is_distributive_sub_other_way(k, a as int, k);
            lemma_mul_is_commutative(a as int, b as int);
            lemma_mul_is_commutative(k, b as int);
        }
        assert(signed32(a) * signed32(b) == p + (-(b as int) - (a as int) + k) * k);
        lemma_hoist_over_denominator(p, -(b as int) - (a as int) + k, 0x1_0000_0000nat);
        assert((signed32(a) * signed32(b)) / k == p / k - (b as int) - (a as int) + k);
        lemma_mod_add_multiples_vanish(p / k - (b as int) - (a as int), k);
    } else if a >= 0x8000_0000 {
        // signed-signed coincides with signed-unsigned when b is nonnegative
    } else if b >= 0x8000_0000 {
        assert((a as int) * (b as int - k) == p - k * (a as int)) by {
            lemma_mul_is_distributive_sub(a as int, b as int, k);
            lemma_mul_is_commutative(k, a as int);
        }
        assert(signed32(a) * signed32(b) == p + (-(a as int)) * k);
        lemma_hoist_over_denominator(p, -(a as int), 0x1_0000_0000nat);
    }
}

/// The upper 32 bits of the unsigned 64-bit product.
pub(crate) fn mul_high_unsigned(a: u32, b: u32) -> (r: u32)
    ensures
        r == mul_high_uu(a, b),
        r as int == ((a as int) * (b as int)) / 0x1_0000_0000,
{
    proof {
        lemma_high_uu_bounds(a, b);
    }
    let p: u64 = (a as u64) * (b as u64);
    let hi = p >> 32u64;
    proof {
        lemma_u64_shr_is_div(p, 32);
        vstd::arithmetic::power2::lemma2_to64();
    }
    hi as u32
}

/// The upper 32 bits of the signed 64-bit product.
pub(crate) fn mul_high_signed(a: u32, b: u32) -> (r: u32)
    ensures
        r == mul_high_ss(a, b),
{
    let h = mul_high_unsigned(a, b);
    let h1 = if a >= 0x8000_0000 {
        h.wrapping_sub(b)
    } else {
        h
    };
    let h2 = if b >= 0x8000_0000 {
        h1.wrapping_sub(a)
    } else {
        h1
    };
    proof {
        let p = (a as int) * (b as int);
        // The correction owed to a negative `a` (see lemma_mul_high_correction).
        let corr_a: int = if a >= 0x8000_0000 {
            b as int
        } else {
            0
        };
        lemma_high_uu_bounds(a, b);
        lemma_mul_high_correction(a, b);
        lemma_to_u32_small(h as int);
        if a >= 0x8000_0000 {
            lemma_wrapping_sub_to_u32(h, b);
        }
        assert(h1 == to_u32(p / 0x1_0000_0000 - corr_a)) by {
            lemma_to_u32_sub(p / 0x1_0000_0000, 0);
        }
        if b >= 0x8000_0000 {
            lemma_wrapping_sub_to_u32(h1, a);
            lemma_to_u32_sub(p / 0x1_0000_0000 - corr_a, a as int);
        }
    }
    h2
}

/// The upper 32 bits of the product of signed `a` and unsigned `b`.
pub(crate) fn mul_high_signed_unsigned(a: u32, b: u32) -> (r: u32)
    ensures
        r == mul_high_su(a, b),
{
    let h = mul_high_unsigned(a, b);
    let h1 = if a >= 0x8000_0000 {
        h.wrapping_sub(b)
    } else {
        h
    };
    proof {
        let p = (a as int) * (b as int);
        lemma_high_uu_bounds(a, b);
        lemma_mul_high_correction(a, b);
        lemma_to_u32_small(h as int);
        if a >= 0x8000_0000 {
            lemma_wrapping_sub_to_u32(h, b);
            lemma_to_u32_sub(p / 0x1_0000_0000, b as int);
        }
    }
    h1
}

/// Truncated signed division of magnitudes: `div_trunc` is the quotient of
/// the magnitudes carrying the XOR of the signs.
proof fn lemma_div_trunc_magnitudes(va: int, vb: int)
    requires
        vb != 0,
    ensures
        div_trunc(va, vb) == if (va < 0) == (vb < 0) {
            (abs(va) / abs(vb)) as int
        } else {
            -((abs(va) / abs(vb)) as int)
        },
        rem_trunc(va, vb) == if va < 0 {
            -((abs(va) % abs(vb)) as int)
        } else {
            (abs(va) % abs(vb)) as int
        },
{
    let q = (abs(va) / abs(vb)) as int;
    let r = (abs(va) % abs(vb)) as int;
    lemma_fundamental_div_mod(abs(va) as int, abs(vb) as int);
    lemma_mul_unary_negation(vb, q);
    if va >= 0 && vb > 0 {
        assert(va - vb * q == r);
    } else if va >= 0 && vb < 0 {
        // abs(vb) == -vb, so vb * (-q) == (-vb) * q
        assert(va - vb * -q == r);
    } else if va < 0 && vb > 0 {
        // -va == vb * q + r
        assert(va - vb * -q == -r);
    } else {
        // -va == (-vb) * q + r
        assert(va - vb * q == -r);
    }
}

/// DIV: signed division with the architectural division-by-zero and
/// overflow results.
pub(crate) fn divide_signed(a: u32, b: u32) -> (r: u32)
    ensures
        r == div_signed(a, b),
{
    if b == 0 {
        return 0xFFFF_FFFF;
    }
    if a == 0x8000_0000 && b == 0xFFFF_FFFF {
        return 0x8000_0000;
    }
    let a_neg = a >= 0x8000_0000;
    let b_neg = b >= 0x8000_0000;
    let ua = if a_neg {
        0u32.wrapping_sub(a)
    } else {
        a
    };
    let ub = if b_neg {
        0u32.wrapping_sub(b)
    } else {
        b
    };
    let q = ua / ub;
    proof {
        lemma_magnitude(a);
        lemma_magnitude(b);
        lemma_div_trunc_magnitudes(signed32(a), signed32(b));
        if a_neg != b_neg {
            lemma_to_u32_neg(q as int);
        } else {
            lemma_to_u32_small(q as int);
        }
    }
    if a_neg != b_neg {
        0u32.wrapping_sub(q)
    } else {
        q
    }
}

/// DIVU: unsigned division with the architectural division-by-zero result.
pub(crate) fn divide_unsigned(a: u32, b: u32) -> (r: u32)
    ensures
        r == div_unsigned(a, b),
{
    if b == 0 {
        0xFFFF_FFFF
    } else {
        a / b
    }
}

/// REM: the remainder of signed division, sign following the dividend.
pub(crate) fn remainder_signed(a: u32, b: u32) -> (r: u32)
    ensures
        r == rem_signed(a, b),
{
    if b == 0 {
        return a;
    }
    if a == 0x8000_0000 && b == 0xFFFF_FFFF {
        return 0;
    }
    let a_neg = a >= 0x8000_0000;
    let b_neg = b >= 0x8000_0000;
    let ua = if a_neg {
        0u32.wrapping_sub(a)
    } else {
        a
    };
    let ub = if b_neg {
        0u32.wrapping_sub(b)
    } else {
        b
    };
    let m = ua % ub;
    proof {
        lemma_magnitude(a);
        lemma_magnitude(b);
        lemma_div_trunc_magnitudes(signed32(a), signed32(b));
        if a_neg {
            lemma_to_u32_neg(m as int);
        } else {
            lemma_to_u32_small(m as int);
        }
    }
    if a_neg {
        0u32.wrapping_sub(m)
    } else {
        m
    }
}

/// REMU: the remainder of unsigned division; by zero it yields the dividend.
pub(crate) fn remainder_unsigned(a: u32, b: u32) -> (r: u32)
    ensures
        r == rem_unsigned(a, b),
{
    if b == 0 {
        a
    } else {
        a % b
    }
}

} // verus!
