//! Bit-level building blocks of the instruction set: field extraction from a
//! 32-bit instruction word, immediate reconstruction with sign extension,
//! and the two's-complement arithmetic that the instruction semantics use.

use vstd::math::abs;
use vstd::prelude::*;

verus! {

// ---------------------------------------------------------------------------
// Two's-complement interpretation of 32-bit words
// ---------------------------------------------------------------------------

/// The signed value that a 32-bit word represents in two's complement.
pub open spec fn signed32(x: u32) -> int {
    if x < 0x8000_0000 {
        x as int
    } else {
        x as int - 0x1_0000_0000
    }
}

/// The 32-bit word that represents `v` modulo 2^32.
pub open spec fn to_u32(v: int) -> u32 {
    (v % 0x1_0000_0000) as u32
}

/// Casting a word to `i32` yields exactly its two's-complement value.
pub proof fn lemma_signed32_cast(x: u32)
    ensures
        (x as i32) as int == signed32(x),
{
    assert((x as i32) as int == if x < 0x8000_0000 {
        x as int
    } else {
        x as int - 0x1_0000_0000
    }) by (bit_vector);
}

/// A `u32 -> i32 -> u32` cast round trip returns the original word.
pub proof fn lemma_i32_roundtrip(x: u32)
    ensures
        ((x as i32) as u32) == x,
{
    assert(((x as i32) as u32) == x) by (bit_vector);
}

// ---------------------------------------------------------------------------
// Instruction fields
// ---------------------------------------------------------------------------

/// Low 7 bits: the major opcode.
pub open spec fn opcode_of(i: u32) -> u32 {
    i & 0x7F
}

/// Bits 7..=11: the destination register index.
pub open spec fn rd_of(i: u32) -> int {
    ((i >> 7) & 0x1F) as int
}

/// Bits 12..=14: the minor opcode.
pub open spec fn funct3_of(i: u32) -> u32 {
    (i >> 12) & 0x7
}

/// Bits 15..=19: the first source register index.
pub open spec fn rs1_of(i: u32) -> int {
    ((i >> 15) & 0x1F) as int
}

/// Bits 20..=24: the second source register index.
pub open spec fn rs2_of(i: u32) -> int {
    ((i >> 20) & 0x1F) as int
}

/// Bits 25..=31: the funct7 field of an R-type instruction.
pub open spec fn funct7_of(i: u32) -> u32 {
    (i >> 25) & 0x7F
}

/// Bits 27..=31: the funct5 field selecting an atomic operation.
pub open spec fn funct5_of(i: u32) -> u32 {
    (i >> 27) & 0x1F
}

/// Bits 20..=31: the funct12 field of a SYSTEM instruction.
pub open spec fn funct12_of(i: u32) -> u32 {
    i >> 20
}

/// Bits 20..=31 as a CSR index.
pub open spec fn csr_of(i: u32) -> u16 {
    ((i >> 20) & 0xFFF) as u16
}

/// Every 5-bit register field is below 32, and related field bounds.
pub proof fn lemma_field_bounds(x: u32)
    ensures
        (x >> 7) & 0x1F < 32,
        (x >> 15) & 0x1F < 32,
        (x >> 20) & 0x1F < 32,
        x & 0x1F < 32,
        (x >> 12) & 0x7 < 8,
{
    assert(((x >> 7) & 0x1F < 32) && ((x >> 15) & 0x1F < 32) && ((x >> 20) & 0x1F < 32) && (x
        & 0x1F < 32) && ((x >> 12) & 0x7 < 8)) by (bit_vector);
}

// ---------------------------------------------------------------------------
// Immediates
// ---------------------------------------------------------------------------

/// The sign-extended 12-bit I-type immediate (bits 20..=31).
pub open spec fn imm_i_of(i: u32) -> u32 {
    if i & 0x8000_0000 != 0 {
        (i >> 20) | 0xFFFF_F000
    } else {
        i >> 20
    }
}

/// The sign-extended 12-bit S-type immediate, split over bits 7..=11 and
/// 25..=31.
pub open spec fn imm_s_of(i: u32) -> u32 {
    let v = (((i >> 25) & 0x7F) << 5) | ((i >> 7) & 0x1F);
    if v & 0x800 != 0 {
        v | 0xFFFF_F000
    } else {
        v
    }
}

/// The sign-extended 13-bit B-type branch offset (bit 0 implicitly zero).
pub open spec fn imm_b_of(i: u32) -> u32 {
    let v = (((i >> 31) & 0x1) << 12) | (((i >> 7) & 0x1) << 11) | (((i >> 25) & 0x3F) << 5) | (((i
        >> 8) & 0xF) << 1);
    if v & 0x1000 != 0 {
        v | 0xFFFF_E000
    } else {
        v
    }
}

/// The upper-immediate of LUI/AUIPC: bits 12..=31 with the low 12 cleared.
pub open spec fn imm_u_of(i: u32) -> u32 {
    i & 0xFFFF_F000
}

/// The sign-extended 21-bit J-type jump offset (bit 0 implicitly zero).
pub open spec fn imm_j_of(i: u32) -> u32 {
    let v = (((i >> 31) & 0x1) << 20) | (((i >> 12) & 0xFF) << 12) | (((i >> 20) & 0x1) << 11) | ((
    (i >> 21) & 0x3FF) << 1);
    if v & 0x10_0000 != 0 {
        v | 0xFFE0_0000
    } else {
        v
    }
}

// ---------------------------------------------------------------------------
// Shifts, multiplication high halves, division
// ---------------------------------------------------------------------------

/// Arithmetic right shift: the sign bit is replicated into the vacated bits.
pub open spec fn sra32(x: u32, sh: u32) -> u32
    recommends
        sh < 32,
{
    if x & 0x8000_0000 != 0 {
        (x >> sh) | !(0xFFFF_FFFFu32 >> sh)
    } else {
        x >> sh
    }
}

/// Truncated integer division (rounds toward zero), as RISC-V defines DIV.
pub open spec fn div_trunc(a: int, b: int) -> int
    recommends
        b != 0,
{
    if (a < 0) == (b < 0) {
        (abs(a) / abs(b)) as int
    } else {
        -((abs(a) / abs(b)) as int)
    }
}

/// The remainder matching `div_trunc`: `a == b * div_trunc(a, b) + rem_trunc(a, b)`.
pub open spec fn rem_trunc(a: int, b: int) -> int
    recommends
        b != 0,
{
    a - b * div_trunc(a, b)
}

/// DIV: signed division; division by zero yields all ones, and the overflow
/// case INT32_MIN / -1 yields the dividend, as the architecture defines.
pub open spec fn div_signed(a: u32, b: u32) -> u32 {
    if b == 0 {
        0xFFFF_FFFFu32
    } else if a == 0x8000_0000 && b == 0xFFFF_FFFF {
        0x8000_0000
    } else {
        to_u32(div_trunc(signed32(a), signed32(b)))
    }
}

/// REM: the remainder of signed division; by zero it yields the dividend,
/// and the overflow case INT32_MIN % -1 yields zero.
pub open spec fn rem_signed(a: u32, b: u32) -> u32 {
    if b == 0 {
        a
    } else if a == 0x8000_0000 && b == 0xFFFF_FFFF {
        0u32
    } else {
        to_u32(rem_trunc(signed32(a), signed32(b)))
    }
}

/// DIVU: unsigned division; division by zero yields all ones.
pub open spec fn div_unsigned(a: u32, b: u32) -> u32 {
    if b == 0 {
        0xFFFF_FFFFu32
    } else {
        (a as int / b as int) as u32
    }
}

/// REMU: the remainder of unsigned division; by zero it yields the dividend.
pub open spec fn rem_unsigned(a: u32, b: u32) -> u32 {
    if b == 0 {
        a
    } else {
        (a as int % b as int) as u32
    }
}

/// MULH: the upper 32 bits of the signed 64-bit product.
pub open spec fn mul_high_ss(a: u32, b: u32) -> u32 {
    to_u32((signed32(a) * signed32(b)) / 0x1_0000_0000)
}

/// MULHSU: the upper 32 bits of the product of signed `a` and unsigned `b`.
pub open spec fn mul_high_su(a: u32, b: u32) -> u32 {
    to_u32((signed32(a) * (b as int)) / 0x1_0000_0000)
}

/// MULHU: the upper 32 bits of the unsigned 64-bit product.
pub open spec fn mul_high_uu(a: u32, b: u32) -> u32 {
    to_u32(((a as int) * (b as int)) / 0x1_0000_0000)
}

// ---------------------------------------------------------------------------
// Bytes, halfwords, words
// ---------------------------------------------------------------------------

/// Little-endian composition of two bytes into a halfword.
pub open spec fn half_from_bytes(b0: u8, b1: u8) -> u16 {
    (b0 as u16) | ((b1 as u16) << 8)
}

/// Little-endian composition of four bytes into a word.
pub open spec fn word_from_bytes(b0: u8, b1: u8, b2: u8, b3: u8) -> u32 {
    (b0 as u32) | ((b1 as u32) << 8) | ((b2 as u32) << 16) | ((b3 as u32) << 24)
}

/// Sign extension of a byte to a word.
pub open spec fn sext8(b: u8) -> u32 {
    if b & 0x80 != 0 {
        (b as u32) | 0xFFFF_FF00
    } else {
        b as u32
    }
}

/// Sign extension of a halfword to a word.
pub open spec fn sext16(h: u16) -> u32 {
    if (h as u32) & 0x8000 != 0 {
        (h as u32) | 0xFFFF_0000
    } else {
        h as u32
    }
}

} // verus!
