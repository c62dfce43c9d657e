//! Laws of the machine model: properties that hold of every state and every
//! input, each proved once and for all over the same spec functions that the
//! executable engine's contracts use.

use crate::bits::{
    div_signed, div_unsigned, opcode_of, rem_signed, rem_unsigned, word_from_bytes,
};
use crate::isa::{cpu_wf, reg_read, reg_write, sem_step, CpuState, Outcome};
use crate::memory::{byte_at, store_word, word_at};
use vstd::arithmetic::div_mod::lemma_fundamental_div_mod_converse_mod;
use vstd::prelude::*;

verus! {

/// Writing a valid register (x1 through x31) and reading it back yields the
/// written value; no other register changes.
pub proof fn lemma_register_roundtrip(s: CpuState, r: int, v: u32)
    requires
        cpu_wf(s),
        1 <= r < 32,
    ensures
        reg_read(reg_write(s, r, v), r) == v,
        forall|q: int| q != r ==> reg_read(reg_write(s, r, v), q) == reg_read(s, q),
{
}

/// Register x0 reads zero in every state, and a write to it is discarded.
pub proof fn lemma_register_zero_reads_zero(s: CpuState, v: u32)
    ensures
        reg_read(s, 0) == 0,
        reg_write(s, 0, v) == s,
{
}

/// ADD and SUB wrap silently: the result is the sum or difference modulo
/// 2^32, for all operands.
pub proof fn lemma_add_sub_wraparound(a: u32, b: u32)
    ensures
        a.wrapping_add(b) as int == (a as int + b as int) % 0x1_0000_0000,
        a.wrapping_sub(b) as int == (a as int - b as int) % 0x1_0000_0000,
{
    if (a as int + b as int) >= 0x1_0000_0000 {
        lemma_fundamental_div_mod_converse_mod(
            a as int + b as int,
            0x1_0000_0000,
            1,
            a as int + b as int - 0x1_0000_0000,
        );
    } else {
        lemma_fundamental_div_mod_converse_mod(a as int + b as int, 0x1_0000_0000, 0, a as int + b as int);
    }
    if (a as int - b as int) < 0 {
        lemma_fundamental_div_mod_converse_mod(
            a as int - b as int,
            0x1_0000_0000,
            -1,
            a as int - b as int + 0x1_0000_0000,
        );
    } else {
        lemma_fundamental_div_mod_converse_mod(a as int - b as int, 0x1_0000_0000, 0, a as int - b as int);
    }
}

/// Division by zero never faults: DIV and DIVU yield all ones, REM and REMU
/// yield the dividend, for every dividend.
pub proof fn lemma_div_rem_by_zero(a: u32)
    ensures
        div_signed(a, 0) == 0xFFFF_FFFFu32,
        div_unsigned(a, 0) == 0xFFFF_FFFFu32,
        rem_signed(a, 0) == a,
        rem_unsigned(a, 0) == a,
{
}

/// Storing a word at any address — misaligned included — and reading it back
/// at that address yields the stored word.
pub proof fn lemma_word_roundtrip(m: Map<u32, u8>, addr: u32, w: u32)
    ensures
        word_at(store_word(m, addr, w), addr) == w,
{
    let m2 = store_word(m, addr, w);
    assert(addr.wrapping_add(1) != addr && addr.wrapping_add(2) != addr && addr.wrapping_add(3)
        != addr && addr.wrapping_add(1) != addr.wrapping_add(2) && addr.wrapping_add(1)
        != addr.wrapping_add(3) && addr.wrapping_add(2) != addr.wrapping_add(3));
    assert(byte_at(m2, addr) == (w & 0xFF) as u8);
    assert(byte_at(m2, addr.wrapping_add(1)) == ((w >> 8) & 0xFF) as u8);
    assert(byte_at(m2, addr.wrapping_add(2)) == ((w >> 16) & 0xFF) as u8);
    assert(byte_at(m2, addr.wrapping_add(3)) == ((w >> 24) & 0xFF) as u8);
    assert(word_from_bytes(
        (w & 0xFF) as u8,
        ((w >> 8) & 0xFF) as u8,
        ((w >> 16) & 0xFF) as u8,
        ((w >> 24) & 0xFF) as u8,
    ) == w) by (bit_vector);
}

/// An opcode outside the implemented set faults as unsupported, and by the
/// step contract a fault leaves the whole machine state unchanged.
pub proof fn lemma_unknown_opcode_traps(s: CpuState, m: Map<u32, u8>)
    requires
        ({
            let op = opcode_of(word_at(m, s.pc));
            &&& op != 0x13
            &&& op != 0x33
            &&& op != 0x03
            &&& op != 0x23
            &&& op != 0x63
            &&& op != 0x37
            &&& op != 0x17
            &&& op != 0x6F
            &&& op != 0x67
            &&& op != 0x73
            &&& op != 0x2F
            &&& op != 0x0F
        }),
    ensures
        sem_step(s, m) is Trap,
{
}

} // verus!
