//! The architectural model of the RV32IMA hart: the machine state as a
//! mathematical value, and the meaning of every instruction as a function
//! from state to state.
//!
//! The executable decoder in `cpu` is proved against these definitions: its
//! postconditions say that one call moves the machine exactly as `sem_step`
//! says, or reports exactly the fault that `sem_step` says.

use crate::bits::{
    csr_of, div_signed, div_unsigned, funct12_of, funct3_of, funct5_of, funct7_of, imm_b_of,
    imm_i_of, imm_j_of, imm_s_of, imm_u_of, mul_high_ss, mul_high_su, mul_high_uu, opcode_of,
    rd_of, rem_signed, rem_unsigned, rs1_of, rs2_of, sext16, sext8, signed32, sra32,
};
use crate::memory::{byte_at, half_at, store_byte, store_half, store_word, word_at};
use crate::peripheral::{bus_read_val, bus_write_eff, devs_claim, DeviceView};
use vstd::prelude::*;

verus! {

/// The architecturally visible state of the hart: 32 general-purpose
/// registers, the program counter, and the CSR file.
pub struct CpuState {
    pub regs: Seq<u32>,
    pub pc: u32,
    pub csrs: Map<u16, u32>,
}

/// A well-formed state has exactly 32 registers.
pub open spec fn cpu_wf(s: CpuState) -> bool {
    s.regs.len() == 32
}

/// Reading register `r`: x0 always reads zero, an out-of-range index reads
/// zero as well.
pub open spec fn reg_read(s: CpuState, r: int) -> u32 {
    if 1 <= r < 32 {
        s.regs[r]
    } else {
        0
    }
}

/// Writing register `r`: a write to x0 or to an out-of-range index is
/// discarded.
pub open spec fn reg_write(s: CpuState, r: int, v: u32) -> CpuState {
    if 1 <= r < 32 {
        CpuState { regs: s.regs.update(r, v), pc: s.pc, csrs: s.csrs }
    } else {
        s
    }
}

/// Reading a CSR: an index never written reads zero.
pub open spec fn csr_read(s: CpuState, c: u16) -> u32 {
    if s.csrs.contains_key(c) {
        s.csrs[c]
    } else {
        0
    }
}

/// Writing a CSR: an unknown index is created on first write.
pub open spec fn csr_write(s: CpuState, c: u16, v: u32) -> CpuState {
    CpuState { regs: s.regs, pc: s.pc, csrs: s.csrs.insert(c, v) }
}

/// The state with the program counter replaced.
pub open spec fn with_pc(s: CpuState, pc: u32) -> CpuState {
    CpuState { regs: s.regs, pc: pc, csrs: s.csrs }
}

/// The state after an instruction that falls through: PC advances by 4.
pub open spec fn advance_pc(s: CpuState) -> CpuState {
    with_pc(s, s.pc.wrapping_add(4))
}

/// What one instruction does to the machine.
pub enum Outcome {
    /// The instruction executed; this is the next state.
    Next(CpuState, Map<u32, u8>),
    /// The encoding is not implemented; the state is unchanged.
    Trap,
    /// ECALL: the program asks to terminate; the state is unchanged.
    Halt,
}

/// What a SYSTEM-opcode instruction does to the hart.
pub enum SysEffect {
    Advance(CpuState),
    Unsupported,
    Terminate,
}

// ---------------------------------------------------------------------------
// Per-format semantics
// ---------------------------------------------------------------------------

/// OP-IMM: register-immediate computation. `None` is an encoding fault.
pub open spec fn sem_i_type(s: CpuState, i: u32) -> Option<CpuState> {
    let rd = rd_of(i);
    let v = reg_read(s, rs1_of(i));
    let imm = imm_i_of(i);
    match funct3_of(i) {
        0u32 => Some(advance_pc(reg_write(s, rd, v.wrapping_add(imm)))),
        2u32 => Some(
            advance_pc(
                reg_write(
                    s,
                    rd,
                    if signed32(v) < signed32(imm) {
                        1u32
                    } else {
                        0u32
                    },
                ),
            ),
        ),
        3u32 => Some(
            advance_pc(
                reg_write(
                    s,
                    rd,
                    if v < imm {
                        1u32
                    } else {
                        0u32
                    },
                ),
            ),
        ),
        4u32 => Some(advance_pc(reg_write(s, rd, v ^ imm))),
        6u32 => Some(advance_pc(reg_write(s, rd, v | imm))),
        7u32 => Some(advance_pc(reg_write(s, rd, v & imm))),
        1u32 => if imm & 0xFFE0 != 0 {
            None
        } else {
            Some(advance_pc(reg_write(s, rd, v << (imm & 0x1F))))
        },
        5u32 => {
            let arith = i & 0x4000_0000 != 0;
            if imm & 0xFFE0 != 0 && !arith {
                None
            } else if arith {
                Some(advance_pc(reg_write(s, rd, sra32(v, imm & 0x1F))))
            } else {
                Some(advance_pc(reg_write(s, rd, v >> (imm & 0x1F))))
            }
        },
        _ => None,
    }
}

/// The result of an M-extension operation selected by funct3.
pub open spec fn m_result(a: u32, b: u32, f3: u32) -> u32
    recommends
        f3 < 8,
{
    match f3 {
        0u32 => a.wrapping_mul(b),
        1u32 => mul_high_ss(a, b),
        2u32 => mul_high_su(a, b),
        3u32 => mul_high_uu(a, b),
        4u32 => div_signed(a, b),
        5u32 => div_unsigned(a, b),
        6u32 => rem_signed(a, b),
        7u32 => rem_unsigned(a, b),
        _ => 0u32,
    }
}

/// OP: register-register computation, including the M extension under
/// funct7 = 0x01. `None` is an encoding fault.
pub open spec fn sem_r_type(s: CpuState, i: u32) -> Option<CpuState> {
    let rd = rd_of(i);
    let a = reg_read(s, rs1_of(i));
    let b = reg_read(s, rs2_of(i));
    let f3 = funct3_of(i);
    let f7 = funct7_of(i);
    if f7 == 0x01 {
        Some(advance_pc(reg_write(s, rd, m_result(a, b, f3))))
    } else if f7 == 0x00 && f3 == 0x0 {
        Some(advance_pc(reg_write(s, rd, a.wrapping_add(b))))
    } else if f7 == 0x20 && f3 == 0x0 {
        Some(advance_pc(reg_write(s, rd, a.wrapping_sub(b))))
    } else if f7 == 0x00 && f3 == 0x1 {
        Some(advance_pc(reg_write(s, rd, a << (b & 0x1F))))
    } else if f7 == 0x00 && f3 == 0x2 {
        Some(
            advance_pc(
                reg_write(
                    s,
                    rd,
                    if signed32(a) < signed32(b) {
                        1u32
                    } else {
                        0u32
                    },
                ),
            ),
        )
    } else if f7 == 0x00 && f3 == 0x3 {
        Some(
            advance_pc(
                reg_write(
                    s,
                    rd,
                    if a < b {
                        1u32
                    } else {
                        0u32
                    },
                ),
            ),
        )
    } else if f7 == 0x00 && f3 == 0x4 {
        Some(advance_pc(reg_write(s, rd, a ^ b)))
    } else if f7 == 0x00 && f3 == 0x5 {
        Some(advance_pc(reg_write(s, rd, a >> (b & 0x1F))))
    } else if f7 == 0x20 && f3 == 0x5 {
        Some(advance_pc(reg_write(s, rd, sra32(a, b & 0x1F))))
    } else if f7 == 0x00 && f3 == 0x6 {
        Some(advance_pc(reg_write(s, rd, a | b)))
    } else if f7 == 0x00 && f3 == 0x7 {
        Some(advance_pc(reg_write(s, rd, a & b)))
    } else {
        None
    }
}

/// LOAD: byte, halfword or word, signed or unsigned, little-endian,
/// misaligned addresses serviced by byte composition.
pub open spec fn sem_load(s: CpuState, m: Map<u32, u8>, i: u32) -> Option<CpuState> {
    let rd = rd_of(i);
    let addr = reg_read(s, rs1_of(i)).wrapping_add(imm_i_of(i));
    match funct3_of(i) {
        0u32 => Some(advance_pc(reg_write(s, rd, sext8(byte_at(m, addr))))),
        1u32 => Some(advance_pc(reg_write(s, rd, sext16(half_at(m, addr))))),
        2u32 => Some(advance_pc(reg_write(s, rd, word_at(m, addr)))),
        4u32 => Some(advance_pc(reg_write(s, rd, byte_at(m, addr) as u32))),
        5u32 => Some(advance_pc(reg_write(s, rd, half_at(m, addr) as u32))),
        _ => None,
    }
}

/// STORE: byte, halfword or word, little-endian.
pub open spec fn sem_store(s: CpuState, m: Map<u32, u8>, i: u32) -> Option<(CpuState, Map<u32, u8>)> {
    let addr = reg_read(s, rs1_of(i)).wrapping_add(imm_s_of(i));
    let v = reg_read(s, rs2_of(i));
    match funct3_of(i) {
        0u32 => Some((advance_pc(s), store_byte(m, addr, v as u8))),
        1u32 => Some((advance_pc(s), store_half(m, addr, v as u16))),
        2u32 => Some((advance_pc(s), store_word(m, addr, v))),
        _ => None,
    }
}

/// Whether a branch with minor opcode `f3` is taken on operands `a`, `b`.
/// `None` is an encoding fault.
pub open spec fn branch_taken(a: u32, b: u32, f3: u32) -> Option<bool> {
    match f3 {
        0u32 => Some(a == b),
        1u32 => Some(a != b),
        4u32 => Some(signed32(a) < signed32(b)),
        5u32 => Some(signed32(a) >= signed32(b)),
        6u32 => Some(a < b),
        7u32 => Some(a >= b),
        _ => None,
    }
}

/// BRANCH: PC moves by the encoded offset when taken, else by 4.
pub open spec fn sem_branch(s: CpuState, i: u32) -> Option<CpuState> {
    match branch_taken(reg_read(s, rs1_of(i)), reg_read(s, rs2_of(i)), funct3_of(i)) {
        Some(taken) => Some(
            with_pc(
                s,
                if taken {
                    s.pc.wrapping_add(imm_b_of(i))
                } else {
                    s.pc.wrapping_add(4)
                },
            ),
        ),
        None => None,
    }
}

/// LUI: rd receives the upper immediate.
pub open spec fn sem_lui(s: CpuState, i: u32) -> CpuState {
    advance_pc(reg_write(s, rd_of(i), imm_u_of(i)))
}

/// AUIPC: rd receives PC plus the upper immediate.
pub open spec fn sem_auipc(s: CpuState, i: u32) -> CpuState {
    advance_pc(reg_write(s, rd_of(i), s.pc.wrapping_add(imm_u_of(i))))
}

/// JAL: rd receives the link address PC + 4; PC moves by the encoded offset.
pub open spec fn sem_jal(s: CpuState, i: u32) -> CpuState {
    with_pc(reg_write(s, rd_of(i), s.pc.wrapping_add(4)), s.pc.wrapping_add(imm_j_of(i)))
}

/// JALR: rd receives the link address; PC becomes rs1 plus the immediate
/// with the low bit cleared. funct3 must be zero.
pub open spec fn sem_jalr(s: CpuState, i: u32) -> Option<CpuState> {
    if funct3_of(i) != 0 {
        None
    } else {
        let target = reg_read(s, rs1_of(i)).wrapping_add(imm_i_of(i)) & !1u32;
        Some(with_pc(reg_write(s, rd_of(i), s.pc.wrapping_add(4)), target))
    }
}

/// SYSTEM: ECALL terminates, EBREAK is unsupported, MRET is a no-op, and the
/// six CSR instructions read the old CSR value into rd (skipped when rd is
/// x0) and then conditionally write the CSR.
pub open spec fn sem_system(s: CpuState, i: u32) -> SysEffect {
    let f3 = funct3_of(i);
    let rd = rd_of(i);
    let rs1 = rs1_of(i);
    let c = csr_of(i);
    let old_v = csr_read(s, c);
    if f3 == 0 {
        if funct12_of(i) == 0x000 {
            SysEffect::Terminate
        } else if funct12_of(i) == 0x302 {
            SysEffect::Advance(advance_pc(s))
        } else {
            SysEffect::Unsupported
        }
    } else if f3 == 1 {
        // CSRRW: rd is written before the write source rs1 is read.
        let s1 = if rd != 0 {
            reg_write(s, rd, old_v)
        } else {
            s
        };
        SysEffect::Advance(advance_pc(csr_write(s1, c, reg_read(s1, rs1))))
    } else if f3 == 2 {
        // CSRRS: the write happens only when rs1 is not x0.
        let s1 = if rs1 != 0 {
            csr_write(s, c, old_v | reg_read(s, rs1))
        } else {
            s
        };
        SysEffect::Advance(advance_pc(reg_write(s1, rd, old_v)))
    } else if f3 == 3 {
        // CSRRC: the write happens only when rs1 is not x0.
        let s1 = if rs1 != 0 {
            csr_write(s, c, old_v & !reg_read(s, rs1))
        } else {
            s
        };
        SysEffect::Advance(advance_pc(reg_write(s1, rd, old_v)))
    } else if f3 == 5 {
        // CSRRWI: the rs1 field is a 5-bit zero-extended immediate.
        let s1 = if rd != 0 {
            reg_write(s, rd, old_v)
        } else {
            s
        };
        SysEffect::Advance(advance_pc(csr_write(s1, c, rs1 as u32)))
    } else if f3 == 6 {
        // CSRRSI: the write happens only when the immediate is non-zero.
        let s1 = if rs1 != 0 {
            csr_write(s, c, old_v | (rs1 as u32))
        } else {
            s
        };
        SysEffect::Advance(advance_pc(reg_write(s1, rd, old_v)))
    } else if f3 == 7 {
        // CSRRCI: the write happens only when the immediate is non-zero.
        let s1 = if rs1 != 0 {
            csr_write(s, c, old_v & !(rs1 as u32))
        } else {
            s
        };
        SysEffect::Advance(advance_pc(reg_write(s1, rd, old_v)))
    } else {
        SysEffect::Unsupported
    }
}

/// The memory word an AMO leaves at its address, selected by funct5.
/// `None` is an encoding fault.
pub open spec fn amo_result(old_v: u32, src: u32, f5: u32) -> Option<u32> {
    match f5 {
        0x01u32 => Some(src),
        0x00u32 => Some(old_v.wrapping_add(src)),
        0x04u32 => Some(old_v ^ src),
        0x0Cu32 => Some(old_v & src),
        0x08u32 => Some(old_v | src),
        0x10u32 => Some(
            if signed32(old_v) < signed32(src) {
                old_v
            } else {
                src
            },
        ),
        0x14u32 => Some(
            if signed32(old_v) > signed32(src) {
                old_v
            } else {
                src
            },
        ),
        0x18u32 => Some(
            if old_v < src {
                old_v
            } else {
                src
            },
        ),
        0x1Cu32 => Some(
            if old_v > src {
                old_v
            } else {
                src
            },
        ),
        _ => None,
    }
}

/// AMO: word-sized read-modify-write at the address in rs1; rd receives the
/// pre-operation value. LR.W is a plain load (no reservation is tracked) and
/// SC.W is a plain store that always reports success. funct3 must be 0x2.
pub open spec fn sem_atomic(s: CpuState, m: Map<u32, u8>, i: u32) -> Option<
    (CpuState, Map<u32, u8>),
> {
    if funct3_of(i) != 0x2 {
        None
    } else {
        let rd = rd_of(i);
        let addr = reg_read(s, rs1_of(i));
        let src = reg_read(s, rs2_of(i));
        let f5 = funct5_of(i);
        if f5 == 0x02 {
            Some((advance_pc(reg_write(s, rd, word_at(m, addr))), m))
        } else if f5 == 0x03 {
            Some((advance_pc(reg_write(s, rd, 0u32)), store_word(m, addr, src)))
        } else {
            match amo_result(word_at(m, addr), src, f5) {
                Some(nv) => Some(
                    (advance_pc(reg_write(s, rd, word_at(m, addr))), store_word(m, addr, nv)),
                ),
                None => None,
            }
        }
    }
}

/// MISC-MEM: FENCE and FENCE.I only advance the PC; any other minor opcode
/// is an encoding fault.
pub open spec fn sem_fence(s: CpuState, i: u32) -> Option<CpuState> {
    if funct3_of(i) == 0x0 || funct3_of(i) == 0x1 {
        Some(advance_pc(s))
    } else {
        None
    }
}

// ---------------------------------------------------------------------------
// One whole instruction
// ---------------------------------------------------------------------------

/// Lifts a CPU-only result into an `Outcome`, keeping memory.
pub open spec fn lift_cpu(r: Option<CpuState>, m: Map<u32, u8>) -> Outcome {
    match r {
        Some(s2) => Outcome::Next(s2, m),
        None => Outcome::Trap,
    }
}

/// Lifts a CPU-and-memory result into an `Outcome`.
pub open spec fn lift_pair(r: Option<(CpuState, Map<u32, u8>)>) -> Outcome {
    match r {
        Some((s2, m2)) => Outcome::Next(s2, m2),
        None => Outcome::Trap,
    }
}

/// What executing instruction word `i` in state `(s, m)` does.
pub open spec fn sem_execute(s: CpuState, m: Map<u32, u8>, i: u32) -> Outcome {
    let op = opcode_of(i);
    if op == 0x13 {
        lift_cpu(sem_i_type(s, i), m)
    } else if op == 0x33 {
        lift_cpu(sem_r_type(s, i), m)
    } else if op == 0x03 {
        lift_cpu(sem_load(s, m, i), m)
    } else if op == 0x23 {
        lift_pair(sem_store(s, m, i))
    } else if op == 0x63 {
        lift_cpu(sem_branch(s, i), m)
    } else if op == 0x37 {
        Outcome::Next(sem_lui(s, i), m)
    } else if op == 0x17 {
        Outcome::Next(sem_auipc(s, i), m)
    } else if op == 0x6F {
        Outcome::Next(sem_jal(s, i), m)
    } else if op == 0x67 {
        lift_cpu(sem_jalr(s, i), m)
    } else if op == 0x73 {
        match sem_system(s, i) {
            SysEffect::Advance(s2) => Outcome::Next(s2, m),
            SysEffect::Unsupported => Outcome::Trap,
            SysEffect::Terminate => Outcome::Halt,
        }
    } else if op == 0x2F {
        lift_pair(sem_atomic(s, m, i))
    } else if op == 0x0F {
        lift_cpu(sem_fence(s, i), m)
    } else {
        Outcome::Trap
    }
}

/// One step of the hart: fetch the word at PC, then execute it.
pub open spec fn sem_step(s: CpuState, m: Map<u32, u8>) -> Outcome {
    sem_execute(s, m, word_at(m, s.pc))
}

/// The result of running the hart with an instruction budget: the final
/// state and the number of instructions executed. The count includes a
/// terminating ECALL; a fault stops the run without being counted.
pub open spec fn sem_run(s: CpuState, m: Map<u32, u8>, budget: nat) -> (CpuState, Map<u32, u8>, nat)
    decreases budget,
{
    if budget == 0 {
        (s, m, 0nat)
    } else {
        match sem_step(s, m) {
            Outcome::Next(s2, m2) => {
                let rr = sem_run(s2, m2, (budget - 1) as nat);
                (rr.0, rr.1, (rr.2 + 1) as nat)
            },
            Outcome::Trap => (s, m, 0nat),
            Outcome::Halt => (s, m, 1nat),
        }
    }
}


// ---------------------------------------------------------------------------
// Execution over the bus: peripherals take word-sized accesses to the
// address ranges they claim; everything else goes to main memory
// ---------------------------------------------------------------------------

/// What one instruction does to the machine when devices are attached.
pub enum OutcomeDev {
    /// The instruction executed; this is the next state.
    Next(CpuState, Map<u32, u8>, Seq<DeviceView>),
    /// The encoding is not implemented, or a non-word access touched a
    /// device; the state is unchanged.
    Trap,
    /// ECALL: the program asks to terminate; the state is unchanged.
    Halt,
}

/// What executing instruction word `i` does with devices attached. A load or
/// store whose address a device claims must be word-sized and goes to the
/// device; an atomic to a claimed address is refused; everything else
/// behaves as without devices.
pub open spec fn sem_execute_devices(
    s: CpuState,
    m: Map<u32, u8>,
    devs: Seq<DeviceView>,
    i: u32,
) -> OutcomeDev {
    let op = opcode_of(i);
    if op == 0x03 {
        let addr = reg_read(s, rs1_of(i)).wrapping_add(imm_i_of(i));
        if devs_claim(devs, addr) {
            if funct3_of(i) == 0x2 {
                OutcomeDev::Next(
                    advance_pc(reg_write(s, rd_of(i), bus_read_val(devs, addr))),
                    m,
                    devs,
                )
            } else {
                OutcomeDev::Trap
            }
        } else {
            match sem_load(s, m, i) {
                Some(s2) => OutcomeDev::Next(s2, m, devs),
                None => OutcomeDev::Trap,
            }
        }
    } else if op == 0x23 {
        let addr = reg_read(s, rs1_of(i)).wrapping_add(imm_s_of(i));
        if devs_claim(devs, addr) {
            if funct3_of(i) == 0x2 {
                OutcomeDev::Next(
                    advance_pc(s),
                    m,
                    bus_write_eff(devs, addr, reg_read(s, rs2_of(i))),
                )
            } else {
                OutcomeDev::Trap
            }
        } else {
            match sem_store(s, m, i) {
                Some((s2, m2)) => OutcomeDev::Next(s2, m2, devs),
                None => OutcomeDev::Trap,
            }
        }
    } else if op == 0x2F {
        let addr = reg_read(s, rs1_of(i));
        if devs_claim(devs, addr) {
            OutcomeDev::Trap
        } else {
            match sem_atomic(s, m, i) {
                Some((s2, m2)) => OutcomeDev::Next(s2, m2, devs),
                None => OutcomeDev::Trap,
            }
        }
    } else {
        match sem_execute(s, m, i) {
            Outcome::Next(s2, m2) => OutcomeDev::Next(s2, m2, devs),
            Outcome::Trap => OutcomeDev::Trap,
            Outcome::Halt => OutcomeDev::Halt,
        }
    }
}

/// One step with devices attached: fetch from main memory at PC, then
/// execute over the bus.
pub open spec fn sem_step_devices(s: CpuState, m: Map<u32, u8>, devs: Seq<DeviceView>) -> OutcomeDev {
    sem_execute_devices(s, m, devs, word_at(m, s.pc))
}

/// Running with devices attached under an instruction budget: the final
/// machine and device states and the number of instructions executed.
pub open spec fn sem_run_devices(
    s: CpuState,
    m: Map<u32, u8>,
    devs: Seq<DeviceView>,
    budget: nat,
) -> (CpuState, Map<u32, u8>, Seq<DeviceView>, nat)
    decreases budget,
{
    if budget == 0 {
        (s, m, devs, 0nat)
    } else {
        match sem_step_devices(s, m, devs) {
            OutcomeDev::Next(s2, m2, d2) => {
                let rr = sem_run_devices(s2, m2, d2, (budget - 1) as nat);
                (rr.0, rr.1, rr.2, (rr.3 + 1) as nat)
            },
            OutcomeDev::Trap => (s, m, devs, 0nat),
            OutcomeDev::Halt => (s, m, devs, 1nat),
        }
    }
}

} // verus!
