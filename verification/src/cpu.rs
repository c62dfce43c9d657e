//! The hart: register file, CSR file, program counter, and the
//! fetch-decode-execute engine, proved against the model in `isa`.

use crate::alu::{
    divide_signed, divide_unsigned, mul_high_signed, mul_high_signed_unsigned, mul_high_unsigned,
    remainder_signed, remainder_unsigned,
};
use crate::bits::{
    funct3_of, imm_i_of, imm_s_of, lemma_field_bounds, lemma_i32_roundtrip, lemma_signed32_cast,
    rd_of, rs1_of, rs2_of, signed32, sra32,
};
use crate::isa::{
    advance_pc, cpu_wf, csr_read, csr_write, m_result, reg_read, reg_write, sem_atomic, sem_auipc,
    sem_branch, sem_execute, sem_i_type, sem_jal, sem_jalr, sem_load, sem_lui, sem_r_type,
    sem_run, sem_step, sem_store, sem_system, CpuState, Outcome, SysEffect,
};
use crate::isa::{sem_execute_devices, sem_run_devices, sem_step_devices, OutcomeDev};
use crate::memory::{store_word, Memory};
use crate::peripheral::{bus_read_val, bus_write_eff, devs_claim, PeripheralManager};
use crate::EmulatorError;
use std::collections::HashMap;
use vstd::prelude::*;

verus! {

broadcast use vstd::std_specs::hash::group_hash_axioms;

/// The number of general-purpose registers (x0 through x31).
pub const NUM_REGISTERS: usize = 32;

/// The architectural state of one hart.
pub struct Cpu {
    /// General-purpose registers x0 through x31.
    pub registers: Vec<u32>,
    /// Program counter.
    pub pc: u32,
    /// Control and status registers, keyed by their 12-bit index.
    pub csrs: HashMap<u16, u32>,
}

impl View for Cpu {
    type V = CpuState;

    open spec fn view(&self) -> CpuState {
        CpuState { regs: self.registers@, pc: self.pc, csrs: self.csrs@ }
    }
}

/// A freshly constructed or reset hart: PC zero, all registers zero, every
/// CSR reads zero.
pub open spec fn fresh_cpu(s: CpuState) -> bool {
    &&& cpu_wf(s)
    &&& s.pc == 0
    &&& forall|j: int| 0 <= j < 32 ==> s.regs[j] == 0
    &&& forall|c: u16| csr_read(s, c) == 0
}

impl Cpu {
    /// The state has exactly 32 registers.
    pub open spec fn wf(&self) -> bool {
        cpu_wf(self@)
    }

    /// A new hart in its reset state, with the architectural machine-mode
    /// CSRs pre-seeded to zero.
    pub fn new() -> (r: Cpu)
        ensures
            r.wf(),
            fresh_cpu(r@),
    {
        let mut registers: Vec<u32> = Vec::new();
        let mut j: usize = 0;
        while j < NUM_REGISTERS
            invariant
                j <= 32,
                registers@.len() == j,
                forall|k: int| 0 <= k < j ==> registers@[k] == 0,
            decreases 32 - j,
        {
            registers.push(0);
            j = j + 1;
        }
        let mut cpu = Cpu { registers, pc: 0, csrs: HashMap::new() };
        cpu.seed_csrs();
        cpu
    }

    /// Put the hart back in its reset state.
    pub fn reset(&mut self)
        requires
            old(self).wf(),
        ensures
            final(self).wf(),
            fresh_cpu(final(self)@),
    {
        let mut j: usize = 0;
        while j < NUM_REGISTERS
            invariant
                j <= 32,
                self.registers@.len() == 32,
                self.pc == old(self).pc,
                forall|k: int| 0 <= k < j ==> self.registers@[k] == 0,
            decreases 32 - j,
        {
            self.registers.set(j, 0);
            j = j + 1;
        }
        self.pc = 0;
        self.csrs.clear();
        self.seed_csrs();
    }

    /// Insert the architectural machine-mode CSRs, all zero: mstatus, mie,
    /// mtvec, mscratch, mepc, mcause, mtval, mip, the identification
    /// registers, and the counters.
    fn seed_csrs(&mut self)
        requires
            old(self).csrs@ == Map::<u16, u32>::empty(),
        ensures
            final(self).registers == old(self).registers,
            final(self).pc == old(self).pc,
            forall|c: u16| csr_read(final(self)@, c) == 0u32,
    {
        self.csrs.insert(0xF14, 0);  // mhartid
        self.csrs.insert(0x300, 0);  // mstatus
        self.csrs.insert(0x341, 0);  // mepc
        self.csrs.insert(0x342, 0);  // mcause
        self.csrs.insert(0x343, 0);  // mtval
        self.csrs.insert(0x344, 0);  // mip
        self.csrs.insert(0x304, 0);  // mie
        self.csrs.insert(0x305, 0);  // mtvec
        self.csrs.insert(0x340, 0);  // mscratch
        self.csrs.insert(0xF11, 0);  // mvendorid
        self.csrs.insert(0xF12, 0);  // marchid
        self.csrs.insert(0xF13, 0);  // mimpid
        self.csrs.insert(0xC00, 0);  // cycle
        self.csrs.insert(0xC01, 0);  // time
        self.csrs.insert(0xC02, 0);  // instret
    }

    /// Read a register: x0 always reads zero, and an out-of-range index
    /// reads zero.
    pub fn read_register(&self, reg: usize) -> (r: u32)
        requires
            self.wf(),
        ensures
            r == reg_read(self@, reg as int),
    {
        if reg == 0 {
            0
        } else if reg < NUM_REGISTERS {
            self.registers[reg]
        } else {
            0
        }
    }

    /// Write a register: a write to x0 or to an out-of-range index is
    /// discarded.
    pub fn write_register(&mut self, reg: usize, value: u32)
        requires
            old(self).wf(),
        ensures
            final(self).wf(),
            final(self)@ == reg_write(old(self)@, reg as int, value),
    {
        if reg != 0 && reg < NUM_REGISTERS {
            self.registers.set(reg, value);
        }
    }

    /// Read a CSR: an index never written reads zero.
    pub fn read_csr(&self, csr: u16) -> (r: u32)
        ensures
            r == csr_read(self@, csr),
    {
        match self.csrs.get(&csr) {
            Some(v) => *v,
            None => 0,
        }
    }

    /// Write a CSR: an unknown index is created on first write.
    pub fn write_csr(&mut self, csr: u16, value: u32)
        requires
            old(self).wf(),
        ensures
            final(self).wf(),
            final(self)@ == csr_write(old(self)@, csr, value),
    {
        self.csrs.insert(csr, value);
    }

    // -----------------------------------------------------------------------
    // OP-IMM: register-immediate computation
    // -----------------------------------------------------------------------

    /// ADDI: rd = rs1 + imm, wrapping.
    pub fn execute_addi(&mut self, rd: usize, rs1: usize, imm: i32) -> (r: Result<
        (),
        EmulatorError,
    >)
        requires
            old(self).wf(),
        ensures
            final(self).wf(),
            rd < 32 && rs1 < 32 ==> r == Ok::<(), EmulatorError>(()) && final(self)@ == advance_pc(
                reg_write(
                    old(self)@,
                    rd as int,
                    reg_read(old(self)@, rs1 as int).wrapping_add(imm as u32),
                ),
            ),
            !(rd < 32 && rs1 < 32) ==> r == Err::<(), EmulatorError>(
                EmulatorError::UnsupportedInstruction,
            ) && final(self)@ == old(self)@,
    {
        if rd >= NUM_REGISTERS || rs1 >= NUM_REGISTERS {
            return Err(EmulatorError::UnsupportedInstruction);
        }
        let rs1_value = self.read_register(rs1);
        let result = rs1_value.wrapping_add(imm as u32);
        self.write_register(rd, result);
        self.pc = self.pc.wrapping_add(4);
        Ok(())
    }

    /// SLTI: rd = 1 if rs1 < imm as signed values, else 0.
    pub fn execute_slti(&mut self, rd: usize, rs1: usize, imm: i32) -> (r: Result<
        (),
        EmulatorError,
    >)
        requires
            old(self).wf(),
        ensures
            final(self).wf(),
            rd < 32 && rs1 < 32 ==> r == Ok::<(), EmulatorError>(()) && final(self)@ == advance_pc(
                reg_write(
                    old(self)@,
                    rd as int,
                    if signed32(reg_read(old(self)@, rs1 as int)) < imm as int {
                        1u32
                    } else {
                        0u32
                    },
                ),
            ),
            !(rd < 32 && rs1 < 32) ==> r == Err::<(), EmulatorError>(
                EmulatorError::UnsupportedInstruction,
            ) && final(self)@ == old(self)@,
    {
        if rd >= NUM_REGISTERS || rs1 >= NUM_REGISTERS {
            return Err(EmulatorError::UnsupportedInstruction);
        }
        let a = self.read_register(rs1);
        proof {
            lemma_signed32_cast(a);
        }
        let result: u32 = if (a as i32) < imm {
            1
        } else {
            0
        };
        self.write_register(rd, result);
        self.pc = self.pc.wrapping_add(4);
        Ok(())
    }

    /// SLTIU: rd = 1 if rs1 < imm as unsigned values (imm sign-extended,
    /// then treated unsigned), else 0.
    pub fn execute_sltiu(&mut self, rd: usize, rs1: usize, imm: i32) -> (r: Result<
        (),
        EmulatorError,
    >)
        requires
            old(self).wf(),
        ensures
            final(self).wf(),
            rd < 32 && rs1 < 32 ==> r == Ok::<(), EmulatorError>(()) && final(self)@ == advance_pc(
                reg_write(
                    old(self)@,
                    rd as int,
                    if reg_read(old(self)@, rs1 as int) < imm as u32 {
                        1u32
                    } else {
                        0u32
                    },
                ),
            ),
            !(rd < 32 && rs1 < 32) ==> r == Err::<(), EmulatorError>(
                EmulatorError::UnsupportedInstruction,
            ) && final(self)@ == old(self)@,
    {
        if rd >= NUM_REGISTERS || rs1 >= NUM_REGISTERS {
            return Err(EmulatorError::UnsupportedInstruction);
        }
        let a = self.read_register(rs1);
        let imm_value = imm as u32;
        let result: u32 = if a < imm_value {
            1
        } else {
            0
        };
        self.write_register(rd, result);
        self.pc = self.pc.wrapping_add(4);
        Ok(())
    }

    /// XORI: rd = rs1 ^ imm.
    pub fn execute_xori(&mut self, rd: usize, rs1: usize, imm: i32) -> (r: Result<
        (),
        EmulatorError,
    >)
        requires
            old(self).wf(),
        ensures
            final(self).wf(),
            rd < 32 && rs1 < 32 ==> r == Ok::<(), EmulatorError>(()) && final(self)@ == advance_pc(
                reg_write(old(self)@, rd as int, reg_read(old(self)@, rs1 as int) ^ (imm as u32)),
            ),
            !(rd < 32 && rs1 < 32) ==> r == Err::<(), EmulatorError>(
                EmulatorError::UnsupportedInstruction,
            ) && final(self)@ == old(self)@,
    {
        if rd >= NUM_REGISTERS || rs1 >= NUM_REGISTERS {
            return Err(EmulatorError::UnsupportedInstruction);
        }
        let a = self.read_register(rs1);
        self.write_register(rd, a ^ (imm as u32));
        self.pc = self.pc.wrapping_add(4);
        Ok(())
    }

    /// ORI: rd = rs1 | imm.
    pub fn execute_ori(&mut self, rd: usize, rs1: usize, imm: i32) -> (r: Result<
        (),
        EmulatorError,
    >)
        requires
            old(self).wf(),
        ensures
            final(self).wf(),
            rd < 32 && rs1 < 32 ==> r == Ok::<(), EmulatorError>(()) && final(self)@ == advance_pc(
                reg_write(old(self)@, rd as int, reg_read(old(self)@, rs1 as int) | (imm as u32)),
            ),
            !(rd < 32 && rs1 < 32) ==> r == Err::<(), EmulatorError>(
                EmulatorError::UnsupportedInstruction,
            ) && final(self)@ == old(self)@,
    {
        if rd >= NUM_REGISTERS || rs1 >= NUM_REGISTERS {
            return Err(EmulatorError::UnsupportedInstruction);
        }
        let a = self.read_register(rs1);
        self.write_register(rd, a | (imm as u32));
        self.pc = self.pc.wrapping_add(4);
        Ok(())
    }

    /// ANDI: rd = rs1 & imm.
    pub fn execute_andi(&mut self, rd: usize, rs1: usize, imm: i32) -> (r: Result<
        (),
        EmulatorError,
    >)
        requires
            old(self).wf(),
        ensures
            final(self).wf(),
            rd < 32 && rs1 < 32 ==> r == Ok::<(), EmulatorError>(()) && final(self)@ == advance_pc(
                reg_write(old(self)@, rd as int, reg_read(old(self)@, rs1 as int) & (imm as u32)),
            ),
            !(rd < 32 && rs1 < 32) ==> r == Err::<(), EmulatorError>(
                EmulatorError::UnsupportedInstruction,
            ) && final(self)@ == old(self)@,
    {
        if rd >= NUM_REGISTERS || rs1 >= NUM_REGISTERS {
            return Err(EmulatorError::UnsupportedInstruction);
        }
        let a = self.read_register(rs1);
        self.write_register(rd, a & (imm as u32));
        self.pc = self.pc.wrapping_add(4);
        Ok(())
    }

    /// SLLI: rd = rs1 << shamt; a shift amount of 32 or more is rejected.
    pub fn execute_slli(&mut self, rd: usize, rs1: usize, shamt: u32) -> (r: Result<
        (),
        EmulatorError,
    >)
        requires
            old(self).wf(),
        ensures
            final(self).wf(),
            rd < 32 && rs1 < 32 && shamt < 32 ==> r == Ok::<(), EmulatorError>(()) && final(self)@
                == advance_pc(
                reg_write(old(self)@, rd as int, reg_read(old(self)@, rs1 as int) << shamt),
            ),
            !(rd < 32 && rs1 < 32 && shamt < 32) ==> r == Err::<(), EmulatorError>(
                EmulatorError::UnsupportedInstruction,
            ) && final(self)@ == old(self)@,
    {
        if rd >= NUM_REGISTERS || rs1 >= NUM_REGISTERS || shamt >= 32 {
            return Err(EmulatorError::UnsupportedInstruction);
        }
        let a = self.read_register(rs1);
        self.write_register(rd, a << shamt);
        self.pc = self.pc.wrapping_add(4);
        Ok(())
    }

    /// SRLI: rd = rs1 >> shamt, logical; a shift amount of 32 or more is
    /// rejected.
    pub fn execute_srli(&mut self, rd: usize, rs1: usize, shamt: u32) -> (r: Result<
        (),
        EmulatorError,
    >)
        requires
            old(self).wf(),
        ensures
            final(self).wf(),
            rd < 32 && rs1 < 32 && shamt < 32 ==> r == Ok::<(), EmulatorError>(()) && final(self)@
                == advance_pc(
                reg_write(old(self)@, rd as int, reg_read(old(self)@, rs1 as int) >> shamt),
            ),
            !(rd < 32 && rs1 < 32 && shamt < 32) ==> r == Err::<(), EmulatorError>(
                EmulatorError::UnsupportedInstruction,
            ) && final(self)@ == old(self)@,
    {
        if rd >= NUM_REGISTERS || rs1 >= NUM_REGISTERS || shamt >= 32 {
            return Err(EmulatorError::UnsupportedInstruction);
        }
        let a = self.read_register(rs1);
        self.write_register(rd, a >> shamt);
        self.pc = self.pc.wrapping_add(4);
        Ok(())
    }

    /// SRAI: rd = rs1 >> shamt, arithmetic; a shift amount of 32 or more is
    /// rejected.
    pub fn execute_srai(&mut self, rd: usize, rs1: usize, shamt: u32) -> (r: Result<
        (),
        EmulatorError,
    >)
        requires
            old(self).wf(),
        ensures
            final(self).wf(),
            rd < 32 && rs1 < 32 && shamt < 32 ==> r == Ok::<(), EmulatorError>(()) && final(self)@
                == advance_pc(
                reg_write(old(self)@, rd as int, sra32(reg_read(old(self)@, rs1 as int), shamt)),
            ),
            !(rd < 32 && rs1 < 32 && shamt < 32) ==> r == Err::<(), EmulatorError>(
                EmulatorError::UnsupportedInstruction,
            ) && final(self)@ == old(self)@,
    {
        if rd >= NUM_REGISTERS || rs1 >= NUM_REGISTERS || shamt >= 32 {
            return Err(EmulatorError::UnsupportedInstruction);
        }
        let a = self.read_register(rs1);
        let shifted = a >> shamt;
        let result = if a & 0x8000_0000 != 0 {
            shifted | !(0xFFFF_FFFFu32 >> shamt)
        } else {
            shifted
        };
        self.write_register(rd, result);
        self.pc = self.pc.wrapping_add(4);
        Ok(())
    }

    // -----------------------------------------------------------------------
    // OP: register-register computation
    // -----------------------------------------------------------------------

    /// ADD: rd = rs1 + rs2, wrapping.
    pub fn execute_add(&mut self, rd: usize, rs1: usize, rs2: usize) -> (r: Result<
        (),
        EmulatorError,
    >)
        requires
            old(self).wf(),
        ensures
            final(self).wf(),
            rd < 32 && rs1 < 32 && rs2 < 32 ==> r == Ok::<(), EmulatorError>(()) && final(self)@
                == advance_pc(
                reg_write(
                    old(self)@,
                    rd as int,
                    reg_read(old(self)@, rs1 as int).wrapping_add(reg_read(old(self)@, rs2 as int)),
                ),
            ),
            !(rd < 32 && rs1 < 32 && rs2 < 32) ==> r == Err::<(), EmulatorError>(
                EmulatorError::UnsupportedInstruction,
            ) && final(self)@ == old(self)@,
    {
        if rd >= NUM_REGISTERS || rs1 >= NUM_REGISTERS || rs2 >= NUM_REGISTERS {
            return Err(EmulatorError::UnsupportedInstruction);
        }
        let a = self.read_register(rs1);
        let b = self.read_register(rs2);
        self.write_register(rd, a.wrapping_add(b));
        self.pc = self.pc.wrapping_add(4);
        Ok(())
    }

    /// SUB: rd = rs1 - rs2, wrapping.
    pub fn execute_sub(&mut self, rd: usize, rs1: usize, rs2: usize) -> (r: Result<
        (),
        EmulatorError,
    >)
        requires
            old(self).wf(),
        ensures
            final(self).wf(),
            rd < 32 && rs1 < 32 && rs2 < 32 ==> r == Ok::<(), EmulatorError>(()) && final(self)@
                == advance_pc(
                reg_write(
                    old(self)@,
                    rd as int,
                    reg_read(old(self)@, rs1 as int).wrapping_sub(reg_read(old(self)@, rs2 as int)),
                ),
            ),
            !(rd < 32 && rs1 < 32 && rs2 < 32) ==> r == Err::<(), EmulatorError>(
                EmulatorError::UnsupportedInstruction,
            ) && final(self)@ == old(self)@,
    {
        if rd >= NUM_REGISTERS || rs1 >= NUM_REGISTERS || rs2 >= NUM_REGISTERS {
            return Err(EmulatorError::UnsupportedInstruction);
        }
        let a = self.read_register(rs1);
        let b = self.read_register(rs2);
        self.write_register(rd, a.wrapping_sub(b));
        self.pc = self.pc.wrapping_add(4);
        Ok(())
    }

    /// SLL: rd = rs1 << (rs2 & 0x1F); only the low 5 bits of rs2 count.
    pub fn execute_sll(&mut self, rd: usize, rs1: usize, rs2: usize) -> (r: Result<
        (),
        EmulatorError,
    >)
        requires
            old(self).wf(),
        ensures
            final(self).wf(),
            rd < 32 && rs1 < 32 && rs2 < 32 ==> r == Ok::<(), EmulatorError>(()) && final(self)@
                == advance_pc(
                reg_write(
                    old(self)@,
                    rd as int,
                    reg_read(old(self)@, rs1 as int) << (reg_read(old(self)@, rs2 as int) & 0x1F),
                ),
            ),
            !(rd < 32 && rs1 < 32 && rs2 < 32) ==> r == Err::<(), EmulatorError>(
                EmulatorError::UnsupportedInstruction,
            ) && final(self)@ == old(self)@,
    {
        if rd >= NUM_REGISTERS || rs1 >= NUM_REGISTERS || rs2 >= NUM_REGISTERS {
            return Err(EmulatorError::UnsupportedInstruction);
        }
        let a = self.read_register(rs1);
        let b = self.read_register(rs2);
        proof {
            lemma_field_bounds(b);
        }
        self.write_register(rd, a << (b & 0x1F));
        self.pc = self.pc.wrapping_add(4);
        Ok(())
    }

    /// SLT: rd = 1 if rs1 < rs2 as signed values, else 0.
    pub fn execute_slt(&mut self, rd: usize, rs1: usize, rs2: usize) -> (r: Result<
        (),
        EmulatorError,
    >)
        requires
            old(self).wf(),
        ensures
            final(self).wf(),
            rd < 32 && rs1 < 32 && rs2 < 32 ==> r == Ok::<(), EmulatorError>(()) && final(self)@
                == advance_pc(
                reg_write(
                    old(self)@,
                    rd as int,
                    if signed32(reg_read(old(self)@, rs1 as int)) < signed32(
                        reg_read(old(self)@, rs2 as int),
                    ) {
                        1u32
                    } else {
                        0u32
                    },
                ),
            ),
            !(rd < 32 && rs1 < 32 && rs2 < 32) ==> r == Err::<(), EmulatorError>(
                EmulatorError::UnsupportedInstruction,
            ) && final(self)@ == old(self)@,
    {
        if rd >= NUM_REGISTERS || rs1 >= NUM_REGISTERS || rs2 >= NUM_REGISTERS {
            return Err(EmulatorError::UnsupportedInstruction);
        }
        let a = self.read_register(rs1);
        let b = self.read_register(rs2);
        proof {
            lemma_signed32_cast(a);
            lemma_signed32_cast(b);
        }
        let result: u32 = if (a as i32) < (b as i32) {
            1
        } else {
            0
        };
        self.write_register(rd, result);
        self.pc = self.pc.wrapping_add(4);
        Ok(())
    }

    /// SLTU: rd = 1 if rs1 < rs2 as unsigned values, else 0.
    pub fn execute_sltu(&mut self, rd: usize, rs1: usize, rs2: usize) -> (r: Result<
        (),
        EmulatorError,
    >)
        requires
            old(self).wf(),
        ensures
            final(self).wf(),
            rd < 32 && rs1 < 32 && rs2 < 32 ==> r == Ok::<(), EmulatorError>(()) && final(self)@
                == advance_pc(
                reg_write(
                    old(self)@,
                    rd as int,
                    if reg_read(old(self)@, rs1 as int) < reg_read(old(self)@, rs2 as int) {
                        1u32
                    } else {
                        0u32
                    },
                ),
            ),
            !(rd < 32 && rs1 < 32 && rs2 < 32) ==> r == Err::<(), EmulatorError>(
                EmulatorError::UnsupportedInstruction,
            ) && final(self)@ == old(self)@,
    {
        if rd >= NUM_REGISTERS || rs1 >= NUM_REGISTERS || rs2 >= NUM_REGISTERS {
            return Err(EmulatorError::UnsupportedInstruction);
        }
        let a = self.read_register(rs1);
        let b = self.read_register(rs2);
        let result: u32 = if a < b {
            1
        } else {
            0
        };
        self.write_register(rd, result);
        self.pc = self.pc.wrapping_add(4);
        Ok(())
    }

    /// XOR: rd = rs1 ^ rs2.
    pub fn execute_xor(&mut self, rd: usize, rs1: usize, rs2: usize) -> (r: Result<
        (),
        EmulatorError,
    >)
        requires
            old(self).wf(),
        ensures
            final(self).wf(),
            rd < 32 && rs1 < 32 && rs2 < 32 ==> r == Ok::<(), EmulatorError>(()) && final(self)@
                == advance_pc(
                reg_write(
                    old(self)@,
                    rd as int,
                    reg_read(old(self)@, rs1 as int) ^ reg_read(old(self)@, rs2 as int),
                ),
            ),
            !(rd < 32 && rs1 < 32 && rs2 < 32) ==> r == Err::<(), EmulatorError>(
                EmulatorError::UnsupportedInstruction,
            ) && final(self)@ == old(self)@,
    {
        if rd >= NUM_REGISTERS || rs1 >= NUM_REGISTERS || rs2 >= NUM_REGISTERS {
            return Err(EmulatorError::UnsupportedInstruction);
        }
        let a = self.read_register(rs1);
        let b = self.read_register(rs2);
        self.write_register(rd, a ^ b);
        self.pc = self.pc.wrapping_add(4);
        Ok(())
    }

    /// SRL: rd = rs1 >> (rs2 & 0x1F), logical.
    pub fn execute_srl(&mut self, rd: usize, rs1: usize, rs2: usize) -> (r: Result<
        (),
        EmulatorError,
    >)
        requires
            old(self).wf(),
        ensures
            final(self).wf(),
            rd < 32 && rs1 < 32 && rs2 < 32 ==> r == Ok::<(), EmulatorError>(()) && final(self)@
                == advance_pc(
                reg_write(
                    old(self)@,
                    rd as int,
                    reg_read(old(self)@, rs1 as int) >> (reg_read(old(self)@, rs2 as int) & 0x1F),
                ),
            ),
            !(rd < 32 && rs1 < 32 && rs2 < 32) ==> r == Err::<(), EmulatorError>(
                EmulatorError::UnsupportedInstruction,
            ) && final(self)@ == old(self)@,
    {
        if rd >= NUM_REGISTERS || rs1 >= NUM_REGISTERS || rs2 >= NUM_REGISTERS {
            return Err(EmulatorError::UnsupportedInstruction);
        }
        let a = self.read_register(rs1);
        let b = self.read_register(rs2);
        proof {
            lemma_field_bounds(b);
        }
        self.write_register(rd, a >> (b & 0x1F));
        self.pc = self.pc.wrapping_add(4);
        Ok(())
    }

    /// SRA: rd = rs1 >> (rs2 & 0x1F), arithmetic.
    pub fn execute_sra(&mut self, rd: usize, rs1: usize, rs2: usize) -> (r: Result<
        (),
        EmulatorError,
    >)
        requires
            old(self).wf(),
        ensures
            final(self).wf(),
            rd < 32 && rs1 < 32 && rs2 < 32 ==> r == Ok::<(), EmulatorError>(()) && final(self)@
                == advance_pc(
                reg_write(
                    old(self)@,
                    rd as int,
                    sra32(
                        reg_read(old(self)@, rs1 as int),
                        reg_read(old(self)@, rs2 as int) & 0x1F,
                    ),
                ),
            ),
            !(rd < 32 && rs1 < 32 && rs2 < 32) ==> r == Err::<(), EmulatorError>(
                EmulatorError::UnsupportedInstruction,
            ) && final(self)@ == old(self)@,
    {
        if rd >= NUM_REGISTERS || rs1 >= NUM_REGISTERS || rs2 >= NUM_REGISTERS {
            return Err(EmulatorError::UnsupportedInstruction);
        }
        let a = self.read_register(rs1);
        let b = self.read_register(rs2);
        proof {
            lemma_field_bounds(b);
        }
        let sh = b & 0x1F;
        let shifted = a >> sh;
        let result = if a & 0x8000_0000 != 0 {
            shifted | !(0xFFFF_FFFFu32 >> sh)
        } else {
            shifted
        };
        self.write_register(rd, result);
        self.pc = self.pc.wrapping_add(4);
        Ok(())
    }

    /// OR: rd = rs1 | rs2.
    pub fn execute_or(&mut self, rd: usize, rs1: usize, rs2: usize) -> (r: Result<
        (),
        EmulatorError,
    >)
        requires
            old(self).wf(),
        ensures
            final(self).wf(),
            rd < 32 && rs1 < 32 && rs2 < 32 ==> r == Ok::<(), EmulatorError>(()) && final(self)@
                == advance_pc(
                reg_write(
                    old(self)@,
                    rd as int,
                    reg_read(old(self)@, rs1 as int) | reg_read(old(self)@, rs2 as int),
                ),
            ),
            !(rd < 32 && rs1 < 32 && rs2 < 32) ==> r == Err::<(), EmulatorError>(
                EmulatorError::UnsupportedInstruction,
            ) && final(self)@ == old(self)@,
    {
        if rd >= NUM_REGISTERS || rs1 >= NUM_REGISTERS || rs2 >= NUM_REGISTERS {
            return Err(EmulatorError::UnsupportedInstruction);
        }
        let a = self.read_register(rs1);
        let b = self.read_register(rs2);
        self.write_register(rd, a | b);
        self.pc = self.pc.wrapping_add(4);
        Ok(())
    }

    /// AND: rd = rs1 & rs2.
    pub fn execute_and(&mut self, rd: usize, rs1: usize, rs2: usize) -> (r: Result<
        (),
        EmulatorError,
    >)
        requires
            old(self).wf(),
        ensures
            final(self).wf(),
            rd < 32 && rs1 < 32 && rs2 < 32 ==> r == Ok::<(), EmulatorError>(()) && final(self)@
                == advance_pc(
                reg_write(
                    old(self)@,
                    rd as int,
                    reg_read(old(self)@, rs1 as int) & reg_read(old(self)@, rs2 as int),
                ),
            ),
            !(rd < 32 && rs1 < 32 && rs2 < 32) ==> r == Err::<(), EmulatorError>(
                EmulatorError::UnsupportedInstruction,
            ) && final(self)@ == old(self)@,
    {
        if rd >= NUM_REGISTERS || rs1 >= NUM_REGISTERS || rs2 >= NUM_REGISTERS {
            return Err(EmulatorError::UnsupportedInstruction);
        }
        let a = self.read_register(rs1);
        let b = self.read_register(rs2);
        self.write_register(rd, a & b);
        self.pc = self.pc.wrapping_add(4);
        Ok(())
    }

    /// The M extension: MUL, MULH, MULHSU, MULHU, DIV, DIVU, REM, REMU,
    /// selected by funct3.
    pub fn execute_m_type(&mut self, rd: usize, rs1: usize, rs2: usize, funct3: u32) -> (r: Result<
        (),
        EmulatorError,
    >)
        requires
            old(self).wf(),
        ensures
            final(self).wf(),
            rd < 32 && rs1 < 32 && rs2 < 32 && funct3 < 8 ==> r == Ok::<(), EmulatorError>(())
                && final(self)@ == advance_pc(
                reg_write(
                    old(self)@,
                    rd as int,
                    m_result(
                        reg_read(old(self)@, rs1 as int),
                        reg_read(old(self)@, rs2 as int),
                        funct3,
                    ),
                ),
            ),
            !(rd < 32 && rs1 < 32 && rs2 < 32 && funct3 < 8) ==> r == Err::<(), EmulatorError>(
                EmulatorError::UnsupportedInstruction,
            ) && final(self)@ == old(self)@,
    {
        if rd >= NUM_REGISTERS || rs1 >= NUM_REGISTERS || rs2 >= NUM_REGISTERS {
            return Err(EmulatorError::UnsupportedInstruction);
        }
        let a = self.read_register(rs1);
        let b = self.read_register(rs2);
        let result: u32 = match funct3 {
            0x0 => a.wrapping_mul(b),
            0x1 => mul_high_signed(a, b),
            0x2 => mul_high_signed_unsigned(a, b),
            0x3 => mul_high_unsigned(a, b),
            0x4 => divide_signed(a, b),
            0x5 => divide_unsigned(a, b),
            0x6 => remainder_signed(a, b),
            0x7 => remainder_unsigned(a, b),
            _ => {
                return Err(EmulatorError::UnsupportedInstruction);
            },
        };
        self.write_register(rd, result);
        self.pc = self.pc.wrapping_add(4);
        Ok(())
    }

    // -----------------------------------------------------------------------
    // Decoded handlers: each takes the raw instruction word
    // -----------------------------------------------------------------------

    /// Decode and execute an OP-IMM instruction.
    fn execute_i_type(&mut self, instruction: u32) -> (r: Result<(), EmulatorError>)
        requires
            old(self).wf(),
        ensures
            final(self).wf(),
            (match sem_i_type(old(self)@, instruction) {
                Some(s2) => r == Ok::<(), EmulatorError>(()) && final(self)@ == s2,
                None => r == Err::<(), EmulatorError>(EmulatorError::UnsupportedInstruction)
                    && final(self)@ == old(self)@,
            }),
    {
        let rd = ((instruction >> 7u32) & 0x1F) as usize;
        let funct3 = (instruction >> 12u32) & 0x7;
        let rs1 = ((instruction >> 15u32) & 0x1F) as usize;
        let imm_u: u32 = if instruction & 0x8000_0000 != 0 {
            (instruction >> 20u32) | 0xFFFF_F000
        } else {
            instruction >> 20u32
        };
        let imm = imm_u as i32;
        proof {
            lemma_field_bounds(instruction);
            lemma_i32_roundtrip(imm_u);
            lemma_signed32_cast(imm_u);
        }
        match funct3 {
            0x0 => self.execute_addi(rd, rs1, imm),
            0x2 => self.execute_slti(rd, rs1, imm),
            0x3 => self.execute_sltiu(rd, rs1, imm),
            0x4 => self.execute_xori(rd, rs1, imm),
            0x6 => self.execute_ori(rd, rs1, imm),
            0x7 => self.execute_andi(rd, rs1, imm),
            0x1 => {
                if imm_u & 0xFFE0 != 0 {
                    return Err(EmulatorError::UnsupportedInstruction);
                }
                proof {
                    lemma_field_bounds(imm_u);
                }
                self.execute_slli(rd, rs1, imm_u & 0x1F)
            },
            0x5 => {
                let is_srai = (instruction & 0x4000_0000) != 0;
                if imm_u & 0xFFE0 != 0 && !is_srai {
                    return Err(EmulatorError::UnsupportedInstruction);
                }
                proof {
                    lemma_field_bounds(imm_u);
                }
                if is_srai {
                    self.execute_srai(rd, rs1, imm_u & 0x1F)
                } else {
                    self.execute_srli(rd, rs1, imm_u & 0x1F)
                }
            },
            _ => Err(EmulatorError::UnsupportedInstruction),
        }
    }

    /// Decode and execute an OP instruction (R-type, including M).
    fn execute_r_type(&mut self, instruction: u32) -> (r: Result<(), EmulatorError>)
        requires
            old(self).wf(),
        ensures
            final(self).wf(),
            (match sem_r_type(old(self)@, instruction) {
                Some(s2) => r == Ok::<(), EmulatorError>(()) && final(self)@ == s2,
                None => r == Err::<(), EmulatorError>(EmulatorError::UnsupportedInstruction)
                    && final(self)@ == old(self)@,
            }),
    {
        let rd = ((instruction >> 7u32) & 0x1F) as usize;
        let funct3 = (instruction >> 12u32) & 0x7;
        let rs1 = ((instruction >> 15u32) & 0x1F) as usize;
        let rs2 = ((instruction >> 20u32) & 0x1F) as usize;
        let funct7 = (instruction >> 25u32) & 0x7F;
        proof {
            lemma_field_bounds(instruction);
        }
        if funct7 == 0x01 {
            self.execute_m_type(rd, rs1, rs2, funct3)
        } else if funct7 == 0x00 && funct3 == 0x0 {
            self.execute_add(rd, rs1, rs2)
        } else if funct7 == 0x20 && funct3 == 0x0 {
            self.execute_sub(rd, rs1, rs2)
        } else if funct7 == 0x00 && funct3 == 0x1 {
            self.execute_sll(rd, rs1, rs2)
        } else if funct7 == 0x00 && funct3 == 0x2 {
            self.execute_slt(rd, rs1, rs2)
        } else if funct7 == 0x00 && funct3 == 0x3 {
            self.execute_sltu(rd, rs1, rs2)
        } else if funct7 == 0x00 && funct3 == 0x4 {
            self.execute_xor(rd, rs1, rs2)
        } else if funct7 == 0x00 && funct3 == 0x5 {
            self.execute_srl(rd, rs1, rs2)
        } else if funct7 == 0x20 && funct3 == 0x5 {
            self.execute_sra(rd, rs1, rs2)
        } else if funct7 == 0x00 && funct3 == 0x6 {
            self.execute_or(rd, rs1, rs2)
        } else if funct7 == 0x00 && funct3 == 0x7 {
            self.execute_and(rd, rs1, rs2)
        } else {
            Err(EmulatorError::UnsupportedInstruction)
        }
    }

    /// Decode and execute a BRANCH instruction.
    pub fn execute_branch(&mut self, instruction: u32) -> (r: Result<(), EmulatorError>)
        requires
            old(self).wf(),
        ensures
            final(self).wf(),
            (match sem_branch(old(self)@, instruction) {
                Some(s2) => r == Ok::<(), EmulatorError>(()) && final(self)@ == s2,
                None => r == Err::<(), EmulatorError>(EmulatorError::UnsupportedInstruction)
                    && final(self)@ == old(self)@,
            }),
    {
        let imm_11 = (instruction >> 7u32) & 0x1;
        let imm_4_1 = (instruction >> 8u32) & 0xF;
        let funct3 = (instruction >> 12u32) & 0x7;
        let rs1 = ((instruction >> 15u32) & 0x1F) as usize;
        let rs2 = ((instruction >> 20u32) & 0x1F) as usize;
        let imm_10_5 = (instruction >> 25u32) & 0x3F;
        let imm_12 = (instruction >> 31u32) & 0x1;
        proof {
            lemma_field_bounds(instruction);
        }
        let imm = (imm_12 << 12u32) | (imm_11 << 11u32) | (imm_10_5 << 5u32) | (imm_4_1 << 1u32);
        let offset: u32 = if imm & 0x1000 != 0 {
            imm | 0xFFFF_E000
        } else {
            imm
        };
        let a = self.read_register(rs1);
        let b = self.read_register(rs2);
        proof {
            lemma_signed32_cast(a);
            lemma_signed32_cast(b);
        }
        let taken: bool = match funct3 {
            0x0 => a == b,
            0x1 => a != b,
            0x4 => (a as i32) < (b as i32),
            0x5 => (a as i32) >= (b as i32),
            0x6 => a < b,
            0x7 => a >= b,
            _ => {
                return Err(EmulatorError::UnsupportedInstruction);
            },
        };
        if taken {
            self.pc = self.pc.wrapping_add(offset);
        } else {
            self.pc = self.pc.wrapping_add(4);
        }
        Ok(())
    }

    /// Decode and execute LUI.
    pub fn execute_lui(&mut self, instruction: u32) -> (r: Result<(), EmulatorError>)
        requires
            old(self).wf(),
        ensures
            final(self).wf(),
            r == Ok::<(), EmulatorError>(()),
            final(self)@ == sem_lui(old(self)@, instruction),
    {
        let rd = ((instruction >> 7u32) & 0x1F) as usize;
        let imm = instruction & 0xFFFF_F000;
        proof {
            lemma_field_bounds(instruction);
        }
        self.write_register(rd, imm);
        self.pc = self.pc.wrapping_add(4);
        Ok(())
    }

    /// Decode and execute AUIPC.
    pub fn execute_auipc(&mut self, instruction: u32) -> (r: Result<(), EmulatorError>)
        requires
            old(self).wf(),
        ensures
            final(self).wf(),
            r == Ok::<(), EmulatorError>(()),
            final(self)@ == sem_auipc(old(self)@, instruction),
    {
        let rd = ((instruction >> 7u32) & 0x1F) as usize;
        let imm = instruction & 0xFFFF_F000;
        proof {
            lemma_field_bounds(instruction);
        }
        let result = self.pc.wrapping_add(imm);
        self.write_register(rd, result);
        self.pc = self.pc.wrapping_add(4);
        Ok(())
    }

    /// Decode and execute JAL.
    pub fn execute_jal(&mut self, instruction: u32) -> (r: Result<(), EmulatorError>)
        requires
            old(self).wf(),
        ensures
            final(self).wf(),
            r == Ok::<(), EmulatorError>(()),
            final(self)@ == sem_jal(old(self)@, instruction),
    {
        let rd = ((instruction >> 7u32) & 0x1F) as usize;
        let imm_19_12 = (instruction >> 12u32) & 0xFF;
        let imm_11 = (instruction >> 20u32) & 0x1;
        let imm_10_1 = (instruction >> 21u32) & 0x3FF;
        let imm_20 = (instruction >> 31u32) & 0x1;
        proof {
            lemma_field_bounds(instruction);
        }
        let imm = (imm_20 << 20u32) | (imm_19_12 << 12u32) | (imm_11 << 11u32) | (imm_10_1
            << 1u32);
        let offset: u32 = if imm & 0x10_0000 != 0 {
            imm | 0xFFE0_0000
        } else {
            imm
        };
        self.write_register(rd, self.pc.wrapping_add(4));
        self.pc = self.pc.wrapping_add(offset);
        Ok(())
    }

    /// Decode and execute JALR.
    pub fn execute_jalr(&mut self, instruction: u32) -> (r: Result<(), EmulatorError>)
        requires
            old(self).wf(),
        ensures
            final(self).wf(),
            (match sem_jalr(old(self)@, instruction) {
                Some(s2) => r == Ok::<(), EmulatorError>(()) && final(self)@ == s2,
                None => r == Err::<(), EmulatorError>(EmulatorError::UnsupportedInstruction)
                    && final(self)@ == old(self)@,
            }),
    {
        let rd = ((instruction >> 7u32) & 0x1F) as usize;
        let funct3 = (instruction >> 12u32) & 0x7;
        let rs1 = ((instruction >> 15u32) & 0x1F) as usize;
        let imm_u: u32 = if instruction & 0x8000_0000 != 0 {
            (instruction >> 20u32) | 0xFFFF_F000
        } else {
            instruction >> 20u32
        };
        proof {
            lemma_field_bounds(instruction);
        }
        if funct3 != 0 {
            return Err(EmulatorError::UnsupportedInstruction);
        }
        let base_addr = self.read_register(rs1);
        let target = base_addr.wrapping_add(imm_u) & !1u32;
        self.write_register(rd, self.pc.wrapping_add(4));
        self.pc = target;
        Ok(())
    }

    /// Decode and execute a LOAD instruction against main memory.
    pub fn execute_load(&mut self, instruction: u32, memory: &mut Memory) -> (r: Result<
        (),
        EmulatorError,
    >)
        requires
            old(self).wf(),
        ensures
            final(self).wf(),
            final(memory)@ == old(memory)@,
            final(memory).spec_base() == old(memory).spec_base(),
            (match sem_load(old(self)@, old(memory)@, instruction) {
                Some(s2) => r == Ok::<(), EmulatorError>(()) && final(self)@ == s2,
                None => r == Err::<(), EmulatorError>(EmulatorError::UnsupportedInstruction)
                    && final(self)@ == old(self)@,
            }),
    {
        let rd = ((instruction >> 7u32) & 0x1F) as usize;
        let funct3 = (instruction >> 12u32) & 0x7;
        let rs1 = ((instruction >> 15u32) & 0x1F) as usize;
        let imm_u: u32 = if instruction & 0x8000_0000 != 0 {
            (instruction >> 20u32) | 0xFFFF_F000
        } else {
            instruction >> 20u32
        };
        proof {
            lemma_field_bounds(instruction);
        }
        let base_addr = self.read_register(rs1);
        let addr = base_addr.wrapping_add(imm_u);
        match funct3 {
            0x0 => {
                // LB: sign-extended byte
                let b = match memory.read_byte(addr) {
                    Ok(b) => b,
                    Err(e) => {
                        return Err(e);
                    },
                };
                let value = if b & 0x80 != 0 {
                    (b as u32) | 0xFFFF_FF00
                } else {
                    b as u32
                };
                self.write_register(rd, value);
            },
            0x1 => {
                // LH: sign-extended halfword, misaligned access allowed
                let h = match memory.read_halfword(addr) {
                    Ok(h) => h,
                    Err(e) => {
                        return Err(e);
                    },
                };
                let value = h as u32;
                let sign_extended = if value & 0x8000 != 0 {
                    value | 0xFFFF_0000
                } else {
                    value
                };
                self.write_register(rd, sign_extended);
            },
            0x2 => {
                // LW
                let value = match memory.read_word(addr) {
                    Ok(w) => w,
                    Err(e) => {
                        return Err(e);
                    },
                };
                self.write_register(rd, value);
            },
            0x4 => {
                // LBU: zero-extended byte
                let b = match memory.read_byte(addr) {
                    Ok(b) => b,
                    Err(e) => {
                        return Err(e);
                    },
                };
                self.write_register(rd, b as u32);
            },
            0x5 => {
                // LHU: zero-extended halfword, misaligned access allowed
                let h = match memory.read_halfword(addr) {
                    Ok(h) => h,
                    Err(e) => {
                        return Err(e);
                    },
                };
                self.write_register(rd, h as u32);
            },
            _ => {
                return Err(EmulatorError::UnsupportedInstruction);
            },
        }
        self.pc = self.pc.wrapping_add(4);
        Ok(())
    }

    /// Decode and execute a STORE instruction against main memory.
    pub fn execute_store(&mut self, instruction: u32, memory: &mut Memory) -> (r: Result<
        (),
        EmulatorError,
    >)
        requires
            old(self).wf(),
        ensures
            final(self).wf(),
            final(memory).spec_base() == old(memory).spec_base(),
            (match sem_store(old(self)@, old(memory)@, instruction) {
                Some((s2, m2)) => r == Ok::<(), EmulatorError>(()) && final(self)@ == s2
                    && final(memory)@ == m2,
                None => r == Err::<(), EmulatorError>(EmulatorError::UnsupportedInstruction)
                    && final(self)@ == old(self)@ && final(memory)@ == old(memory)@,
            }),
    {
        let imm_4_0 = (instruction >> 7u32) & 0x1F;
        let funct3 = (instruction >> 12u32) & 0x7;
        let rs1 = ((instruction >> 15u32) & 0x1F) as usize;
        let rs2 = ((instruction >> 20u32) & 0x1F) as usize;
        let imm_11_5 = (instruction >> 25u32) & 0x7F;
        proof {
            lemma_field_bounds(instruction);
        }
        let imm = (imm_11_5 << 5u32) | imm_4_0;
        let imm_u: u32 = if imm & 0x800 != 0 {
            imm | 0xFFFF_F000
        } else {
            imm
        };
        let base_addr = self.read_register(rs1);
        let addr = base_addr.wrapping_add(imm_u);
        let value = self.read_register(rs2);
        match funct3 {
            0x0 => {
                // SB
                let w = memory.write_byte(addr, value as u8);
                if let Err(e) = w {
                    return Err(e);
                }
            },
            0x1 => {
                // SH: misaligned access allowed
                let w = memory.write_halfword(addr, value as u16);
                if let Err(e) = w {
                    return Err(e);
                }
            },
            0x2 => {
                // SW
                let w = memory.write_word(addr, value);
                if let Err(e) = w {
                    return Err(e);
                }
            },
            _ => {
                return Err(EmulatorError::UnsupportedInstruction);
            },
        }
        self.pc = self.pc.wrapping_add(4);
        Ok(())
    }

    /// Decode and execute a SYSTEM instruction: ECALL, EBREAK, MRET and the
    /// six CSR read-modify-write forms.
    pub fn execute_system(&mut self, instruction: u32) -> (r: Result<(), EmulatorError>)
        requires
            old(self).wf(),
        ensures
            final(self).wf(),
            (match sem_system(old(self)@, instruction) {
                SysEffect::Advance(s2) => r == Ok::<(), EmulatorError>(()) && final(self)@ == s2,
                SysEffect::Unsupported => r == Err::<(), EmulatorError>(
                    EmulatorError::UnsupportedInstruction,
                ) && final(self)@ == old(self)@,
                SysEffect::Terminate => r == Err::<(), EmulatorError>(
                    EmulatorError::EcallTermination,
                ) && final(self)@ == old(self)@,
            }),
    {
        let funct3 = (instruction >> 12u32) & 0x7;
        let rd = ((instruction >> 7u32) & 0x1F) as usize;
        let rs1 = ((instruction >> 15u32) & 0x1F) as usize;
        let csr = ((instruction >> 20u32) & 0xFFF) as u16;
        proof {
            lemma_field_bounds(instruction);
        }
        match funct3 {
            0x0 => {
                let funct12 = instruction >> 20u32;
                match funct12 {
                    0x000 => {
                        // ECALL: the distinguished normal-termination signal
                        Err(EmulatorError::EcallTermination)
                    },
                    0x302 => {
                        // MRET: no machine-mode state is modeled; a no-op
                        self.pc = self.pc.wrapping_add(4);
                        Ok(())
                    },
                    _ => {
                        // EBREAK and anything else
                        Err(EmulatorError::UnsupportedInstruction)
                    },
                }
            },
            0x1 => {
                // CSRRW
                let old_value = self.read_csr(csr);
                if rd != 0 {
                    self.write_register(rd, old_value);
                }
                let new_value = self.read_register(rs1);
                self.write_csr(csr, new_value);
                self.pc = self.pc.wrapping_add(4);
                Ok(())
            },
            0x2 => {
                // CSRRS: the write happens only when rs1 is not x0
                let old_value = self.read_csr(csr);
                if rs1 != 0 {
                    let mask = self.read_register(rs1);
                    self.write_csr(csr, old_value | mask);
                }
                self.write_register(rd, old_value);
                self.pc = self.pc.wrapping_add(4);
                Ok(())
            },
            0x3 => {
                // CSRRC: the write happens only when rs1 is not x0
                let old_value = self.read_csr(csr);
                if rs1 != 0 {
                    let mask = self.read_register(rs1);
                    self.write_csr(csr, old_value & !mask);
                }
                self.write_register(rd, old_value);
                self.pc = self.pc.wrapping_add(4);
                Ok(())
            },
            0x5 => {
                // CSRRWI: the rs1 field is a zero-extended immediate
                let old_value = self.read_csr(csr);
                if rd != 0 {
                    self.write_register(rd, old_value);
                }
                self.write_csr(csr, rs1 as u32);
                self.pc = self.pc.wrapping_add(4);
                Ok(())
            },
            0x6 => {
                // CSRRSI: the write happens only when the immediate is non-zero
                let old_value = self.read_csr(csr);
                let imm = rs1 as u32;
                if imm != 0 {
                    self.write_csr(csr, old_value | imm);
                }
                self.write_register(rd, old_value);
                self.pc = self.pc.wrapping_add(4);
                Ok(())
            },
            0x7 => {
                // CSRRCI: the write happens only when the immediate is non-zero
                let old_value = self.read_csr(csr);
                let imm = rs1 as u32;
                if imm != 0 {
                    self.write_csr(csr, old_value & !imm);
                }
                self.write_register(rd, old_value);
                self.pc = self.pc.wrapping_add(4);
                Ok(())
            },
            _ => Err(EmulatorError::UnsupportedInstruction),
        }
    }

    /// Decode and execute an AMO instruction: a word-sized read-modify-write
    /// whose pre-operation value lands in rd. Acquire/release bits are
    /// accepted and ignored: the engine is single-threaded.
    pub fn execute_atomic(&mut self, instruction: u32, memory: &mut Memory) -> (r: Result<
        (),
        EmulatorError,
    >)
        requires
            old(self).wf(),
        ensures
            final(self).wf(),
            final(memory).spec_base() == old(memory).spec_base(),
            (match sem_atomic(old(self)@, old(memory)@, instruction) {
                Some((s2, m2)) => r == Ok::<(), EmulatorError>(()) && final(self)@ == s2
                    && final(memory)@ == m2,
                None => r == Err::<(), EmulatorError>(EmulatorError::UnsupportedInstruction)
                    && final(self)@ == old(self)@ && final(memory)@ == old(memory)@,
            }),
    {
        let rd = ((instruction >> 7u32) & 0x1F) as usize;
        let funct3 = (instruction >> 12u32) & 0x7;
        let rs1 = ((instruction >> 15u32) & 0x1F) as usize;
        let rs2 = ((instruction >> 20u32) & 0x1F) as usize;
        let funct5 = (instruction >> 27u32) & 0x1F;
        proof {
            lemma_field_bounds(instruction);
        }
        if funct3 != 0x2 {
            return Err(EmulatorError::UnsupportedInstruction);
        }
        let addr = self.read_register(rs1);
        if funct5 == 0x02 {
            // LR.W: a plain load; no reservation is tracked
            let value = match memory.read_word(addr) {
                Ok(w) => w,
                Err(e) => {
                    return Err(e);
                },
            };
            self.write_register(rd, value);
        } else if funct5 == 0x03 {
            // SC.W: a plain store that always reports success
            let value = self.read_register(rs2);
            let w = memory.write_word(addr, value);
            if let Err(e) = w {
                return Err(e);
            }
            self.write_register(rd, 0);
        } else {
            let old_value = match memory.read_word(addr) {
                Ok(w) => w,
                Err(e) => {
                    return Err(e);
                },
            };
            let src = self.read_register(rs2);
            proof {
                lemma_signed32_cast(old_value);
                lemma_signed32_cast(src);
            }
            let new_value: u32 = match funct5 {
                0x01 => src,
                0x00 => old_value.wrapping_add(src),
                0x04 => old_value ^ src,
                0x0C => old_value & src,
                0x08 => old_value | src,
                0x10 => if (old_value as i32) < (src as i32) {
                    old_value
                } else {
                    src
                },
                0x14 => if (old_value as i32) > (src as i32) {
                    old_value
                } else {
                    src
                },
                0x18 => if old_value < src {
                    old_value
                } else {
                    src
                },
                0x1C => if old_value > src {
                    old_value
                } else {
                    src
                },
                _ => {
                    return Err(EmulatorError::UnsupportedInstruction);
                },
            };
            let w = memory.write_word(addr, new_value);
            if let Err(e) = w {
                return Err(e);
            }
            self.write_register(rd, old_value);
        }
        self.pc = self.pc.wrapping_add(4);
        Ok(())
    }

    /// Decode one instruction word by its opcode and execute it.
    fn decode_and_execute(&mut self, instruction: u32, memory: &mut Memory) -> (r: Result<
        (),
        EmulatorError,
    >)
        requires
            old(self).wf(),
        ensures
            final(self).wf(),
            final(memory).spec_base() == old(memory).spec_base(),
            (match sem_execute(old(self)@, old(memory)@, instruction) {
                Outcome::Next(s2, m2) => r == Ok::<(), EmulatorError>(()) && final(self)@ == s2
                    && final(memory)@ == m2,
                Outcome::Trap => r == Err::<(), EmulatorError>(
                    EmulatorError::UnsupportedInstruction,
                ) && final(self)@ == old(self)@ && final(memory)@ == old(memory)@,
                Outcome::Halt => r == Err::<(), EmulatorError>(EmulatorError::EcallTermination)
                    && final(self)@ == old(self)@ && final(memory)@ == old(memory)@,
            }),
    {
        let opcode = instruction & 0x7F;
        match opcode {
            0x13 => self.execute_i_type(instruction),
            0x33 => self.execute_r_type(instruction),
            0x03 => self.execute_load(instruction, memory),
            0x23 => self.execute_store(instruction, memory),
            0x63 => self.execute_branch(instruction),
            0x37 => self.execute_lui(instruction),
            0x17 => self.execute_auipc(instruction),
            0x6F => self.execute_jal(instruction),
            0x67 => self.execute_jalr(instruction),
            0x73 => self.execute_system(instruction),
            0x2F => self.execute_atomic(instruction, memory),
            0x0F => {
                // FENCE and FENCE.I only order memory, which a single-threaded
                // engine does trivially: they advance the PC and nothing else.
                let funct3 = (instruction >> 12u32) & 0x7;
                match funct3 {
                    0x0 => {
                        self.pc = self.pc.wrapping_add(4);
                        Ok(())
                    },
                    0x1 => {
                        self.pc = self.pc.wrapping_add(4);
                        Ok(())
                    },
                    _ => Err(EmulatorError::UnsupportedInstruction),
                }
            },
            _ => Err(EmulatorError::UnsupportedInstruction),
        }
    }

    /// Execute exactly one instruction: fetch the word at PC, decode it,
    /// and commit its effects.
    pub fn step(&mut self, memory: &mut Memory) -> (r: Result<(), EmulatorError>)
        requires
            old(self).wf(),
        ensures
            final(self).wf(),
            final(memory).spec_base() == old(memory).spec_base(),
            (match sem_step(old(self)@, old(memory)@) {
                Outcome::Next(s2, m2) => r == Ok::<(), EmulatorError>(()) && final(self)@ == s2
                    && final(memory)@ == m2,
                Outcome::Trap => r == Err::<(), EmulatorError>(
                    EmulatorError::UnsupportedInstruction,
                ) && final(self)@ == old(self)@ && final(memory)@ == old(memory)@,
                Outcome::Halt => r == Err::<(), EmulatorError>(EmulatorError::EcallTermination)
                    && final(self)@ == old(self)@ && final(memory)@ == old(memory)@,
            }),
    {
        let instruction = match memory.read_word(self.pc) {
            Ok(w) => w,
            Err(e) => {
                return Err(e);
            },
        };
        self.decode_and_execute(instruction, memory)
    }

    /// Run the hart until the instruction budget is exhausted, an
    /// unsupported instruction stops the loop, or ECALL terminates the
    /// program. The count includes the terminating ECALL; it does not count
    /// the faulting instruction.
    pub fn run(&mut self, memory: &mut Memory, max_instructions: Option<u32>) -> (r: Result<
        u32,
        EmulatorError,
    >)
        requires
            old(self).wf(),
        ensures
            final(self).wf(),
            final(memory).spec_base() == old(memory).spec_base(),
            (match r {
                Ok(n) => exists|budget: nat|
                    #[trigger] sem_run(old(self)@, old(memory)@, budget) == (
                        final(self)@,
                        final(memory)@,
                        n as nat,
                    ),
                Err(_) => false,
            }),
            (match max_instructions {
                Some(max) => ({
                    let rr = sem_run(old(self)@, old(memory)@, max as nat);
                    final(self)@ == rr.0 && final(memory)@ == rr.1 && r == Ok::<u32, EmulatorError>(
                        rr.2 as u32,
                    )
                }),
                None => (match r {
                    Ok(n) => n == 0xFFFF_FFFFu32 || !(sem_step(final(self)@, final(memory)@)
                        is Next),
                    Err(_) => false,
                }),
            }),
    {
        let mut executed: u32 = 0;
        loop
            invariant
                self.wf(),
                memory.spec_base() == old(memory).spec_base(),
                forall|k: nat|
                    #[trigger] sem_run(old(self)@, old(memory)@, (executed as nat + k)) == {
                        let rr = sem_run(self@, memory@, k);
                        (rr.0, rr.1, (rr.2 + executed as nat) as nat)
                    },
                (match max_instructions {
                    Some(max) => executed <= max,
                    None => true,
                }),
            decreases 0x1_0000_0000int - executed as int,
        {
            if let Some(max) = max_instructions {
                if executed >= max {
                    proof {
                        assert(sem_run(old(self)@, old(memory)@, (executed as nat + 0)) == {
                            let rr = sem_run(self@, memory@, 0nat);
                            (rr.0, rr.1, (rr.2 + executed as nat) as nat)
                        });
                    }
                    return Ok(executed);
                }
            }
            if executed == 0xFFFF_FFFFu32 {
                // The count saturates; only reachable without a budget.
                proof {
                    assert(sem_run(old(self)@, old(memory)@, (executed as nat + 0)) == {
                        let rr = sem_run(self@, memory@, 0nat);
                        (rr.0, rr.1, (rr.2 + executed as nat) as nat)
                    });
                }
                return Ok(executed);
            }
            let ghost pre = self@;
            let ghost prem = memory@;
            match self.step(memory) {
                Ok(()) => {
                    proof {
                        assert forall|k: nat|
                            #[trigger] sem_run(old(self)@, old(memory)@, (executed as nat + 1 + k))
                                == {
                                let rr = sem_run(self@, memory@, k);
                                (rr.0, rr.1, (rr.2 + executed as nat + 1) as nat)
                            } by {
                            assert(sem_run(old(self)@, old(memory)@, (executed as nat + (1 + k)))
                                == {
                                let rr = sem_run(pre, prem, (1 + k) as nat);
                                (rr.0, rr.1, (rr.2 + executed as nat) as nat)
                            });
                            assert(sem_run(pre, prem, (1 + k) as nat) == {
                                let rr = sem_run(self@, memory@, k);
                                (rr.0, rr.1, (rr.2 + 1) as nat)
                            });
                        }
                    }
                    executed = executed + 1;
                },
                Err(EmulatorError::UnsupportedInstruction) => {
                    // Reported and the loop stops; the driver surfaces no error.
                    proof {
                        assert forall|k: nat| k >= 1 implies #[trigger] sem_run(
                            old(self)@,
                            old(memory)@,
                            (executed as nat + k),
                        ) == (self@, memory@, executed as nat) by {
                            assert(sem_run(old(self)@, old(memory)@, (executed as nat + k)) == {
                                let rr = sem_run(self@, memory@, k);
                                (rr.0, rr.1, (rr.2 + executed as nat) as nat)
                            });
                            assert(sem_run(self@, memory@, k) == (self@, memory@, 0nat));
                        }
                        assert(sem_run(old(self)@, old(memory)@, (executed as nat + 1)) == (
                            self@,
                            memory@,
                            executed as nat,
                        ));
                        match max_instructions {
                            Some(max) => {
                                let k: nat = (max - executed) as nat;
                                assert(sem_run(old(self)@, old(memory)@, (executed as nat + k))
                                    == (self@, memory@, executed as nat));
                                assert(sem_run(old(self)@, old(memory)@, max as nat) == (
                                    self@,
                                    memory@,
                                    executed as nat,
                                ));
                            },
                            None => {},
                        }
                    }
                    return Ok(executed);
                },
                Err(EmulatorError::EcallTermination) => {
                    // Normal termination: the ECALL counts as executed.
                    proof {
                        assert forall|k: nat| k >= 1 implies #[trigger] sem_run(
                            old(self)@,
                            old(memory)@,
                            (executed as nat + k),
                        ) == (self@, memory@, (executed + 1) as nat) by {
                            assert(sem_run(old(self)@, old(memory)@, (executed as nat + k)) == {
                                let rr = sem_run(self@, memory@, k);
                                (rr.0, rr.1, (rr.2 + executed as nat) as nat)
                            });
                            assert(sem_run(self@, memory@, k) == (self@, memory@, 1nat));
                        }
                        assert(sem_run(old(self)@, old(memory)@, (executed as nat + 1)) == (
                            self@,
                            memory@,
                            (executed + 1) as nat,
                        ));
                        match max_instructions {
                            Some(max) => {
                                let k: nat = (max - executed) as nat;
                                assert(sem_run(old(self)@, old(memory)@, (executed as nat + k))
                                    == (self@, memory@, (executed + 1) as nat));
                                assert(sem_run(old(self)@, old(memory)@, max as nat) == (
                                    self@,
                                    memory@,
                                    (executed + 1) as nat,
                                ));
                            },
                            None => {},
                        }
                    }
                    executed = executed + 1;
                    return Ok(executed);
                },
                Err(e) => {
                    return Err(e);
                },
            }
        }
    }

    // -----------------------------------------------------------------------
    // Execution over the bus: devices claim word-sized accesses
    // -----------------------------------------------------------------------

    /// Decode and execute a LOAD with devices attached: an address a device
    /// claims must be read word-sized from that device; any other address is
    /// serviced by main memory.
    fn execute_load_with_peripherals(
        &mut self,
        instruction: u32,
        memory: &mut Memory,
        peripherals: &mut PeripheralManager,
    ) -> (r: Result<(), EmulatorError>)
        requires
            old(self).wf(),
        ensures
            final(self).wf(),
            final(memory).spec_base() == old(memory).spec_base(),
            final(memory)@ == old(memory)@,
            final(peripherals)@ == old(peripherals)@,
            ({
                let addr = reg_read(old(self)@, rs1_of(instruction)).wrapping_add(
                    imm_i_of(instruction),
                );
                if devs_claim(old(peripherals)@, addr) {
                    if funct3_of(instruction) == 0x2 {
                        r == Ok::<(), EmulatorError>(()) && final(self)@ == advance_pc(
                            reg_write(
                                old(self)@,
                                rd_of(instruction),
                                bus_read_val(old(peripherals)@, addr),
                            ),
                        )
                    } else {
                        r == Err::<(), EmulatorError>(EmulatorError::UnsupportedInstruction)
                            && final(self)@ == old(self)@
                    }
                } else {
                    match sem_load(old(self)@, old(memory)@, instruction) {
                        Some(s2) => r == Ok::<(), EmulatorError>(()) && final(self)@ == s2,
                        None => r == Err::<(), EmulatorError>(
                            EmulatorError::UnsupportedInstruction,
                        ) && final(self)@ == old(self)@,
                    }
                }
            }),
    {
        let rd = ((instruction >> 7u32) & 0x1F) as usize;
        let funct3 = (instruction >> 12u32) & 0x7;
        let rs1 = ((instruction >> 15u32) & 0x1F) as usize;
        let imm_u: u32 = if instruction & 0x8000_0000 != 0 {
            (instruction >> 20u32) | 0xFFFF_F000
        } else {
            instruction >> 20u32
        };
        proof {
            lemma_field_bounds(instruction);
        }
        let base_addr = self.read_register(rs1);
        let addr = base_addr.wrapping_add(imm_u);
        if peripherals.is_peripheral_address(addr) {
            // Only word-granularity MMIO is modeled.
            if funct3 == 0x2 {
                let value = match peripherals.read(addr) {
                    Ok(v) => v,
                    Err(e) => {
                        return Err(e);
                    },
                };
                self.write_register(rd, value);
                self.pc = self.pc.wrapping_add(4);
                Ok(())
            } else {
                Err(EmulatorError::UnsupportedInstruction)
            }
        } else {
            self.execute_load(instruction, memory)
        }
    }

    /// Decode and execute a STORE with devices attached: an address a device
    /// claims must be written word-sized to that device; any other address
    /// is serviced by main memory.
    fn execute_store_with_peripherals(
        &mut self,
        instruction: u32,
        memory: &mut Memory,
        peripherals: &mut PeripheralManager,
    ) -> (r: Result<(), EmulatorError>)
        requires
            old(self).wf(),
        ensures
            final(self).wf(),
            final(memory).spec_base() == old(memory).spec_base(),
            ({
                let addr = reg_read(old(self)@, rs1_of(instruction)).wrapping_add(
                    imm_s_of(instruction),
                );
                if devs_claim(old(peripherals)@, addr) {
                    if funct3_of(instruction) == 0x2 {
                        r == Ok::<(), EmulatorError>(()) && final(self)@ == advance_pc(old(self)@)
                            && final(memory)@ == old(memory)@ && final(peripherals)@
                            == bus_write_eff(
                            old(peripherals)@,
                            addr,
                            reg_read(old(self)@, rs2_of(instruction)),
                        )
                    } else {
                        r == Err::<(), EmulatorError>(EmulatorError::UnsupportedInstruction)
                            && final(self)@ == old(self)@ && final(memory)@ == old(memory)@
                            && final(peripherals)@ == old(peripherals)@
                    }
                } else {
                    final(peripherals)@ == old(peripherals)@ && (match sem_store(
                        old(self)@,
                        old(memory)@,
                        instruction,
                    ) {
                        Some((s2, m2)) => r == Ok::<(), EmulatorError>(()) && final(self)@ == s2
                            && final(memory)@ == m2,
                        None => r == Err::<(), EmulatorError>(
                            EmulatorError::UnsupportedInstruction,
                        ) && final(self)@ == old(self)@ && final(memory)@ == old(memory)@,
                    })
                }
            }),
    {
        let imm_4_0 = (instruction >> 7u32) & 0x1F;
        let funct3 = (instruction >> 12u32) & 0x7;
        let rs1 = ((instruction >> 15u32) & 0x1F) as usize;
        let rs2 = ((instruction >> 20u32) & 0x1F) as usize;
        let imm_11_5 = (instruction >> 25u32) & 0x7F;
        proof {
            lemma_field_bounds(instruction);
        }
        let imm = (imm_11_5 << 5u32) | imm_4_0;
        let imm_u: u32 = if imm & 0x800 != 0 {
            imm | 0xFFFF_F000
        } else {
            imm
        };
        let base_addr = self.read_register(rs1);
        let addr = base_addr.wrapping_add(imm_u);
        if peripherals.is_peripheral_address(addr) {
            // Only word-granularity MMIO is modeled.
            if funct3 == 0x2 {
                let value = self.read_register(rs2);
                let w = peripherals.write(addr, value);
                if let Err(e) = w {
                    return Err(e);
                }
                self.pc = self.pc.wrapping_add(4);
                Ok(())
            } else {
                Err(EmulatorError::UnsupportedInstruction)
            }
        } else {
            self.execute_store(instruction, memory)
        }
    }

    /// Decode and execute an AMO with devices attached: atomics on device
    /// addresses are not supported; main memory services the rest.
    fn execute_atomic_with_peripherals(
        &mut self,
        instruction: u32,
        memory: &mut Memory,
        peripherals: &mut PeripheralManager,
    ) -> (r: Result<(), EmulatorError>)
        requires
            old(self).wf(),
        ensures
            final(self).wf(),
            final(memory).spec_base() == old(memory).spec_base(),
            final(peripherals)@ == old(peripherals)@,
            ({
                let addr = reg_read(old(self)@, rs1_of(instruction));
                if devs_claim(old(peripherals)@, addr) {
                    r == Err::<(), EmulatorError>(EmulatorError::UnsupportedInstruction)
                        && final(self)@ == old(self)@ && final(memory)@ == old(memory)@
                } else {
                    match sem_atomic(old(self)@, old(memory)@, instruction) {
                        Some((s2, m2)) => r == Ok::<(), EmulatorError>(()) && final(self)@ == s2
                            && final(memory)@ == m2,
                        None => r == Err::<(), EmulatorError>(
                            EmulatorError::UnsupportedInstruction,
                        ) && final(self)@ == old(self)@ && final(memory)@ == old(memory)@,
                    }
                }
            }),
    {
        let rs1 = ((instruction >> 15u32) & 0x1F) as usize;
        proof {
            lemma_field_bounds(instruction);
        }
        let addr = self.read_register(rs1);
        if peripherals.is_peripheral_address(addr) {
            return Err(EmulatorError::UnsupportedInstruction);
        }
        self.execute_atomic(instruction, memory)
    }

    /// Decode one instruction word by its opcode and execute it over the bus.
    fn decode_and_execute_with_peripherals(
        &mut self,
        instruction: u32,
        memory: &mut Memory,
        peripherals: &mut PeripheralManager,
    ) -> (r: Result<(), EmulatorError>)
        requires
            old(self).wf(),
        ensures
            final(self).wf(),
            final(memory).spec_base() == old(memory).spec_base(),
            (match sem_execute_devices(old(self)@, old(memory)@, old(peripherals)@, instruction) {
                OutcomeDev::Next(s2, m2, d2) => r == Ok::<(), EmulatorError>(()) && final(self)@
                    == s2 && final(memory)@ == m2 && final(peripherals)@ == d2,
                OutcomeDev::Trap => r == Err::<(), EmulatorError>(
                    EmulatorError::UnsupportedInstruction,
                ) && final(self)@ == old(self)@ && final(memory)@ == old(memory)@
                    && final(peripherals)@ == old(peripherals)@,
                OutcomeDev::Halt => r == Err::<(), EmulatorError>(EmulatorError::EcallTermination)
                    && final(self)@ == old(self)@ && final(memory)@ == old(memory)@
                    && final(peripherals)@ == old(peripherals)@,
            }),
    {
        let opcode = instruction & 0x7F;
        match opcode {
            0x03 => self.execute_load_with_peripherals(instruction, memory, peripherals),
            0x23 => self.execute_store_with_peripherals(instruction, memory, peripherals),
            0x2F => self.execute_atomic_with_peripherals(instruction, memory, peripherals),
            _ => self.decode_and_execute(instruction, memory),
        }
    }

    /// Execute exactly one instruction with devices attached: fetch the word
    /// at PC from main memory, decode it, and commit its effects over the
    /// bus.
    pub fn step_with_peripherals(
        &mut self,
        memory: &mut Memory,
        peripherals: &mut PeripheralManager,
    ) -> (r: Result<(), EmulatorError>)
        requires
            old(self).wf(),
        ensures
            final(self).wf(),
            final(memory).spec_base() == old(memory).spec_base(),
            (match sem_step_devices(old(self)@, old(memory)@, old(peripherals)@) {
                OutcomeDev::Next(s2, m2, d2) => r == Ok::<(), EmulatorError>(()) && final(self)@
                    == s2 && final(memory)@ == m2 && final(peripherals)@ == d2,
                OutcomeDev::Trap => r == Err::<(), EmulatorError>(
                    EmulatorError::UnsupportedInstruction,
                ) && final(self)@ == old(self)@ && final(memory)@ == old(memory)@
                    && final(peripherals)@ == old(peripherals)@,
                OutcomeDev::Halt => r == Err::<(), EmulatorError>(EmulatorError::EcallTermination)
                    && final(self)@ == old(self)@ && final(memory)@ == old(memory)@
                    && final(peripherals)@ == old(peripherals)@,
            }),
    {
        let instruction = match memory.read_word(self.pc) {
            Ok(w) => w,
            Err(e) => {
                return Err(e);
            },
        };
        self.decode_and_execute_with_peripherals(instruction, memory, peripherals)
    }

    /// Run the hart with devices attached until the instruction budget is
    /// exhausted, an unsupported instruction stops the loop, or ECALL
    /// terminates the program. The count includes the terminating ECALL; it
    /// does not count the faulting instruction.
    pub fn run_with_peripherals(
        &mut self,
        memory: &mut Memory,
        peripherals: &mut PeripheralManager,
        max_instructions: Option<u32>,
    ) -> (r: Result<u32, EmulatorError>)
        requires
            old(self).wf(),
        ensures
            final(self).wf(),
            final(memory).spec_base() == old(memory).spec_base(),
            (match r {
                Ok(n) => exists|budget: nat|
                    #[trigger] sem_run_devices(old(self)@, old(memory)@, old(peripherals)@, budget)
                        == (final(self)@, final(memory)@, final(peripherals)@, n as nat),
                Err(_) => false,
            }),
            (match max_instructions {
                Some(max) => ({
                    let rr = sem_run_devices(old(self)@, old(memory)@, old(peripherals)@, max as nat);
                    final(self)@ == rr.0 && final(memory)@ == rr.1 && final(peripherals)@ == rr.2
                        && r == Ok::<u32, EmulatorError>(rr.3 as u32)
                }),
                None => (match r {
                    Ok(n) => n == 0xFFFF_FFFFu32 || !(sem_step_devices(
                        final(self)@,
                        final(memory)@,
                        final(peripherals)@,
                    ) is Next),
                    Err(_) => false,
                }),
            }),
    {
        let mut executed: u32 = 0;
        loop
            invariant
                self.wf(),
                memory.spec_base() == old(memory).spec_base(),
                forall|k: nat|
                    #[trigger] sem_run_devices(
                        old(self)@,
                        old(memory)@,
                        old(peripherals)@,
                        (executed as nat + k),
                    ) == {
                        let rr = sem_run_devices(self@, memory@, peripherals@, k);
                        (rr.0, rr.1, rr.2, (rr.3 + executed as nat) as nat)
                    },
                (match max_instructions {
                    Some(max) => executed <= max,
                    None => true,
                }),
            decreases 0x1_0000_0000int - executed as int,
        {
            if let Some(max) = max_instructions {
                if executed >= max {
                    proof {
                        assert(sem_run_devices(
                            old(self)@,
                            old(memory)@,
                            old(peripherals)@,
                            (executed as nat + 0),
                        ) == {
                            let rr = sem_run_devices(self@, memory@, peripherals@, 0nat);
                            (rr.0, rr.1, rr.2, (rr.3 + executed as nat) as nat)
                        });
                    }
                    return Ok(executed);
                }
            }
            if executed == 0xFFFF_FFFFu32 {
                // The count saturates; only reachable without a budget.
                proof {
                    assert(sem_run_devices(
                        old(self)@,
                        old(memory)@,
                        old(peripherals)@,
                        (executed as nat + 0),
                    ) == {
                        let rr = sem_run_devices(self@, memory@, peripherals@, 0nat);
                        (rr.0, rr.1, rr.2, (rr.3 + executed as nat) as nat)
                    });
                }
                return Ok(executed);
            }
            let ghost pre = self@;
            let ghost prem = memory@;
            let ghost pred = peripherals@;
            match self.step_with_peripherals(memory, peripherals) {
                Ok(()) => {
                    proof {
                        assert forall|k: nat|
                            #[trigger] sem_run_devices(
                                old(self)@,
                                old(memory)@,
                                old(peripherals)@,
                                (executed as nat + 1 + k),
                            ) == {
                                let rr = sem_run_devices(self@, memory@, peripherals@, k);
                                (rr.0, rr.1, rr.2, (rr.3 + executed as nat + 1) as nat)
                            } by {
                            assert(sem_run_devices(
                                old(self)@,
                                old(memory)@,
                                old(peripherals)@,
                                (executed as nat + (1 + k)),
                            ) == {
                                let rr = sem_run_devices(pre, prem, pred, (1 + k) as nat);
                                (rr.0, rr.1, rr.2, (rr.3 + executed as nat) as nat)
                            });
                            assert(sem_run_devices(pre, prem, pred, (1 + k) as nat) == {
                                let rr = sem_run_devices(self@, memory@, peripherals@, k);
                                (rr.0, rr.1, rr.2, (rr.3 + 1) as nat)
                            });
                        }
                    }
                    executed = executed + 1;
                },
                Err(EmulatorError::UnsupportedInstruction) => {
                    // Reported and the loop stops; the driver surfaces no error.
                    proof {
                        assert forall|k: nat| k >= 1 implies #[trigger] sem_run_devices(
                            old(self)@,
                            old(memory)@,
                            old(peripherals)@,
                            (executed as nat + k),
                        ) == (self@, memory@, peripherals@, executed as nat) by {
                            assert(sem_run_devices(
                                old(self)@,
                                old(memory)@,
                                old(peripherals)@,
                                (executed as nat + k),
                            ) == {
                                let rr = sem_run_devices(self@, memory@, peripherals@, k);
                                (rr.0, rr.1, rr.2, (rr.3 + executed as nat) as nat)
                            });
                            assert(sem_run_devices(self@, memory@, peripherals@, k) == (
                                self@,
                                memory@,
                                peripherals@,
                                0nat,
                            ));
                        }
                        assert(sem_run_devices(
                            old(self)@,
                            old(memory)@,
                            old(peripherals)@,
                            (executed as nat + 1),
                        ) == (self@, memory@, peripherals@, executed as nat));
                        match max_instructions {
                            Some(max) => {
                                let k: nat = (max - executed) as nat;
                                assert(sem_run_devices(
                                    old(self)@,
                                    old(memory)@,
                                    old(peripherals)@,
                                    (executed as nat + k),
                                ) == (self@, memory@, peripherals@, executed as nat));
                                assert(sem_run_devices(
                                    old(self)@,
                                    old(memory)@,
                                    old(peripherals)@,
                                    max as nat,
                                ) == (self@, memory@, peripherals@, executed as nat));
                            },
                            None => {},
                        }
                    }
                    return Ok(executed);
                },
                Err(EmulatorError::EcallTermination) => {
                    // Normal termination: the ECALL counts as executed.
                    proof {
                        assert forall|k: nat| k >= 1 implies #[trigger] sem_run_devices(
                            old(self)@,
                            old(memory)@,
                            old(peripherals)@,
                            (executed as nat + k),
                        ) == (self@, memory@, peripherals@, (executed + 1) as nat) by {
                            assert(sem_run_devices(
                                old(self)@,
                                old(memory)@,
                                old(peripherals)@,
                                (executed as nat + k),
                            ) == {
                                let rr = sem_run_devices(self@, memory@, peripherals@, k);
                                (rr.0, rr.1, rr.2, (rr.3 + executed as nat) as nat)
                            });
                            assert(sem_run_devices(self@, memory@, peripherals@, k) == (
                                self@,
                                memory@,
                                peripherals@,
                                1nat,
                            ));
                        }
                        assert(sem_run_devices(
                            old(self)@,
                            old(memory)@,
                            old(peripherals)@,
                            (executed as nat + 1),
                        ) == (self@, memory@, peripherals@, (executed + 1) as nat));
                        match max_instructions {
                            Some(max) => {
                                let k: nat = (max - executed) as nat;
                                assert(sem_run_devices(
                                    old(self)@,
                                    old(memory)@,
                                    old(peripherals)@,
                                    (executed as nat + k),
                                ) == (self@, memory@, peripherals@, (executed + 1) as nat));
                                assert(sem_run_devices(
                                    old(self)@,
                                    old(memory)@,
                                    old(peripherals)@,
                                    max as nat,
                                ) == (self@, memory@, peripherals@, (executed + 1) as nat));
                            },
                            None => {},
                        }
                    }
                    executed = executed + 1;
                    return Ok(executed);
                },
                Err(e) => {
                    return Err(e);
                },
            }
        }
    }
}


/// What feeding a script of instruction words, one at a time, does: each
/// word is stored at the current PC and then one step is executed.
pub enum ScriptOutcome {
    /// Every word executed.
    Done(CpuState, Map<u32, u8>),
    /// A word faulted as unsupported; the words before it executed.
    Faulted(CpuState, Map<u32, u8>),
    /// A word raised the ECALL termination signal.
    Halted(CpuState, Map<u32, u8>),
}

/// The machine after running a script of instruction words.
pub open spec fn sem_script(s: CpuState, m: Map<u32, u8>, ws: Seq<u32>) -> ScriptOutcome
    decreases ws.len(),
{
    if ws.len() == 0 {
        ScriptOutcome::Done(s, m)
    } else {
        let m1 = store_word(m, s.pc, ws[0]);
        match sem_step(s, m1) {
            Outcome::Next(s2, m2) => sem_script(s2, m2, ws.skip(1)),
            Outcome::Trap => ScriptOutcome::Faulted(s, m1),
            Outcome::Halt => ScriptOutcome::Halted(s, m1),
        }
    }
}

/// Write each instruction word at the current PC and execute it, one at a
/// time; the first fault or termination signal stops the script.
pub fn run_instructions(cpu: &mut Cpu, memory: &mut Memory, instructions: &[u32]) -> (r: Result<
    (),
    EmulatorError,
>)
    requires
        old(cpu).wf(),
    ensures
        final(cpu).wf(),
        final(memory).spec_base() == old(memory).spec_base(),
        (match sem_script(old(cpu)@, old(memory)@, instructions@) {
            ScriptOutcome::Done(s2, m2) => r == Ok::<(), EmulatorError>(()) && final(cpu)@ == s2
                && final(memory)@ == m2,
            ScriptOutcome::Faulted(s2, m2) => r == Err::<(), EmulatorError>(
                EmulatorError::UnsupportedInstruction,
            ) && final(cpu)@ == s2 && final(memory)@ == m2,
            ScriptOutcome::Halted(s2, m2) => r == Err::<(), EmulatorError>(
                EmulatorError::EcallTermination,
            ) && final(cpu)@ == s2 && final(memory)@ == m2,
        }),
{
    let mut i: usize = 0;
    proof {
        assert(instructions@.skip(0) =~= instructions@);
    }
    while i < instructions.len()
        invariant
            i <= instructions@.len(),
            cpu.wf(),
            memory.spec_base() == old(memory).spec_base(),
            sem_script(old(cpu)@, old(memory)@, instructions@) == sem_script(
                cpu@,
                memory@,
                instructions@.skip(i as int),
            ),
        decreases instructions@.len() - i,
    {
        let instruction = instructions[i];
        proof {
            assert(instructions@.skip(i as int)[0] == instructions@[i as int]);
            assert(instructions@.skip(i as int).skip(1) =~= instructions@.skip(i as int + 1));
        }
        let w = memory.write_word(cpu.pc, instruction);
        if let Err(e) = w {
            return Err(e);
        }
        match cpu.step(memory) {
            Ok(()) => {},
            Err(e) => {
                return Err(e);
            },
        }
        i = i + 1;
    }
    proof {
        assert(instructions@.skip(instructions@.len() as int) =~= Seq::<u32>::empty());
    }
    Ok(())
}


impl Default for Cpu {
    /// The reset state, as `Cpu::new` builds it.
    fn default() -> (r: Cpu)
        ensures
            r.wf(),
            fresh_cpu(r@),
    {
        Cpu::new()
    }
}

} // verus!
