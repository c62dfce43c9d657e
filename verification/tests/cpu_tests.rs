//! Tests of the register file, the CSR file, and each instruction class.

use nekov::cpu::{Cpu, NUM_REGISTERS};
use nekov::memory::Memory;
use nekov::EmulatorError;

#[test]
fn test_cpu_new() {
    let cpu = Cpu::new();
    assert_eq!(cpu.pc, 0);
    for i in 0..NUM_REGISTERS {
        assert_eq!(cpu.read_register(i), 0);
    }
}

#[test]
fn test_register_read_write() {
    let mut cpu = Cpu::new();

    // Writing and reading normal registers
    cpu.write_register(1, 42);
    assert_eq!(cpu.read_register(1), 42);

    // x0 always returns 0
    cpu.write_register(0, 42);
    assert_eq!(cpu.read_register(0), 0);

    // Invalid register access
    assert_eq!(cpu.read_register(100), 0);
    cpu.write_register(100, 42); // Should not panic
}

#[test]
fn test_addi_instruction() {
    let mut cpu = Cpu::new();

    // Basic ADDI
    cpu.write_register(1, 10);
    cpu.execute_addi(2, 1, 5).unwrap();
    assert_eq!(cpu.read_register(2), 15);
    assert_eq!(cpu.pc, 4);

    // ADDI with negative immediate
    cpu.execute_addi(3, 2, -3).unwrap();
    assert_eq!(cpu.read_register(3), 12);
    assert_eq!(cpu.pc, 8);

    // ADDI to x0 (should not change x0)
    cpu.execute_addi(0, 1, 100).unwrap();
    assert_eq!(cpu.read_register(0), 0);
}

#[test]
fn test_addi_overflow() {
    let mut cpu = Cpu::new();

    // Overflow wraps
    cpu.write_register(1, u32::MAX);
    cpu.execute_addi(2, 1, 1).unwrap();
    assert_eq!(cpu.read_register(2), 0);
}

#[test]
fn test_addi_invalid_registers() {
    let mut cpu = Cpu::new();

    // Invalid destination register
    let result = cpu.execute_addi(100, 1, 5);
    assert!(matches!(result, Err(EmulatorError::UnsupportedInstruction)));

    // Invalid source register
    let result = cpu.execute_addi(1, 100, 5);
    assert!(matches!(result, Err(EmulatorError::UnsupportedInstruction)));
}

#[test]
fn test_decode_addi_instruction() {
    let mut cpu = Cpu::new();
    let mut memory = Memory::new();

    cpu.pc = memory.base_address();
    cpu.write_register(1, 10);

    // addi x2, x1, 5
    // Instruction format: [imm(12) | rs1(5) | funct3(3) | rd(5) | opcode(7)]
    let instruction: u32 = (5 << 20) | (1 << 15) | (0 << 12) | (2 << 7) | 0x13;

    memory.write_word(cpu.pc, instruction).unwrap();
    cpu.step(&mut memory).unwrap();

    assert_eq!(cpu.read_register(2), 15); // 10 + 5
    assert_eq!(cpu.pc, memory.base_address() + 4);
}

#[test]
fn test_unsupported_instruction() {
    let mut cpu = Cpu::new();
    let mut memory = Memory::new();

    cpu.pc = memory.base_address();

    // An unsupported instruction (opcode 0x7F)
    let instruction: u32 = 0x7F;
    memory.write_word(cpu.pc, instruction).unwrap();

    let result = cpu.step(&mut memory);
    assert!(matches!(result, Err(EmulatorError::UnsupportedInstruction)));
}

#[test]
fn test_unsupported_instruction_leaves_pc_unchanged() {
    let mut cpu = Cpu::new();
    let mut memory = Memory::new();

    cpu.pc = memory.base_address();
    memory.write_word(cpu.pc, 0x7F).unwrap();

    let pc_before = cpu.pc;
    let result = cpu.step(&mut memory);
    assert!(matches!(result, Err(EmulatorError::UnsupportedInstruction)));
    assert_eq!(cpu.pc, pc_before);
}

#[test]
fn test_cpu_run_with_limit() {
    let mut cpu = Cpu::new();
    let mut memory = Memory::new();

    cpu.pc = memory.base_address();

    // addi x1, x1, 1
    let instruction: u32 = (1 << 20) | (1 << 15) | (0 << 12) | (1 << 7) | 0x13;

    for i in 0..10 {
        memory.write_word(cpu.pc + i * 4, instruction).unwrap();
    }

    cpu.write_register(1, 0);

    let executed = cpu.run(&mut memory, Some(5)).unwrap();
    assert_eq!(executed, 5);
    assert_eq!(cpu.read_register(1), 5); // Incremented 5 times
}

#[test]
fn cpu_test_i_type_instructions() {
    let mut cpu = Cpu::new();

    // SLTI
    cpu.write_register(1, 10);
    cpu.execute_slti(2, 1, 15).unwrap();
    assert_eq!(cpu.read_register(2), 1); // 10 < 15
    cpu.execute_slti(3, 1, 5).unwrap();
    assert_eq!(cpu.read_register(3), 0); // 10 >= 5

    // SLTIU
    cpu.write_register(4, 10);
    cpu.execute_sltiu(5, 4, 15).unwrap();
    assert_eq!(cpu.read_register(5), 1); // 10 < 15
    cpu.execute_sltiu(6, 4, 5).unwrap();
    assert_eq!(cpu.read_register(6), 0); // 10 >= 5

    // XORI
    cpu.write_register(7, 0b1010);
    cpu.execute_xori(8, 7, 0b1100).unwrap();
    assert_eq!(cpu.read_register(8), 0b0110); // 1010 XOR 1100 = 0110

    // ORI
    cpu.write_register(9, 0b1010);
    cpu.execute_ori(10, 9, 0b1100).unwrap();
    assert_eq!(cpu.read_register(10), 0b1110); // 1010 OR 1100 = 1110

    // ANDI
    cpu.write_register(11, 0b1010);
    cpu.execute_andi(12, 11, 0b1100).unwrap();
    assert_eq!(cpu.read_register(12), 0b1000); // 1010 AND 1100 = 1000

    // SLLI
    cpu.write_register(13, 5);
    cpu.execute_slli(14, 13, 2).unwrap();
    assert_eq!(cpu.read_register(14), 20); // 5 << 2 = 20

    // SRLI
    cpu.write_register(15, 20);
    cpu.execute_srli(16, 15, 2).unwrap();
    assert_eq!(cpu.read_register(16), 5); // 20 >> 2 = 5

    // SRAI
    cpu.write_register(17, 0xFFFFFFFC_u32); // -4 in two's complement
    cpu.execute_srai(18, 17, 1).unwrap();
    assert_eq!(cpu.read_register(18), 0xFFFFFFFE_u32); // -4 >> 1 = -2 (arithmetic shift)
}

#[test]
fn test_r_type_instructions() {
    let mut cpu = Cpu::new();

    // ADD
    cpu.write_register(1, 10);
    cpu.write_register(2, 5);
    cpu.execute_add(3, 1, 2).unwrap();
    assert_eq!(cpu.read_register(3), 15);

    // SUB
    cpu.execute_sub(4, 1, 2).unwrap();
    assert_eq!(cpu.read_register(4), 5);

    // SLL
    cpu.write_register(5, 3);
    cpu.execute_sll(6, 1, 5).unwrap(); // 10 << 3 = 80
    assert_eq!(cpu.read_register(6), 80);

    // SLT
    cpu.execute_slt(7, 2, 1).unwrap(); // 5 < 10
    assert_eq!(cpu.read_register(7), 1);

    // SLTU
    cpu.execute_sltu(8, 1, 2).unwrap(); // 10 < 5 (unsigned)
    assert_eq!(cpu.read_register(8), 0);

    // XOR
    cpu.write_register(9, 0b1010);
    cpu.write_register(10, 0b1100);
    cpu.execute_xor(11, 9, 10).unwrap();
    assert_eq!(cpu.read_register(11), 0b0110);

    // SRL
    cpu.write_register(12, 80);
    cpu.execute_srl(13, 12, 5).unwrap(); // 80 >> 3 = 10
    assert_eq!(cpu.read_register(13), 10);

    // SRA (arithmetic right shift)
    cpu.write_register(14, 0xFFFFFFE0_u32); // -32 in two's complement
    cpu.execute_sra(15, 14, 5).unwrap(); // -32 >> 3 = -4
    assert_eq!(cpu.read_register(15), 0xFFFFFFFC_u32);

    // OR
    cpu.execute_or(16, 9, 10).unwrap(); // 1010 OR 1100 = 1110
    assert_eq!(cpu.read_register(16), 0b1110);

    // AND
    cpu.execute_and(17, 9, 10).unwrap(); // 1010 AND 1100 = 1000
    assert_eq!(cpu.read_register(17), 0b1000);
}

#[test]
fn test_m_type_instructions() {
    let mut cpu = Cpu::new();

    // MUL
    cpu.write_register(1, 6);
    cpu.write_register(2, 7);
    cpu.execute_m_type(3, 1, 2, 0x0).unwrap();
    assert_eq!(cpu.read_register(3), 42);

    // MULH (signed multiplication high)
    cpu.write_register(4, 0x80000000); // Large number
    cpu.write_register(5, 2);
    cpu.execute_m_type(6, 4, 5, 0x1).unwrap();
    // Upper 32 bits of the signed multiplication

    // DIV
    cpu.write_register(7, 42);
    cpu.write_register(8, 6);
    cpu.execute_m_type(9, 7, 8, 0x4).unwrap();
    assert_eq!(cpu.read_register(9), 7);

    // DIVU
    cpu.execute_m_type(10, 7, 8, 0x5).unwrap();
    assert_eq!(cpu.read_register(10), 7);

    // REM
    cpu.write_register(11, 43);
    cpu.execute_m_type(12, 11, 8, 0x6).unwrap();
    assert_eq!(cpu.read_register(12), 1); // 43 % 6 = 1

    // REMU
    cpu.execute_m_type(13, 11, 8, 0x7).unwrap();
    assert_eq!(cpu.read_register(13), 1); // 43 % 6 = 1

    // Division by zero
    cpu.write_register(14, 0);
    cpu.execute_m_type(15, 7, 14, 0x4).unwrap();
    assert_eq!(cpu.read_register(15), u32::MAX); // Yields -1
}

#[test]
fn test_mul_high_exact_values() {
    let mut cpu = Cpu::new();

    // MULH: -2^31 * 2 = -2^32, upper word -1
    cpu.write_register(1, 0x80000000);
    cpu.write_register(2, 2);
    cpu.execute_m_type(3, 1, 2, 0x1).unwrap();
    assert_eq!(cpu.read_register(3), 0xFFFFFFFF);

    // MULHU: (2^32-1)^2 has upper word 2^32-2
    cpu.write_register(4, 0xFFFFFFFF);
    cpu.write_register(5, 0xFFFFFFFF);
    cpu.execute_m_type(6, 4, 5, 0x3).unwrap();
    assert_eq!(cpu.read_register(6), 0xFFFFFFFE);

    // MULHSU: -1 * (2^32-1) = -(2^32-1), upper word -1
    cpu.execute_m_type(7, 4, 5, 0x2).unwrap();
    assert_eq!(cpu.read_register(7), 0xFFFFFFFF);
}

#[test]
fn test_division_by_zero_all_forms() {
    let mut cpu = Cpu::new();

    cpu.write_register(1, 12345);
    cpu.write_register(2, 0);

    cpu.execute_m_type(3, 1, 2, 0x4).unwrap(); // DIV
    assert_eq!(cpu.read_register(3), 0xFFFFFFFF);
    cpu.execute_m_type(4, 1, 2, 0x5).unwrap(); // DIVU
    assert_eq!(cpu.read_register(4), 0xFFFFFFFF);
    cpu.execute_m_type(5, 1, 2, 0x6).unwrap(); // REM
    assert_eq!(cpu.read_register(5), 12345);
    cpu.execute_m_type(6, 1, 2, 0x7).unwrap(); // REMU
    assert_eq!(cpu.read_register(6), 12345);
}

#[test]
fn test_signed_division_overflow() {
    let mut cpu = Cpu::new();

    // INT32_MIN / -1 yields the dividend, INT32_MIN % -1 yields zero
    cpu.write_register(1, 0x80000000);
    cpu.write_register(2, 0xFFFFFFFF);
    cpu.execute_m_type(3, 1, 2, 0x4).unwrap(); // DIV
    assert_eq!(cpu.read_register(3), 0x80000000);
    cpu.execute_m_type(4, 1, 2, 0x6).unwrap(); // REM
    assert_eq!(cpu.read_register(4), 0);
}

#[test]
fn cpu_test_load_store_instructions() {
    let mut cpu = Cpu::new();
    let mut memory = Memory::new();
    let base_addr = memory.base_address();

    // Test data in memory
    memory.write_word(base_addr, 0x12345678).unwrap();
    memory.write_word(base_addr + 4, 0xDEADBEEF).unwrap();

    // LW with x0 as base: x0 stays zero, so set up with a non-zero base below
    let lw_instruction = (0 << 20) | (0 << 15) | (0x2 << 12) | (1 << 7) | 0x03; // lw x1, 0(x0)
    cpu.write_register(0, base_addr); // Does not actually change x0
    cpu.execute_load(lw_instruction, &mut memory).unwrap();

    // With a non-zero base register
    cpu.write_register(2, base_addr);
    let lw_instruction = (0 << 20) | (2 << 15) | (0x2 << 12) | (1 << 7) | 0x03; // lw x1, 0(x2)
    cpu.execute_load(lw_instruction, &mut memory).unwrap();
    assert_eq!(cpu.read_register(1), 0x12345678);

    // LB (signed byte)
    let lb_instruction = (0 << 20) | (2 << 15) | (0x0 << 12) | (3 << 7) | 0x03; // lb x3, 0(x2)
    cpu.execute_load(lb_instruction, &mut memory).unwrap();
    assert_eq!(cpu.read_register(3), 0x78); // LSB of 0x12345678

    // LBU (unsigned byte)
    let lbu_instruction = (0 << 20) | (2 << 15) | (0x4 << 12) | (4 << 7) | 0x03; // lbu x4, 0(x2)
    cpu.execute_load(lbu_instruction, &mut memory).unwrap();
    assert_eq!(cpu.read_register(4), 0x78);

    // SW
    cpu.write_register(5, 0xCAFEBABE);
    let sw_instruction = (0 << 25) | (5 << 20) | (2 << 15) | (0x2 << 12) | (8 << 7) | 0x23; // sw x5, 8(x2)
    cpu.execute_store(sw_instruction, &mut memory).unwrap();
    assert_eq!(memory.read_word(base_addr + 8).unwrap(), 0xCAFEBABE);

    // SB
    cpu.write_register(6, 0xAB);
    let sb_instruction = (0 << 25) | (6 << 20) | (2 << 15) | (0x0 << 12) | (12 << 7) | 0x23; // sb x6, 12(x2)
    cpu.execute_store(sb_instruction, &mut memory).unwrap();
    assert_eq!(memory.read_byte(base_addr + 12).unwrap(), 0xAB);
}

#[test]
fn test_signed_byte_roundtrip() {
    let mut cpu = Cpu::new();
    let mut memory = Memory::new();
    let base_addr = memory.base_address();

    // Store byte 0xEF, load signed yields 0xFFFFFFEF, unsigned yields 0xEF
    cpu.write_register(1, base_addr);
    cpu.write_register(2, 0xEF);
    let sb = (0 << 25) | (2 << 20) | (1 << 15) | (0x0 << 12) | (0 << 7) | 0x23; // sb x2, 0(x1)
    cpu.execute_store(sb, &mut memory).unwrap();

    let lb = (0 << 20) | (1 << 15) | (0x0 << 12) | (3 << 7) | 0x03; // lb x3, 0(x1)
    cpu.execute_load(lb, &mut memory).unwrap();
    assert_eq!(cpu.read_register(3), 0xFFFFFFEF);

    let lbu = (0 << 20) | (1 << 15) | (0x4 << 12) | (4 << 7) | 0x03; // lbu x4, 0(x1)
    cpu.execute_load(lbu, &mut memory).unwrap();
    assert_eq!(cpu.read_register(4), 0x000000EF);
}

#[test]
fn cpu_test_branch_instructions() {
    let mut cpu = Cpu::new();

    cpu.pc = 1000;
    cpu.write_register(1, 10);
    cpu.write_register(2, 10);

    // BEQ with equal operands and offset 8 branches
    // Offset 8: imm[4:1] = 4, all other fields 0
    let imm_12 = 0u32;
    let imm_11 = 0u32;
    let imm_10_5 = 0u32;
    let imm_4_1 = 0b0100u32;
    let beq_instruction = (imm_12 << 31)
        | (imm_10_5 << 25)
        | (2 << 20)
        | (1 << 15)
        | (0x0 << 12)
        | (imm_4_1 << 8)
        | (imm_11 << 7)
        | 0x63;
    cpu.execute_branch(beq_instruction).unwrap();
    assert_eq!(cpu.pc, 1008); // 1000 + 8

    // BNE with equal operands does not branch
    cpu.pc = 1000;
    let bne_instruction = (imm_12 << 31)
        | (imm_10_5 << 25)
        | (2 << 20)
        | (1 << 15)
        | (0x1 << 12)
        | (imm_4_1 << 8)
        | (imm_11 << 7)
        | 0x63;
    cpu.execute_branch(bne_instruction).unwrap();
    assert_eq!(cpu.pc, 1004); // 1000 + 4 (not taken)

    // BLT
    cpu.pc = 1000;
    cpu.write_register(3, 5);
    // blt x3, x1, 8 (5 < 10, taken)
    let blt_instruction = (imm_12 << 31)
        | (imm_10_5 << 25)
        | (1 << 20)
        | (3 << 15)
        | (0x4 << 12)
        | (imm_4_1 << 8)
        | (imm_11 << 7)
        | 0x63;
    cpu.execute_branch(blt_instruction).unwrap();
    assert_eq!(cpu.pc, 1008); // 1000 + 8 (taken)
}

#[test]
fn cpu_test_upper_immediate_instructions() {
    let mut cpu = Cpu::new();

    // LUI
    let lui_instruction = (0x12345 << 12) | (1 << 7) | 0x37; // lui x1, 0x12345
    cpu.execute_lui(lui_instruction).unwrap();
    assert_eq!(cpu.read_register(1), 0x12345000);

    // AUIPC
    cpu.pc = 0x1000;
    let auipc_instruction = (0x12345 << 12) | (2 << 7) | 0x17; // auipc x2, 0x12345
    cpu.execute_auipc(auipc_instruction).unwrap();
    assert_eq!(cpu.read_register(2), 0x1000 + 0x12345000);
    assert_eq!(cpu.pc, 0x1004); // PC incremented
}

#[test]
fn test_jump_instructions() {
    let mut cpu = Cpu::new();

    // JAL from PC=1000 with offset 8
    cpu.pc = 1000;
    // J-type format: imm[20|10:1|11|19:12] | rd | opcode
    let imm_20 = 0u32;
    let imm_19_12 = 0u32;
    let imm_11 = 0u32;
    let imm_10_1 = 0b0000000100u32; // 8 >> 1 = 4
    let jal_instruction = (imm_20 << 31)
        | (imm_10_1 << 21)
        | (imm_11 << 20)
        | (imm_19_12 << 12)
        | (1 << 7)
        | 0x6F;
    cpu.execute_jal(jal_instruction).unwrap();
    assert_eq!(cpu.read_register(1), 1004); // Return address (PC + 4)
    assert_eq!(cpu.pc, 1008); // Jump target (1000 + 8)

    // JALR from PC=2000, rs1=3000, imm=4
    cpu.pc = 2000;
    cpu.write_register(2, 3000);
    let jalr_instruction = (4 << 20) | (2 << 15) | (0 << 12) | (3 << 7) | 0x67; // jalr x3, 4(x2)
    cpu.execute_jalr(jalr_instruction).unwrap();
    assert_eq!(cpu.read_register(3), 2004); // Return address
    assert_eq!(cpu.pc, 3004); // Jump target (3000 + 4)
}

#[test]
fn test_jalr_nonzero_funct3_is_unsupported() {
    let mut cpu = Cpu::new();
    cpu.pc = 2000;
    cpu.write_register(2, 3000);
    let jalr_bad = (4 << 20) | (2 << 15) | (1 << 12) | (3 << 7) | 0x67;
    let result = cpu.execute_jalr(jalr_bad);
    assert!(matches!(result, Err(EmulatorError::UnsupportedInstruction)));
    assert_eq!(cpu.pc, 2000);
}

#[test]
fn test_atomic_instructions() {
    let mut cpu = Cpu::new();
    let mut memory = Memory::new();
    let base_addr = memory.base_address();

    memory.write_word(base_addr, 100).unwrap();
    cpu.write_register(1, base_addr);

    // LR.W
    let lr_instruction = (0x02 << 27) | (0 << 20) | (1 << 15) | (0x2 << 12) | (2 << 7) | 0x2F;
    cpu.execute_atomic(lr_instruction, &mut memory).unwrap();
    assert_eq!(cpu.read_register(2), 100);

    // SC.W
    cpu.write_register(3, 200);
    let sc_instruction = (0x03 << 27) | (3 << 20) | (1 << 15) | (0x2 << 12) | (4 << 7) | 0x2F;
    cpu.execute_atomic(sc_instruction, &mut memory).unwrap();
    assert_eq!(cpu.read_register(4), 0); // Success
    assert_eq!(memory.read_word(base_addr).unwrap(), 200);

    // AMOSWAP.W
    cpu.write_register(5, 300);
    let amoswap_instruction = (0x01 << 27) | (5 << 20) | (1 << 15) | (0x2 << 12) | (6 << 7) | 0x2F;
    cpu.execute_atomic(amoswap_instruction, &mut memory).unwrap();
    assert_eq!(cpu.read_register(6), 200); // Old value
    assert_eq!(memory.read_word(base_addr).unwrap(), 300); // New value

    // AMOADD.W
    cpu.write_register(7, 50);
    let amoadd_instruction = (0x00 << 27) | (7 << 20) | (1 << 15) | (0x2 << 12) | (8 << 7) | 0x2F;
    cpu.execute_atomic(amoadd_instruction, &mut memory).unwrap();
    assert_eq!(cpu.read_register(8), 300); // Old value
    assert_eq!(memory.read_word(base_addr).unwrap(), 350); // 300 + 50
}

#[test]
fn test_csr_instructions() {
    let mut cpu = Cpu::new();

    // Basic CSR read/write
    cpu.write_csr(0x300, 0x12345678); // mstatus
    assert_eq!(cpu.read_csr(0x300), 0x12345678);

    // CSRRW
    cpu.write_register(1, 0xABCDEF00);
    cpu.csrs.insert(0x301, 0x11111111);

    // CSRRW x2, 0x301, x1: read 0x301 into x2, write x1 into 0x301
    let csrrw = (0x301 << 20) | (1 << 15) | (1 << 12) | (2 << 7) | 0x73;
    assert!(cpu.execute_system(csrrw).is_ok());
    assert_eq!(cpu.read_register(2), 0x11111111); // Old value of CSR
    assert_eq!(cpu.read_csr(0x301), 0xABCDEF00); // New value written

    // CSRRS with rs1=0 (no write)
    let old_csr = cpu.read_csr(0x301);
    let csrrs_no_write = (0x301 << 20) | (0 << 15) | (2 << 12) | (3 << 7) | 0x73;
    assert!(cpu.execute_system(csrrs_no_write).is_ok());
    assert_eq!(cpu.read_csr(0x301), old_csr); // Unchanged
    assert_eq!(cpu.read_register(3), old_csr); // Read the value

    // CSRRS with rs1!=0 (write)
    cpu.write_register(4, 0x0000F000);
    let csrrs_write = (0x301 << 20) | (4 << 15) | (2 << 12) | (5 << 7) | 0x73;
    assert!(cpu.execute_system(csrrs_write).is_ok());
    assert_eq!(cpu.read_register(5), old_csr); // Read old value
    assert_eq!(cpu.read_csr(0x301), old_csr | 0x0000F000); // Bits set
}

#[test]
fn test_csr_immediate_instructions() {
    let mut cpu = Cpu::new();

    cpu.write_csr(0x340, 0xF0F0F0F0); // mscratch

    // CSRRWI x1, 0x340, 0b10101: old value into x1, immediate into the CSR
    let csrrwi = (0x340 << 20) | (0b10101 << 15) | (5 << 12) | (1 << 7) | 0x73;
    assert!(cpu.execute_system(csrrwi).is_ok());
    assert_eq!(cpu.read_register(1), 0xF0F0F0F0);
    assert_eq!(cpu.read_csr(0x340), 0b10101);

    // CSRRSI x2, 0x340, 0b01010: set bits
    let csrrsi = (0x340 << 20) | (0b01010 << 15) | (6 << 12) | (2 << 7) | 0x73;
    assert!(cpu.execute_system(csrrsi).is_ok());
    assert_eq!(cpu.read_register(2), 0b10101);
    assert_eq!(cpu.read_csr(0x340), 0b11111);

    // CSRRCI x3, 0x340, 0b00111: clear bits
    let csrrci = (0x340 << 20) | (0b00111 << 15) | (7 << 12) | (3 << 7) | 0x73;
    assert!(cpu.execute_system(csrrci).is_ok());
    assert_eq!(cpu.read_register(3), 0b11111);
    assert_eq!(cpu.read_csr(0x340), 0b11000);

    // CSRRSI with a zero immediate reads without writing
    let before = cpu.read_csr(0x340);
    let csrrsi_zero = (0x340 << 20) | (0 << 15) | (6 << 12) | (4 << 7) | 0x73;
    assert!(cpu.execute_system(csrrsi_zero).is_ok());
    assert_eq!(cpu.read_register(4), before);
    assert_eq!(cpu.read_csr(0x340), before);
}

#[test]
fn test_fence_instructions() {
    let mut cpu = Cpu::new();
    let mut memory = Memory::new();
    let base_addr = memory.base_address();

    cpu.pc = base_addr;

    // FENCE (funct3=0)
    let fence_instruction = (0x0 << 12) | 0x0F;
    memory.write_word(cpu.pc, fence_instruction).unwrap();

    let old_pc = cpu.pc;
    cpu.step(&mut memory).unwrap();
    assert_eq!(cpu.pc, old_pc + 4); // PC advances

    // FENCE.I (funct3=1)
    let fence_i_instruction = (0x1 << 12) | 0x0F;
    memory.write_word(cpu.pc, fence_i_instruction).unwrap();

    let old_pc = cpu.pc;
    cpu.step(&mut memory).unwrap();
    assert_eq!(cpu.pc, old_pc + 4); // PC advances
}

#[test]
fn test_fence_bad_funct3_is_unsupported() {
    let mut cpu = Cpu::new();
    let mut memory = Memory::new();
    cpu.pc = memory.base_address();
    let bad_fence = (0x3 << 12) | 0x0F;
    memory.write_word(cpu.pc, bad_fence).unwrap();
    let result = cpu.step(&mut memory);
    assert!(matches!(result, Err(EmulatorError::UnsupportedInstruction)));
}

#[test]
fn test_ecall_terminates_and_is_counted() {
    let mut cpu = Cpu::new();
    let mut memory = Memory::new();
    cpu.pc = memory.base_address();

    // A single ECALL stops the run and counts as executed
    memory.write_word(cpu.pc, 0x00000073).unwrap();
    let result = cpu.step(&mut memory);
    assert!(matches!(result, Err(EmulatorError::EcallTermination)));

    let mut cpu2 = Cpu::new();
    cpu2.pc = memory.base_address();
    let executed = cpu2.run(&mut memory, Some(10)).unwrap();
    assert_eq!(executed, 1);
}

#[test]
fn test_cpu_reset() {
    let mut cpu = Cpu::new();
    cpu.write_register(1, 99);
    cpu.pc = 0x8000_0000;
    cpu.write_csr(0x300, 7);
    cpu.reset();
    assert_eq!(cpu.pc, 0);
    assert_eq!(cpu.read_register(1), 0);
    assert_eq!(cpu.read_csr(0x300), 0);
}

#[test]
fn test_register_roundtrip_all_valid_indices() {
    let mut cpu = Cpu::new();
    for r in 1..NUM_REGISTERS {
        let value = (r as u32) * 3 + 1;
        cpu.write_register(r, value);
        assert_eq!(cpu.read_register(r), value);
    }
    // x0 stays zero whatever was written anywhere
    assert_eq!(cpu.read_register(0), 0);
}

#[test]
fn test_add_sub_wraparound() {
    let mut cpu = Cpu::new();
    cpu.write_register(1, 0xFFFF_FFFF);
    cpu.write_register(2, 2);
    cpu.execute_add(3, 1, 2).unwrap();
    assert_eq!(cpu.read_register(3), 1); // (2^32 - 1 + 2) mod 2^32

    cpu.write_register(4, 0);
    cpu.write_register(5, 1);
    cpu.execute_sub(6, 4, 5).unwrap();
    assert_eq!(cpu.read_register(6), 0xFFFF_FFFF); // (0 - 1) mod 2^32
}
