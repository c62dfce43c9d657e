//! A RISC-V RV32IMA instruction-set simulator.
//!
//! The crate models a single hart with 32 general-purpose registers, a
//! program counter, machine-mode CSRs, a sparse byte-addressable memory and
//! a word-granularity peripheral bus. Every architecturally visible effect
//! of an instruction is stated against a mathematical model of the machine
//! state and proved.

use vstd::prelude::*;

pub mod alu;
pub mod bits;
pub mod cpu;
pub mod isa;
pub mod laws;
pub mod memory;
pub mod peripheral;
pub mod testmode;

verus! {

/// The failure conditions of the simulator.
///
/// `EcallTermination` is not a failure: it is the normal-termination signal
/// raised by the ECALL instruction, carried on the same channel so that the
/// run loop can intercept it.
#[derive(Debug, PartialEq, Eq, Structural)]
pub enum EmulatorError {
    FileNotFound,
    InvalidElfFormat,
    UnsupportedInstruction,
    MemoryAccessError,
    EcallTermination,
}

} // verus!
