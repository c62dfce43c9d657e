//! Classification of a finished run under the riscv-tests convention.
//!
//! A conforming test program ends in an exit environment call with the test
//! number in gp (x3), the exit code in a0 (x10) and the syscall number 93 in
//! a7 (x17): test number 1 with exit code 0 is a pass, any other test number
//! is a failure carrying the exit code, and anything else is unknown.

use crate::cpu::Cpu;
use crate::isa::{reg_read, CpuState};
use vstd::prelude::*;

verus! {

/// The verdict of a run under the riscv-tests convention.
#[derive(Debug, PartialEq, Eq, Structural)]
pub enum TestResult {
    Pass,
    Fail(u32),
    Unknown,
}

/// The verdict that the final register state encodes.
pub open spec fn spec_test_result(s: CpuState) -> TestResult {
    let testnum = reg_read(s, 3);
    let a0 = reg_read(s, 10);
    let a7 = reg_read(s, 17);
    if a7 == 93 {
        if testnum == 1 && a0 == 0 {
            TestResult::Pass
        } else if testnum != 1 {
            TestResult::Fail(a0)
        } else {
            TestResult::Unknown
        }
    } else {
        TestResult::Unknown
    }
}

/// Classify a finished run: read gp, a0 and a7 and apply the riscv-tests
/// pass/fail convention.
pub fn check_riscv_test_result(cpu: &Cpu) -> (r: TestResult)
    requires
        cpu.wf(),
    ensures
        r == spec_test_result(cpu@),
{
    let testnum = cpu.read_register(3);
    let a0 = cpu.read_register(10);
    let a7 = cpu.read_register(17);
    if a7 == 93 {
        if testnum == 1 && a0 == 0 {
            TestResult::Pass
        } else if testnum != 1 {
            TestResult::Fail(a0)
        } else {
            TestResult::Unknown
        }
    } else {
        TestResult::Unknown
    }
}

} // verus!
