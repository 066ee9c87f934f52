//! Common types of the execution phase: exit codes, instruction
//! classification, syscall records and trace events.

use vstd::prelude::*;

verus! {

/// Why a segment or a run ended.
#[derive(Clone, Copy, Debug, PartialEq, Eq, Structural)]
pub enum ExitCode {
    /// The segment ended because the next instruction would not fit under
    /// the segment cycle limit; execution continues in the next segment.
    SystemSplit,
    /// The total session cycle budget was exceeded; fatal for the run.
    SessionLimit,
    /// The guest requested a pause with a user code; resumable.
    Paused(u8),
    /// The guest terminated with a user code; not resumable.
    Halted(u8),
    /// Decoding or stepping failed at the given program counter; terminal.
    Fault(u32),
}

/// Errors that abort a run rather than becoming part of a session.
#[derive(Clone, Copy, Debug, PartialEq, Eq, Structural)]
pub enum ExecError {
    /// Register `t0` held an unknown privileged call selector.
    UnknownEcall(u32),
    /// A halt requested a type other than terminate or pause.
    IllegalHaltType(u32),
    /// A big-integer call with a non-zero `op` word.
    BigIntOp(u32),
    /// A big-integer multiplication without modulus overflowed 256 bits.
    BigIntOverflow,
    /// An operand pointer reached outside the monitored address space.
    BadAddress(u32),
    /// A syscall name ran past the end of memory without a terminator.
    BadSyscallName,
    /// The host refused or failed a syscall.
    SyscallFailed,
    /// The host failed to step an instruction.
    InsnFailed,
    /// An instruction word could not be decoded.
    DecodeFailed(u32),
    /// The host refused a segment.
    SegmentRefused,
    /// The session cycle budget was exceeded.
    SessionLimitExceeded,
    /// The segment index would not fit in 32 bits.
    TooManySegments,
    /// The configured segment limit exponent lies outside the accepted
    /// range.
    BadSegmentLimit(u32),
    /// `run` was called again after the guest halted.
    ResumeAfterHalt,
}

/// A host-assisted syscall as recorded for replay: the words handed to
/// the guest and the values returned in registers `a0` and `a1`.
pub struct SyscallRecord {
    /// Words stored to the guest's output buffer.
    pub to_guest: Vec<u32>,
    /// Values returned in `(a0, a1)`.
    pub regs: (u32, u32),
}

impl SyscallRecord {
    /// An identical copy of the record.
    pub fn duplicate(&self) -> (r: SyscallRecord)
        ensures
            r.to_guest@ == self.to_guest@,
            r.regs == self.regs,
    {
        let mut to_guest: Vec<u32> = Vec::new();
        let mut i: usize = 0;
        while i < self.to_guest.len()
            invariant
                i <= self.to_guest@.len(),
                to_guest@ == self.to_guest@.take(i as int),
            decreases self.to_guest@.len() - i,
        {
            to_guest.push(self.to_guest[i]);
            proof {
                assert(to_guest@ =~= self.to_guest@.take(i + 1));
            }
            i = i + 1;
        }
        proof {
            assert(to_guest@ =~= self.to_guest@);
        }
        SyscallRecord { to_guest, regs: self.regs }
    }
}

/// Coarse classification of an instruction.
#[derive(Clone, Copy, Debug, PartialEq, Eq, Structural)]
pub enum MajorType {
    /// A privileged call.
    ECall,
    /// An ordinary computational instruction.
    Compute,
    /// A load or store.
    MemIo,
    /// A multiply or divide of the M extension.
    MulDiv,
}

/// An instruction word is decodable when its low bits mark a 32-bit
/// encoding and its opcode field is one this machine executes; the only
/// system instruction accepted is the privileged call itself.
pub open spec fn decodable(insn: u32) -> bool {
    insn & 3 == 3 && {
        let op = insn & 0x7f;
        op == 0x37 || op == 0x17 || op == 0x6f || op == 0x67 || op == 0x63 || op == 0x03 || op
            == 0x23 || op == 0x13 || op == 0x0f || op == 0x33 || insn == 0x73
    }
}

/// The major type of a decodable instruction word.
pub open spec fn major_of(insn: u32) -> MajorType {
    let op = insn & 0x7f;
    if insn == 0x73 {
        MajorType::ECall
    } else if op == 0x03 || op == 0x23 {
        MajorType::MemIo
    } else if op == 0x33 && insn >> 25 == 1 {
        MajorType::MulDiv
    } else {
        MajorType::Compute
    }
}

/// The base cycle cost of a decodable instruction word: one cycle, two
/// for the M extension.
pub open spec fn cycles_of(insn: u32) -> u64 {
    if major_of(insn) is MulDiv {
        2
    } else {
        1
    }
}

/// A decoded instruction: the word, its classification and its base
/// cycle cost.
#[derive(Clone, Copy, Debug)]
pub struct OpCode {
    /// The instruction word.
    pub insn: u32,
    /// Coarse classification.
    pub major: MajorType,
    /// Base cycle cost.
    pub cycles: u64,
}

impl OpCode {
    /// Classify a 32-bit instruction word into a major type and base
    /// cycle cost; undecodable words fail.
    pub fn decode(insn: u32, pc: u32) -> (r: Result<OpCode, ExecError>)
        ensures
            r is Ok <==> decodable(insn),
            r matches Ok(op) ==> op.insn == insn && op.major == major_of(insn) && op.cycles
                == cycles_of(insn) && 1 <= op.cycles <= 2,
            r matches Err(e) ==> e == ExecError::DecodeFailed(insn),
    {
        if insn & 3 != 3 {
            return Err(ExecError::DecodeFailed(insn));
        }
        let op = insn & 0x7f;
        if insn == 0x73 {
            Ok(OpCode { insn, major: MajorType::ECall, cycles: 1 })
        } else if op == 0x03 || op == 0x23 {
            Ok(OpCode { insn, major: MajorType::MemIo, cycles: 1 })
        } else if op == 0x33 && insn >> 25u32 == 1 {
            Ok(OpCode { insn, major: MajorType::MulDiv, cycles: 2 })
        } else if op == 0x37 || op == 0x17 || op == 0x6f || op == 0x67 || op == 0x63 || op == 0x13
            || op == 0x0f || op == 0x33 {
            Ok(OpCode { insn, major: MajorType::Compute, cycles: 1 })
        } else {
            Err(ExecError::DecodeFailed(insn))
        }
    }
}

/// Outcome of executing one instruction: the next program counter, an
/// exit code if the instruction ended the segment or the session, and the
/// extra cycles it consumed beyond the base cost.
#[derive(Clone, Copy, Debug)]
pub struct OpCodeResult {
    /// Program counter after the instruction.
    pub pc: u32,
    /// Exit produced by the instruction, if any.
    pub exit_code: Option<ExitCode>,
    /// Cycles beyond the opcode's base cost.
    pub extra_cycles: u64,
}

impl OpCodeResult {
    /// Bundle an instruction outcome.
    pub fn new(pc: u32, exit_code: Option<ExitCode>, extra_cycles: u64) -> (r: OpCodeResult)
        ensures
            r.pc == pc && r.exit_code == exit_code && r.extra_cycles == extra_cycles,
    {
        OpCodeResult { pc, exit_code, extra_cycles }
    }
}

/// An event traced from the running machine.
#[derive(Clone, Copy, Debug, PartialEq, Eq, Structural)]
pub enum TraceEvent {
    /// An instruction has started at the given program counter.
    InstructionStart {
        /// Cycle number since startup.
        cycle: u32,
        /// Program counter of the instruction being executed.
        pc: u32,
    },
    /// A register has been set.
    RegisterSet {
        /// Register index.
        reg: usize,
        /// New value in the register.
        value: u32,
    },
    /// A memory location has been written.
    MemorySet {
        /// Address of the word that has been written.
        addr: u32,
        /// Value of the word that has been written.
        value: u32,
    },
}

} // verus!
