//! Constants of the zkVM platform: memory geometry, the register ABI of
//! privileged calls, and the fixed cycle costs of the proof system.

use vstd::prelude::*;

verus! {

/// Size in bytes of a RISC-V word.
pub const WORD_SIZE: u32 = 4;

/// Size in bytes of one page of the memory image.
pub const PAGE_SIZE: u32 = 1024;

/// Size in bytes of the guest-addressable memory.
pub const MEM_SIZE: u32 = 0x0C00_0000;

/// The register file is memory-mapped at a reserved region directly above
/// guest memory; each of the 32 registers occupies one word.
pub const REG_BASE: u32 = 0x0C00_0000;

/// One-past-the-end of the monitored address space (guest memory followed
/// by the 32 memory-mapped registers).
pub const ADDR_END: u32 = 0x0C00_0080;

/// Number of pages in the monitored address space.
pub const NUM_PAGES: u32 = 196609;

/// Number of 32-bit words in a digest.
pub const DIGEST_WORDS: u32 = 8;

/// Number of bytes in a digest.
pub const DIGEST_BYTES: u32 = 32;

/// Number of 32-bit words in a SHA-256 block.
pub const BLOCK_WORDS: u32 = 16;

/// Number of bytes in a SHA-256 block.
pub const BLOCK_BYTES: u32 = 64;

/// Cycles required to compress one SHA-256 block.
pub const SHA_CYCLES: u64 = 72;

/// Cycles required to complete one big-integer operation.
pub const BIGINT_CYCLES: u64 = 9;

/// Cycles charged by the proof system for zero-knowledge blinding.
pub const ZK_CYCLES: u64 = 20;

/// Fixed cycle cost of segment setup.
pub const INIT_CYCLES: u64 = 40;

/// Fixed cycle cost of segment teardown.
pub const FINI_CYCLES: u64 = 40;

/// Fixed per-segment overhead: setup, teardown, one SHA block and the
/// zero-knowledge blinding cycles.
pub const CONST_CYCLES: u64 = 172;

/// Cycles charged the first time a page is read or written in a segment:
/// the cost of hashing the page, one SHA-256 block per `BLOCK_BYTES`.
pub const PAGE_CYCLES: u64 = 1152;

/// Number of registers in the RISC-V register file.
pub const REG_MAX: u32 = 32;

/// Register `t0`, selector of the privileged call.
pub const REG_T0: u32 = 5;

/// Register `a0`.
pub const REG_A0: u32 = 10;

/// Register `a1`.
pub const REG_A1: u32 = 11;

/// Register `a2`.
pub const REG_A2: u32 = 12;

/// Register `a3`.
pub const REG_A3: u32 = 13;

/// Register `a4`.
pub const REG_A4: u32 = 14;

/// Privileged call selector: terminate or pause the guest.
pub const ECALL_HALT: u32 = 0;

/// Privileged call selector: read a digest from the input side channel.
pub const ECALL_INPUT: u32 = 1;

/// Privileged call selector: host-assisted syscall.
pub const ECALL_SOFTWARE: u32 = 2;

/// Privileged call selector: SHA-256 block compression.
pub const ECALL_SHA: u32 = 3;

/// Privileged call selector: 256-bit multiplication, optionally modular.
pub const ECALL_BIGINT: u32 = 4;

/// Halt type requesting non-resumable termination.
pub const HALT_TERMINATE: u32 = 0;

/// Halt type requesting a resumable pause.
pub const HALT_PAUSE: u32 = 1;

/// Number of words of a big-integer operand.
pub const BIGINT_WIDTH_WORDS: u32 = 8;

/// Number of bytes of a big-integer operand.
pub const BIGINT_WIDTH_BYTES: u32 = 32;

/// Smallest accepted segment limit exponent; `2^po2` must at least cover
/// the fixed per-segment overhead together with a few touched pages.
pub const MIN_PO2: u32 = 13;

/// Largest accepted segment limit exponent.
pub const MAX_PO2: u32 = 28;

/// Upper bound on the extra cycles any single privileged call may report.
pub const EXTRA_CYCLES_MAX: u64 = 0x100_0000_0000;

} // verus!
