//! The executor loop: step and advance, cycle accounting, segmentation
//! decisions, session-limit enforcement, and the privileged-call
//! handlers.

use vstd::prelude::*;
use vstd::arithmetic::power2::pow2;
use crate::bigint::{mul256_checked, mulmod256};
use crate::bytes::{byte_of_word, le_val, word_byte, word_from_be};
use crate::host::Host;
use crate::image::{image_id, lemma_image_id_of_view, MemoryImage};
use crate::monitor::{bytes_of, reg_addr, word_of, write_bytes, MemoryMonitor};
use crate::platform::{
    ADDR_END, BIGINT_CYCLES, CONST_CYCLES, ECALL_BIGINT, ECALL_HALT, ECALL_INPUT, ECALL_SHA,
    ECALL_SOFTWARE, EXTRA_CYCLES_MAX, HALT_PAUSE, HALT_TERMINATE, INIT_CYCLES, MEM_SIZE, PAGE_CYCLES,
    REG_A0,
    REG_A1, REG_A2, REG_A3, REG_A4, REG_MAX, REG_T0, SHA_CYCLES,
};
use crate::session::{sum_bodies, ExecutorEnv, Segment, Session};
use crate::sha::{be_state_bytes, be_words, compress_block, sha_block, sha_fold};
use crate::types::{
    decodable, ExecError, ExitCode, MajorType, OpCode, OpCodeResult, SyscallRecord, TraceEvent,
};

verus! {

/// Little-endian byte serialization of a word sequence.
pub open spec fn le_words_bytes(s: Seq<u32>) -> Seq<u8> {
    Seq::new((4 * s.len()) as nat, |i: int| word_byte(s[i / 4], (i % 4) as u32))
}

/// A NUL-terminated byte string read from memory: the bytes before the
/// first zero byte, or nothing if no zero byte lies inside the address
/// space.
pub open spec fn scan_name(m: Map<u32, u32>, a: u32) -> Option<Seq<u8>>
    decreases ADDR_END - a,
{
    if a >= ADDR_END {
        None
    } else if crate::monitor::byte_of(m, a) == 0 {
        Some(Seq::empty())
    } else {
        match scan_name(m, (a + 1) as u32) {
            None => None,
            Some(t) => Some(seq![crate::monitor::byte_of(m, a)] + t),
        }
    }
}

/// A byte string of `n` bytes has length `n`.
pub proof fn lemma_bytes_of_len(m: Map<u32, u32>, a: u32, n: nat)
    ensures
        bytes_of(m, a, n).len() == n,
    decreases n,
{
    if n > 0 {
        lemma_bytes_of_len(m, (a + 1) as u32, (n - 1) as nat);
    }
}

/// Whether the halt call succeeds, from the registers it reads: the
/// digest pointer in `a1` is loadable and the halt type in `a0` is
/// terminate or pause.
pub open spec fn halt_ok(m: Map<u32, u32>) -> bool {
    let tot = word_of(m, reg_addr(REG_A0));
    let out = word_of(m, reg_addr(REG_A1));
    out + 32 <= ADDR_END && (tot & 0xff == HALT_TERMINATE || tot & 0xff == HALT_PAUSE)
}

/// The outcome of a successful halt call at `pc`.
pub open spec fn halt_result(m: Map<u32, u32>, pc: u32) -> OpCodeResult {
    let tot = word_of(m, reg_addr(REG_A0));
    if tot & 0xff == HALT_TERMINATE {
        OpCodeResult {
            pc,
            exit_code: Some(ExitCode::Halted(((tot >> 8) & 0xff) as u8)),
            extra_cycles: 0,
        }
    } else {
        OpCodeResult {
            pc: (pc + 4) as u32,
            exit_code: Some(ExitCode::Paused(((tot >> 8) & 0xff) as u8)),
            extra_cycles: 0,
        }
    }
}

/// Whether the input call succeeds: the digest pointer in `a0` is
/// loadable.
pub open spec fn input_ok(m: Map<u32, u32>) -> bool {
    word_of(m, reg_addr(REG_A0)) + 32 <= ADDR_END
}

/// Whether the sha call succeeds: state pointers loadable and every
/// half-block of the `count` blocks inside the address space.
pub open spec fn sha_ok(m: Map<u32, u32>) -> bool {
    let out_p = word_of(m, reg_addr(REG_A0));
    let in_p = word_of(m, reg_addr(REG_A1));
    let b1 = word_of(m, reg_addr(REG_A2));
    let b2 = word_of(m, reg_addr(REG_A3));
    let count = word_of(m, reg_addr(REG_A4));
    in_p + 32 <= ADDR_END && out_p + 32 <= ADDR_END && (count == 0 || (b1 + 64 * (count - 1) + 32
        <= ADDR_END && b2 + 64 * (count - 1) + 32 <= ADDR_END))
}

/// Extra cycles of the sha call: one block compression per block.
pub open spec fn sha_extra(m: Map<u32, u32>) -> nat {
    (SHA_CYCLES * word_of(m, reg_addr(REG_A4))) as nat
}

/// Memory after a successful sha call: the folded state, serialized big
/// endian, stored at the output pointer.
pub open spec fn sha_post(m: Map<u32, u32>) -> Map<u32, u32> {
    let out_p = word_of(m, reg_addr(REG_A0));
    let in_p = word_of(m, reg_addr(REG_A1));
    let b1 = word_of(m, reg_addr(REG_A2));
    let b2 = word_of(m, reg_addr(REG_A3));
    let count = word_of(m, reg_addr(REG_A4));
    write_bytes(
        m,
        out_p,
        be_state_bytes(sha_fold(be_words(bytes_of(m, in_p, 32)), m, b1, b2, count as nat)),
    )
}

/// Whether the bigint call succeeds: `a1` holds zero, the operand
/// pointers are loadable, and with a zero modulus the product fits 256
/// bits.
pub open spec fn bigint_ok(m: Map<u32, u32>) -> bool {
    let z_p = word_of(m, reg_addr(REG_A0));
    let op = word_of(m, reg_addr(REG_A1));
    let x_p = word_of(m, reg_addr(REG_A2));
    let y_p = word_of(m, reg_addr(REG_A3));
    let n_p = word_of(m, reg_addr(REG_A4));
    let xv = le_val(bytes_of(m, x_p, 32));
    let yv = le_val(bytes_of(m, y_p, 32));
    let nv = le_val(bytes_of(m, n_p, 32));
    op == 0 && z_p + 32 <= ADDR_END && x_p + 32 <= ADDR_END && y_p + 32 <= ADDR_END && n_p + 32
        <= ADDR_END && (nv == 0 ==> xv * yv < pow2(256))
}

/// Relation between the memories before and after a successful bigint
/// call: 32 little-endian result bytes holding the (possibly modular)
/// product stand at the output pointer.
pub open spec fn bigint_post(m: Map<u32, u32>, m2: Map<u32, u32>) -> bool {
    let z_p = word_of(m, reg_addr(REG_A0));
    let x_p = word_of(m, reg_addr(REG_A2));
    let y_p = word_of(m, reg_addr(REG_A3));
    let n_p = word_of(m, reg_addr(REG_A4));
    let xv = le_val(bytes_of(m, x_p, 32));
    let yv = le_val(bytes_of(m, y_p, 32));
    let nv = le_val(bytes_of(m, n_p, 32));
    exists|zb: Seq<u8>|
        zb.len() == 32 && le_val(zb) == (if nv == 0 {
            xv * yv
        } else {
            (xv * yv) % nv
        }) && m2 == write_bytes(m, z_p, zb)
}

/// Memory after the software call stores a record: its words at the
/// guest's buffer, its register pair in `a0` and `a1`.
pub open spec fn software_post(mh: Map<u32, u32>, ptr: u32, to_guest: Seq<u32>, a0: u32, a1: u32) -> Map<
    u32,
    u32,
> {
    write_bytes(mh, ptr, le_words_bytes(to_guest)).insert(reg_addr(REG_A0), a0).insert(
        reg_addr(REG_A1),
        a1,
    )
}

/// The executor: runs the guest, counts proof-relevant cycles, and cuts
/// the trace into segments.
pub struct Executor {
    /// Configuration of the run.
    pub env: ExecutorEnv,
    /// Image at the start of the current segment.
    pub pre_image: MemoryImage,
    /// The monitored memory.
    pub monitor: MemoryMonitor,
    /// Current program counter.
    pub pc: u32,
    /// Fixed cycle cost of segment setup.
    pub init_cycles: u64,
    /// Opcode and privileged-call cycles retired in the current segment.
    pub body_cycles: u64,
    /// `init_cycles + page_read_cycles + body_cycles`.
    pub segment_cycle: u64,
    /// Segments closed so far in this run.
    pub segments: Vec<Segment>,
    /// Instructions retired in the current segment.
    pub insn_counter: u32,
    /// Index of the next segment, counted across the whole session:
    /// pauses and resumptions continue the numbering without gaps.
    pub segment_index: u32,
    /// Index of the instruction that caused the latest split.
    pub split_insn: Option<u32>,
    /// Fixed overhead of every segment.
    pub const_cycles: u64,
    /// A syscall observed but not yet committed.
    pub pending_syscall: Option<SyscallRecord>,
    /// Syscalls committed in the current segment.
    pub syscalls: Vec<SyscallRecord>,
    /// Terminal exit code once a run has ended.
    pub exit_code: Option<ExitCode>,
    /// Bytes the guest has committed to the journal in this run.
    pub journal: Vec<u8>,
    /// Total opcode and privileged-call cycles committed in this run.
    pub retired: Ghost<nat>,
}

impl Executor {
    /// Cycles of the current segment counting only committed page
    /// charges.
    pub open spec fn committed_total(self) -> nat {
        (self.const_cycles + self.monitor.committed_read_cycles()
            + self.monitor.committed_write_cycles() + self.body_cycles) as nat
    }

    /// Cycles of the current segment, speculative page charges included.
    pub open spec fn total_cycles_spec(self) -> nat {
        (self.const_cycles + self.monitor.read_cycles() + self.monitor.write_cycles()
            + self.body_cycles) as nat
    }

    /// Cycle position within the whole session.
    pub open spec fn session_cycle_spec(self) -> nat {
        (self.segments@.len() * self.env.limit() + self.segment_cycle) as nat
    }

    /// Whether a configured session limit has been reached.
    pub open spec fn session_limit_hit(self) -> bool {
        match self.env.session_limit {
            Some(l) => self.session_cycle_spec() >= l,
            None => false,
        }
    }

    /// The executor invariant: the configuration and memory are sound,
    /// the fixed costs are the platform's, the committed segment cost
    /// fits under the segment limit, the segment cycle tracks the
    /// committed page reads and the body, and the committed memory is
    /// the segment's pre-image overlaid with its committed writes.
    pub open spec fn wf(self) -> bool {
        &&& self.env.wf()
        &&& self.monitor.wf()
        &&& self.pre_image.wf()
        &&& self.const_cycles == CONST_CYCLES
        &&& self.init_cycles == INIT_CYCLES
        &&& self.committed_total() <= self.env.limit()
        &&& self.segment_cycle == INIT_CYCLES + self.monitor.committed_read_cycles()
            + self.body_cycles
        &&& self.monitor.seg_start_mem() == self.pre_image@
        &&& self.insn_counter <= self.body_cycles
        &&& self.segments@.len() <= u32::MAX
    }

    /// Everything a privileged-call handler leaves alone: all executor
    /// bookkeeping and the committed memory state.
    pub open spec fn frame_eq(a: Executor, b: Executor) -> bool {
        &&& b.env == a.env
        &&& b.pre_image == a.pre_image
        &&& b.segments@ == a.segments@
        &&& b.segment_index == a.segment_index
        &&& b.body_cycles == a.body_cycles
        &&& b.retired == a.retired
        &&& b.segment_cycle == a.segment_cycle
        &&& b.insn_counter == a.insn_counter
        &&& b.split_insn == a.split_insn
        &&& b.exit_code == a.exit_code
        &&& b.syscalls@ == a.syscalls@
        &&& b.pc == a.pc
        &&& b.init_cycles == a.init_cycles
        &&& b.const_cycles == a.const_cycles
        &&& MemoryMonitor::same_committed(a.monitor, b.monitor)
    }

    /// The pending syscall records are equal in content.
    pub open spec fn pending_eq(a: Option<SyscallRecord>, b: Option<SyscallRecord>) -> bool {
        match (a, b) {
            (Option::None, Option::None) => true,
            (Option::Some(x), Option::Some(y)) => x.to_guest@ == y.to_guest@ && x.regs == y.regs,
            _ => false,
        }
    }

    /// A new executor over an image and entry point, at the start of a
    /// fresh session.
    pub fn new(env: ExecutorEnv, image: MemoryImage, pc: u32) -> (r: Executor)
        requires
            env.wf(),
            image.wf(),
        ensures
            r.wf(),
            r.env == env,
            r.pc == pc,
            r.pre_image@ == image@,
            r.monitor.committed() == image@,
            r.body_cycles == 0,
            r.segments@.len() == 0,
            r.exit_code is None,
            r.retired@ == 0,
            r.journal@.len() == 0,
            r.monitor.spec_empty(),
            r.split_insn is None,
            r.insn_counter == 0,
            r.syscalls@.len() == 0,
            r.pending_syscall is None,
            r.monitor.reads_rec().len() == 0,
            r.monitor.writes_rec().len() == 0,
            r.segment_cycle == INIT_CYCLES,
            r.segment_index == 0,
    {
        proof {
            let po2 = env.segment_limit_po2;
            assert((1u64 << po2) >= 8192) by (bit_vector)
                requires
                    13 <= po2 <= 28,
            ;
        }
        let pre_image = image.snapshot();
        let monitor = MemoryMonitor::new(image);
        Executor {
            env,
            pre_image,
            monitor,
            pc,
            init_cycles: INIT_CYCLES,
            body_cycles: 0,
            segment_cycle: INIT_CYCLES,
            segments: Vec::new(),
            insn_counter: 0,
            segment_index: 0,
            split_insn: None,
            const_cycles: CONST_CYCLES,
            pending_syscall: None,
            syscalls: Vec::new(),
            exit_code: None,
            journal: Vec::new(),
            retired: Ghost(0),
        }
    }

    /// Total cycles of the current segment, speculative page charges
    /// included.
    pub fn total_cycles(&self) -> (r: u64)
        requires
            self.wf(),
        ensures
            r == self.total_cycles_spec(),
    {
        proof {
            self.monitor.lemma_cycle_bounds();
            let po2 = self.env.segment_limit_po2;
            assert((1u64 << po2) <= 0x1000_0000u64) by (bit_vector)
                requires
                    13 <= po2 <= 28,
            ;
        }
        self.const_cycles + self.monitor.page_read_cycles() + self.monitor.page_write_cycles()
            + self.body_cycles
    }

    /// Cycle position within the whole session.
    pub fn session_cycle(&self) -> (r: u64)
        requires
            self.wf(),
        ensures
            r == self.session_cycle_spec(),
    {
        proof {
            self.monitor.lemma_cycle_bounds();
            let po2 = self.env.segment_limit_po2;
            assert((1u64 << po2) <= 0x1000_0000u64) by (bit_vector)
                requires
                    13 <= po2 <= 28,
            ;
            assert(self.segments@.len() * self.env.limit() <= 0x1_0000_0000 * 0x1000_0000)
                by (nonlinear_arith)
                requires
                    self.segments@.len() <= 0x1_0000_0000,
                    self.env.limit() <= 0x1000_0000,
            ;
        }
        let limit = self.segment_limit();
        (self.segments.len() as u64) * limit + self.segment_cycle
    }

    /// The segment cycle limit, `2^segment_limit_po2`.
    pub fn segment_limit(&self) -> (r: u64)
        requires
            self.env.wf(),
        ensures
            r == self.env.limit(),
    {
        proof {
            let po2 = self.env.segment_limit_po2;
            assert((1u64 << po2) >= 1) by (bit_vector)
                requires
                    13 <= po2 <= 28,
            ;
        }
        1u64 << self.env.segment_limit_po2
    }

    /// Begin a new segment from the given image: reset the per-segment
    /// counters and the monitor's segment state.
    pub fn split(&mut self, pre_image: MemoryImage)
        requires
            old(self).wf(),
            pre_image.wf(),
            pre_image@ == old(self).monitor.committed(),
        ensures
            final(self).wf(),
            final(self).pre_image == pre_image,
            final(self).body_cycles == 0,
            final(self).split_insn is None,
            final(self).insn_counter == 0,
            final(self).segment_cycle == INIT_CYCLES,
            final(self).monitor.committed() == old(self).monitor.committed(),
            final(self).monitor.spec_empty(),
            final(self).monitor.reads_rec().len() == 0,
            final(self).monitor.writes_rec().len() == 0,
            final(self).segment_index == old(self).segment_index,
            final(self).segments@ == old(self).segments@,
            final(self).retired == old(self).retired,
            final(self).env == old(self).env,
            final(self).exit_code == old(self).exit_code,
            final(self).pc == old(self).pc,
            final(self).journal@ == old(self).journal@,
            Executor::pending_eq(final(self).pending_syscall, old(self).pending_syscall),
            final(self).syscalls@ == old(self).syscalls@,
    {
        proof {
            let po2 = self.env.segment_limit_po2;
            assert((1u64 << po2) >= 8192) by (bit_vector)
                requires
                    13 <= po2 <= 28,
            ;
        }
        self.pre_image = pre_image;
        self.body_cycles = 0;
        self.split_insn = None;
        self.insn_counter = 0;
        self.segment_cycle = INIT_CYCLES;
        self.monitor.clear_segment();
    }

    /// Route a privileged call by the selector in register `t0`.
    pub fn ecall<H: Host>(&mut self, host: &mut H) -> (r: Result<OpCodeResult, ExecError>)
        requires
            old(self).wf(),
            old(self).pc % 4 == 0,
            old(self).pc + 4 <= ADDR_END,
        ensures
            final(self).wf(),
            Executor::frame_eq(*old(self), *final(self)),
            old(self).journal@.is_prefix_of(final(self).journal@),
            r matches Ok(res) ==> res.extra_cycles <= EXTRA_CYCLES_MAX && (match res.exit_code {
                Option::None => true,
                Option::Some(e) => e is Halted || e is Paused,
            }),
            r is Err ==> Executor::pending_eq(
                final(self).pending_syscall,
                old(self).pending_syscall,
            ),
            ({
                let m = old(self).monitor.cur();
                let t0 = word_of(m, reg_addr(REG_T0));
                t0 == ECALL_HALT ==> (r is Ok <==> halt_ok(m)) && (r matches Ok(res) ==> res
                    == halt_result(m, old(self).pc)) && final(self).monitor.cur() == m && final(self).monitor.read_cycles() <= old(self).monitor.read_cycles() + 35 * PAGE_CYCLES
                    && final(self).monitor.write_cycles() == old(self).monitor.write_cycles()
            }),
            ({
                let m = old(self).monitor.cur();
                let t0 = word_of(m, reg_addr(REG_T0));
                t0 == ECALL_INPUT ==> (r is Ok <==> input_ok(m)) && (r matches Ok(res) ==> res.pc
                    == old(self).pc + 4 && res.exit_code is None && res.extra_cycles == 0)
                    && final(self).monitor.cur() == m && final(self).monitor.read_cycles() <= old(
                    self,
                ).monitor.read_cycles() + 34 * PAGE_CYCLES && final(self).monitor.write_cycles()
                    == old(self).monitor.write_cycles()
            }),
            ({
                let m = old(self).monitor.cur();
                let t0 = word_of(m, reg_addr(REG_T0));
                t0 == ECALL_SHA ==> (r is Ok <==> sha_ok(m)) && (r matches Ok(res) ==> res.pc
                    == old(self).pc + 4 && res.exit_code is None && res.extra_cycles == sha_extra(
                    m,
                ) && final(self).monitor.cur() == sha_post(m)) && (r is Err ==> final(self).monitor.cur() == m)
            }),
            ({
                let m = old(self).monitor.cur();
                let t0 = word_of(m, reg_addr(REG_T0));
                t0 == ECALL_BIGINT ==> (r is Ok <==> bigint_ok(m)) && (r matches Ok(res) ==> res.pc
                    == old(self).pc + 4 && res.exit_code is None && res.extra_cycles
                    == BIGINT_CYCLES && bigint_post(m, final(self).monitor.cur())) && (r is Err
                    ==> final(self).monitor.cur() == m)
            }),
            ({
                let m = old(self).monitor.cur();
                let t0 = word_of(m, reg_addr(REG_T0));
                t0 == ECALL_SOFTWARE ==> (scan_name(m, word_of(m, reg_addr(REG_A2))) is None ==> r
                    is Err)
            }),
            ({
                let m = old(self).monitor.cur();
                let t0 = word_of(m, reg_addr(REG_T0));
                let q = old(self).pending_syscall->Some_0;
                (t0 == ECALL_SOFTWARE && old(self).pending_syscall is Some) ==> (r is Ok <==> (
                scan_name(m, word_of(m, reg_addr(REG_A2))) is Some && word_of(m, reg_addr(REG_A0))
                    + 4 * q.to_guest@.len() <= ADDR_END))
            }),
            ({
                let m = old(self).monitor.cur();
                let t0 = word_of(m, reg_addr(REG_T0));
                t0 > ECALL_BIGINT ==> r == Err::<OpCodeResult, ExecError>(
                    ExecError::UnknownEcall(t0),
                ) && final(self).monitor.cur() == m
            }),
    {
        let t0 = self.monitor.load_register(REG_T0);
        if t0 == ECALL_HALT {
            self.ecall_halt()
        } else if t0 == ECALL_INPUT {
            self.ecall_input()
        } else if t0 == ECALL_SOFTWARE {
            self.ecall_software(host)
        } else if t0 == ECALL_SHA {
            self.ecall_sha()
        } else if t0 == ECALL_BIGINT {
            self.ecall_bigint()
        } else {
            Err(ExecError::UnknownEcall(t0))
        }
    }

    /// The halt call: `a0` holds `(user_exit << 8) | halt_type`, `a1` a
    /// digest pointer whose load is charged as proof of output.
    /// Terminates or pauses the guest with the user's exit byte.
    pub fn ecall_halt(&mut self) -> (r: Result<OpCodeResult, ExecError>)
        requires
            old(self).wf(),
            old(self).pc + 4 <= ADDR_END,
        ensures
            final(self).wf(),
            Executor::frame_eq(*old(self), *final(self)),
            final(self).journal@ == old(self).journal@,
            Executor::pending_eq(final(self).pending_syscall, old(self).pending_syscall),
            final(self).monitor.cur() == old(self).monitor.cur(),
            (r is Ok <==> halt_ok(old(self).monitor.cur())),
            r matches Ok(res) ==> res == halt_result(old(self).monitor.cur(), old(self).pc),
            final(self).monitor.read_cycles() <= old(self).monitor.read_cycles() + 34
                * PAGE_CYCLES,
            final(self).monitor.write_cycles() == old(self).monitor.write_cycles(),
    {
        let tot_reg = self.monitor.load_register(REG_A0);
        let output_ptr = self.monitor.load_register(REG_A1);
        let halt_type = tot_reg & 0xff;
        let user_exit = ((tot_reg >> 8u32) & 0xff) as u8;
        if output_ptr > ADDR_END - 32 {
            if halt_type == HALT_TERMINATE || halt_type == HALT_PAUSE {
                return Err(ExecError::BadAddress(output_ptr));
            } else {
                return Err(ExecError::IllegalHaltType(halt_type));
            }
        }
        let _digest = self.monitor.load_bytes(output_ptr, 32);
        if halt_type == HALT_TERMINATE {
            Ok(OpCodeResult::new(self.pc, Some(ExitCode::Halted(user_exit)), 0))
        } else if halt_type == HALT_PAUSE {
            Ok(OpCodeResult::new(self.pc + 4, Some(ExitCode::Paused(user_exit)), 0))
        } else {
            Err(ExecError::IllegalHaltType(halt_type))
        }
    }

    /// The input call: a digest-sized load from the pointer in `a0`,
    /// charged as a reserved side-channel input.
    pub fn ecall_input(&mut self) -> (r: Result<OpCodeResult, ExecError>)
        requires
            old(self).wf(),
            old(self).pc + 4 <= ADDR_END,
        ensures
            final(self).wf(),
            Executor::frame_eq(*old(self), *final(self)),
            final(self).journal@ == old(self).journal@,
            Executor::pending_eq(final(self).pending_syscall, old(self).pending_syscall),
            final(self).monitor.cur() == old(self).monitor.cur(),
            ({
                let in_addr = word_of(old(self).monitor.cur(), reg_addr(REG_A0));
                &&& (r is Ok <==> in_addr + 32 <= ADDR_END)
                &&& (r matches Ok(res) ==> res.pc == old(self).pc + 4 && res.exit_code is None
                    && res.extra_cycles == 0)
            }),
            final(self).monitor.read_cycles() <= old(self).monitor.read_cycles() + 33
                * PAGE_CYCLES,
            final(self).monitor.write_cycles() == old(self).monitor.write_cycles(),
    {
        let in_addr = self.monitor.load_register(REG_A0);
        if in_addr > ADDR_END - 32 {
            return Err(ExecError::BadAddress(in_addr));
        }
        let _digest = self.monitor.load_bytes(in_addr, 32);
        Ok(OpCodeResult::new(self.pc + 4, None, 0))
    }

    /// The sha call: compress `count` 16-word blocks, gathered from the
    /// two half-block pointers in `a2` and `a3`, into the big-endian
    /// state read from `a1`, and store the resulting state at `a0`.
    /// Charges `SHA_CYCLES` per block.
    #[verifier::loop_isolation(false)]
    pub fn ecall_sha(&mut self) -> (r: Result<OpCodeResult, ExecError>)
        requires
            old(self).wf(),
            old(self).pc + 4 <= ADDR_END,
        ensures
            final(self).wf(),
            Executor::frame_eq(*old(self), *final(self)),
            final(self).journal@ == old(self).journal@,
            Executor::pending_eq(final(self).pending_syscall, old(self).pending_syscall),
            (r is Ok <==> sha_ok(old(self).monitor.cur())),
            r matches Ok(res) ==> res.pc == old(self).pc + 4 && res.exit_code is None
                && res.extra_cycles == sha_extra(old(self).monitor.cur()) && res.extra_cycles
                <= EXTRA_CYCLES_MAX && final(self).monitor.cur() == sha_post(
                old(self).monitor.cur(),
            ),
            r is Err ==> final(self).monitor.cur() == old(self).monitor.cur(),
    {
        let ghost m = old(self).monitor.cur();
        let out_state_ptr = self.monitor.load_register(REG_A0);
        let in_state_ptr = self.monitor.load_register(REG_A1);
        let mut block1_ptr = self.monitor.load_register(REG_A2);
        let mut block2_ptr = self.monitor.load_register(REG_A3);
        let count = self.monitor.load_register(REG_A4);
        let ghost b1 = block1_ptr;
        let ghost b2 = block2_ptr;

        if in_state_ptr > ADDR_END - 32 {
            return Err(ExecError::BadAddress(in_state_ptr));
        }
        if out_state_ptr > ADDR_END - 32 {
            return Err(ExecError::BadAddress(out_state_ptr));
        }
        let in_bytes = self.monitor.load_bytes(in_state_ptr, 32);
        let mut state = parse_be_words(&in_bytes);

        let mut i: u32 = 0;
        while i < count
            invariant
                i <= count,
                self.wf(),
                Executor::frame_eq(*old(self), *self),
                self.journal@ == old(self).journal@,
                Executor::pending_eq(self.pending_syscall, old(self).pending_syscall),
                self.monitor.cur() == m,
                self.monitor.swrites_s() == old(self).monitor.swrites_s(),
                block1_ptr == b1 + 64 * i,
                block2_ptr == b2 + 64 * i,
                i > 0 ==> b1 + 64 * (i - 1) + 32 <= ADDR_END && b2 + 64 * (i - 1) + 32 <= ADDR_END,
                state@.len() == 8,
                sha_fold(be_words(bytes_of(m, in_state_ptr as u32, 32)), m, b1, b2, count as nat)
                    == sha_fold(state@, m, block1_ptr, block2_ptr, (count - i) as nat),
            decreases count - i,
        {
            if block1_ptr > ADDR_END - 32 {
                return Err(ExecError::BadAddress(block1_ptr));
            }
            if block2_ptr > ADDR_END - 32 {
                return Err(ExecError::BadAddress(block2_ptr));
            }
            let part1 = self.monitor.load_bytes(block1_ptr, 32);
            let part2 = self.monitor.load_bytes(block2_ptr, 32);
            let block = concat_bytes(&part1, &part2);
            proof {
                assert(block@ == sha_block(m, block1_ptr, block2_ptr));
            }
            compress_block(&mut state, &block);
            block1_ptr = block1_ptr + 64;
            block2_ptr = block2_ptr + 64;
            i = i + 1;
        }
        let out_bytes = serialize_be_words(&state);
        self.monitor.store_bytes(out_state_ptr, &out_bytes);
        let extra = (count as u64) * SHA_CYCLES;
        Ok(OpCodeResult::new(self.pc + 4, None, extra))
    }

    /// The bigint call: 256-bit multiplication of the operands at `a2`
    /// and `a3`; reduced by the modulus at `a4` when it is non-zero,
    /// unchecked (and required to fit) when it is zero. The result is
    /// stored at `a0`; `a1` must hold zero. Charges `BIGINT_CYCLES`.
    pub fn ecall_bigint(&mut self) -> (r: Result<OpCodeResult, ExecError>)
        requires
            old(self).wf(),
            old(self).pc + 4 <= ADDR_END,
        ensures
            final(self).wf(),
            Executor::frame_eq(*old(self), *final(self)),
            final(self).journal@ == old(self).journal@,
            Executor::pending_eq(final(self).pending_syscall, old(self).pending_syscall),
            (r is Ok <==> bigint_ok(old(self).monitor.cur())),
            r matches Ok(res) ==> res.pc == old(self).pc + 4 && res.exit_code is None
                && res.extra_cycles == BIGINT_CYCLES && bigint_post(
                old(self).monitor.cur(),
                final(self).monitor.cur(),
            ),
            r is Err ==> final(self).monitor.cur() == old(self).monitor.cur(),
    {
        let ghost m = old(self).monitor.cur();
        let z_ptr = self.monitor.load_register(REG_A0);
        let op = self.monitor.load_register(REG_A1);
        let x_ptr = self.monitor.load_register(REG_A2);
        let y_ptr = self.monitor.load_register(REG_A3);
        let n_ptr = self.monitor.load_register(REG_A4);
        if op != 0 {
            return Err(ExecError::BigIntOp(op));
        }
        if z_ptr > ADDR_END - 32 {
            return Err(ExecError::BadAddress(z_ptr));
        }
        if x_ptr > ADDR_END - 32 {
            return Err(ExecError::BadAddress(x_ptr));
        }
        if y_ptr > ADDR_END - 32 {
            return Err(ExecError::BadAddress(y_ptr));
        }
        if n_ptr > ADDR_END - 32 {
            return Err(ExecError::BadAddress(n_ptr));
        }
        let x = self.monitor.load_bytes(x_ptr, 32);
        let y = self.monitor.load_bytes(y_ptr, 32);
        let n = self.monitor.load_bytes(n_ptr, 32);
        let n_zero = all_zero(&n);
        proof {
            lemma_le_val_zero(n@);
        }
        let z: Vec<u8> = if n_zero {
            match mul256_checked(&x, &y) {
                None => {
                    return Err(ExecError::BigIntOverflow);
                },
                Some(z) => z,
            }
        } else {
            mulmod256(&x, &y, &n)
        };
        self.monitor.store_bytes(z_ptr, &z);
        proof {
            crate::bytes::lemma_le_val_bound(z@);
            let z_p = word_of(m, reg_addr(REG_A0));
            let xv = le_val(bytes_of(m, word_of(m, reg_addr(REG_A2)), 32));
            let yv = le_val(bytes_of(m, word_of(m, reg_addr(REG_A3)), 32));
            let nv = le_val(bytes_of(m, word_of(m, reg_addr(REG_A4)), 32));
            assert(z@.len() == 32 && le_val(z@) == (if nv == 0 {
                xv * yv
            } else {
                (xv * yv) % nv
            }) && self.monitor.cur() == write_bytes(m, z_p, z@));
            assert(exists|zb: Seq<u8>|
                zb.len() == 32 && le_val(zb) == (if nv == 0 {
                    xv * yv
                } else {
                    (xv * yv) % nv
                }) && self.monitor.cur() == write_bytes(m, z_p, zb));
        }
        Ok(OpCodeResult::new(self.pc + 4, None, BIGINT_CYCLES))
    }

    /// The software call: replay the pending syscall record if one is
    /// outstanding, otherwise ask the host's registry; store the
    /// returned words at the guest's buffer, set `a0` and `a1`, and hold
    /// the record pending until the surrounding instruction commits.
    #[verifier::rlimit(60)]
    pub fn ecall_software<H: Host>(&mut self, host: &mut H) -> (r: Result<
        OpCodeResult,
        ExecError,
    >)
        requires
            old(self).wf(),
            old(self).pc + 4 <= ADDR_END,
        ensures
            final(self).wf(),
            Executor::frame_eq(*old(self), *final(self)),
            old(self).journal@.is_prefix_of(final(self).journal@),
            ({
                let m = old(self).monitor.cur();
                r matches Ok(res) ==> res.pc == old(self).pc + 4 && res.exit_code is None
                    && res.extra_cycles == 2 + (word_of(m, reg_addr(REG_A1)) + 3) / 4
                    && res.extra_cycles <= EXTRA_CYCLES_MAX && final(self).pending_syscall is Some
            }),
            ({
                let m = old(self).monitor.cur();
                scan_name(m, word_of(m, reg_addr(REG_A2))) is None ==> r is Err
            }),
            ({
                let m = old(self).monitor.cur();
                old(self).pending_syscall matches Some(q) ==> (r is Ok <==> (scan_name(
                    m,
                    word_of(m, reg_addr(REG_A2)),
                ) is Some && word_of(m, reg_addr(REG_A0)) + 4 * q.to_guest@.len() <= ADDR_END))
            }),
            old(self).pending_syscall is Some ==> final(self).journal@ == old(self).journal@,
            ({
                let m = old(self).monitor.cur();
                let q = old(self).pending_syscall->Some_0;
                (r is Ok && old(self).pending_syscall is Some) ==> Executor::pending_eq(
                    final(self).pending_syscall,
                    old(self).pending_syscall,
                ) && final(self).monitor.cur() == software_post(
                    m,
                    word_of(m, reg_addr(REG_A0)),
                    q.to_guest@,
                    q.regs.0,
                    q.regs.1,
                )
            }),
            ({
                let m = old(self).monitor.cur();
                let p = final(self).pending_syscall->Some_0;
                (r is Ok && final(self).pending_syscall is Some) ==> exists|mh: Map<u32, u32>|
                    final(self).monitor.cur() == software_post(
                        mh,
                        word_of(m, reg_addr(REG_A0)),
                        p.to_guest@,
                        p.regs.0,
                        p.regs.1,
                    )
            }),
            ({
                let m = old(self).monitor.cur();
                let p = final(self).pending_syscall->Some_0;
                (r is Ok && old(self).pending_syscall is None && final(self).pending_syscall
                    is Some) ==> p.to_guest@.len() == word_of(m, reg_addr(REG_A1))
            }),
            r is Err ==> Executor::pending_eq(
                final(self).pending_syscall,
                old(self).pending_syscall,
            ),
    {
        let ghost m = old(self).monitor.cur();
        let to_guest_ptr = self.monitor.load_register(REG_A0);
        let to_guest_words = self.monitor.load_register(REG_A1);
        let name_ptr = self.monitor.load_register(REG_A2);
        let name = match self.load_name(name_ptr) {
            None => {
                return Err(ExecError::BadSyscallName);
            },
            Some(n) => n,
        };

        let record: SyscallRecord = match &self.pending_syscall {
            Some(p) => p.duplicate(),
            None => {
                if to_guest_ptr > ADDR_END || to_guest_words > (ADDR_END - to_guest_ptr) / 4 {
                    return Err(ExecError::BadAddress(to_guest_ptr));
                }
                let mut to_guest: Vec<u32> = alloc_words(to_guest_words);
                let (a0, a1) = match host.syscall(
                    &name,
                    &mut self.monitor,
                    &mut self.journal,
                    &mut to_guest,
                ) {
                    Err(_) => {
                        return Err(ExecError::SyscallFailed);
                    },
                    Ok(regs) => regs,
                };
                SyscallRecord { to_guest, regs: (a0, a1) }
            },
        };

        let bytes = serialize_le_words(&record.to_guest);
        if to_guest_ptr > ADDR_END || bytes.len() > (ADDR_END - to_guest_ptr) as usize {
            return Err(ExecError::BadAddress(to_guest_ptr));
        }
        let copy = record.duplicate();
        self.pending_syscall = Some(copy);
        let ghost mh = self.monitor.cur();
        self.monitor.store_bytes(to_guest_ptr, &bytes);
        let (a0, a1) = record.regs;
        self.monitor.store_register(REG_A0, a0);
        self.monitor.store_register(REG_A1, a1);
        proof {
            assert(self.monitor.cur() == software_post(
                mh,
                to_guest_ptr,
                record.to_guest@,
                record.regs.0,
                record.regs.1,
            ));
            let p2 = self.pending_syscall->Some_0;
            assert(p2.to_guest@ == record.to_guest@ && p2.regs == record.regs);
            assert(self.monitor.cur() == software_post(
                mh,
                to_guest_ptr,
                p2.to_guest@,
                p2.regs.0,
                p2.regs.1,
            ));
            assert(exists|base: Map<u32, u32>|
                self.monitor.cur() == software_post(
                    base,
                    to_guest_ptr,
                    p2.to_guest@,
                    p2.regs.0,
                    p2.regs.1,
                ));
        }

        let chunks = (to_guest_words / 4) + if to_guest_words % 4 == 0 {
            0
        } else {
            1
        };
        Ok(OpCodeResult::new(self.pc + 4, None, 1 + (chunks as u64) + 1))
    }

    /// Read the NUL-terminated syscall name at `addr`.
    #[verifier::loop_isolation(false)]
    fn load_name(&mut self, addr: u32) -> (r: Option<Vec<u8>>)
        requires
            old(self).wf(),
        ensures
            final(self).wf(),
            Executor::frame_eq(*old(self), *final(self)),
            final(self).monitor.cur() == old(self).monitor.cur(),
            final(self).monitor.swrites_s() == old(self).monitor.swrites_s(),
            final(self).journal@ == old(self).journal@,
            Executor::pending_eq(final(self).pending_syscall, old(self).pending_syscall),
            match r {
                Some(name) => scan_name(old(self).monitor.cur(), addr) == Some(name@),
                None => scan_name(old(self).monitor.cur(), addr) is None,
            },
    {
        let ghost m = old(self).monitor.cur();
        if addr >= ADDR_END {
            return None;
        }
        let mut acc: Vec<u8> = Vec::new();
        let mut a = addr;
        loop
            invariant
                self.wf(),
                Executor::frame_eq(*old(self), *self),
                self.monitor.cur() == m,
                self.monitor.swrites_s() == old(self).monitor.swrites_s(),
                self.journal@ == old(self).journal@,
                Executor::pending_eq(self.pending_syscall, old(self).pending_syscall),
                addr <= a <= ADDR_END,
                match scan_name(m, a) {
                    Some(t) => scan_name(m, addr) == Some(acc@ + t),
                    None => scan_name(m, addr) is None,
                },
            decreases ADDR_END - a,
        {
            if a >= ADDR_END {
                return None;
            }
            let b = self.monitor.load_u8(a);
            if b == 0 {
                proof {
                    assert(acc@ + Seq::<u8>::empty() =~= acc@);
                }
                return Some(acc);
            }
            acc.push(b);
            proof {
                if scan_name(m, (a + 1) as u32) is Some {
                    let t = scan_name(m, (a + 1) as u32)->Some_0;
                    assert(acc@ + t =~= acc@.drop_last() + (seq![b] + t));
                }
            }
            a = a + 1;
        }
    }
}

impl Executor {
    /// Advance the machine over one instruction whose cycle cost fits
    /// under the segment limit: emit trace events, move the program
    /// counter, account the cycles, commit the speculative memory state,
    /// and promote a pending syscall into the segment's record.
    ///
    /// The session cycle is strictly increasing across commits, and after
    /// the commit the total segment cost still fits under the limit.
    pub fn advance<H: Host>(&mut self, host: &mut H, opcode: OpCode, op_result: OpCodeResult) -> (r:
        Option<ExitCode>)
        requires
            old(self).wf(),
            old(self).total_cycles_spec() + opcode.cycles + op_result.extra_cycles <= old(self).env.limit(),
            1 <= opcode.cycles <= 2,
            op_result.extra_cycles <= EXTRA_CYCLES_MAX,
        ensures
            final(self).wf(),
            r == op_result.exit_code,
            final(self).env == old(self).env,
            final(self).segments@ == old(self).segments@,
            final(self).segment_index == old(self).segment_index,
            final(self).pre_image == old(self).pre_image,
            final(self).exit_code == old(self).exit_code,
            final(self).journal@ == old(self).journal@,
            final(self).pc == op_result.pc,
            final(self).insn_counter == old(self).insn_counter + 1,
            final(self).body_cycles == old(self).body_cycles + opcode.cycles
                + op_result.extra_cycles,
            final(self).retired@ == old(self).retired@ + opcode.cycles + op_result.extra_cycles,
            final(self).monitor.spec_empty(),
            final(self).total_cycles_spec() <= final(self).env.limit(),
            final(self).session_cycle_spec() > old(self).session_cycle_spec(),
            final(self).committed_total() > old(self).committed_total(),
            final(self).pending_syscall is None,
            final(self).monitor.committed() == old(self).monitor.cur(),
            final(self).syscalls@ == (match old(self).pending_syscall {
                Some(p) => old(self).syscalls@.push(p),
                None => old(self).syscalls@,
            }),
    {
        proof {
            self.monitor.lemma_cycle_bounds();
            let po2 = self.env.segment_limit_po2;
            assert((1u64 << po2) <= 0x1000_0000u64) by (bit_vector)
                requires
                    13 <= po2 <= 28,
            ;
        }
        if self.env.trace_enabled {
            let cycle64 = self.session_cycle();
            host.trace(
                TraceEvent::InstructionStart {
                    cycle: #[verifier::truncate] (cycle64 as u32),
                    pc: self.pc,
                },
            );
            let events = self.monitor.pending_trace_events();
            let n = events.len();
            let mut i: usize = 0;
            while i < n
                invariant
                    i <= n,
                    n == events@.len(),
                decreases n - i,
            {
                host.trace(events[i]);
                i = i + 1;
            }
        }
        self.pc = op_result.pc;
        self.insn_counter = self.insn_counter + 1;
        self.body_cycles = self.body_cycles + (opcode.cycles + op_result.extra_cycles);
        self.segment_cycle = self.init_cycles + self.monitor.page_read_cycles()
            + self.body_cycles;
        let limit = self.segment_limit();
        proof {
            assert(self.segments@.len() * self.env.limit() <= 0x1_0000_0000 * 0x1000_0000)
                by (nonlinear_arith)
                requires
                    self.segments@.len() <= 0x1_0000_0000,
                    self.env.limit() <= 0x1000_0000,
            ;
        }
        let cyc = (self.segments.len() as u64) * limit + self.segment_cycle;
        self.monitor.commit(cyc);
        let mut pending: Option<SyscallRecord> = None;
        core::mem::swap(&mut self.pending_syscall, &mut pending);
        match pending {
            Some(record) => {
                self.syscalls.push(record);
            },
            None => {},
        }
        self.retired = Ghost(
            (self.retired@ + opcode.cycles + op_result.extra_cycles) as nat,
        );
        op_result.exit_code
    }

    /// Execute at most one instruction: consult the session limit, fetch
    /// and classify the instruction at the program counter, run it (a
    /// privileged call in here, anything else through the host), then
    /// either commit the step or undo it and end the segment.
    ///
    /// On `SessionLimit` nothing is touched. On `SystemSplit` every
    /// speculative effect of the step is discarded and the committed
    /// state is exactly what it was. On a committed step the session
    /// cycle strictly increases and the committed segment cost still
    /// fits under the limit. A fault leaves the committed state alone.
    #[verifier::rlimit(100)]
    pub fn step<H: Host>(&mut self, host: &mut H) -> (r: Option<ExitCode>)
        requires
            old(self).wf(),
        ensures
            final(self).wf(),
            final(self).env == old(self).env,
            final(self).segments@ == old(self).segments@,
            final(self).segment_index == old(self).segment_index,
            final(self).exit_code == old(self).exit_code,
            final(self).pre_image == old(self).pre_image,
            old(self).journal@.is_prefix_of(final(self).journal@),
            final(self).retired@ + old(self).body_cycles == old(self).retired@ + final(self).body_cycles,
            (r == Some(ExitCode::SessionLimit)) <==> old(self).session_limit_hit(),
            r == Some(ExitCode::SessionLimit) ==> *final(self) == *old(self),
            ({
                let e = r->Some_0;
                (r is Some && e is Fault) ==> e == ExitCode::Fault(old(self).pc) && !old(self).session_limit_hit()
            }),
            ({
                let m = old(self).monitor.cur();
                let pc_ok = old(self).pc % 4 == 0 && old(self).pc < MEM_SIZE;
                (!old(self).session_limit_hit() && !pc_ok) ==> r == Some(
                    ExitCode::Fault(old(self).pc),
                )
            }),
            ({
                let m = old(self).monitor.cur();
                let w = word_of(m, old(self).pc);
                let pc_ok = old(self).pc % 4 == 0 && old(self).pc < MEM_SIZE;
                (!old(self).session_limit_hit() && pc_ok && !decodable(w)) ==> r == Some(
                    ExitCode::Fault(old(self).pc),
                )
            }),
            ({
                let m = old(self).monitor.cur();
                let w = word_of(m, old(self).pc);
                let t0 = word_of(m, reg_addr(REG_T0));
                let pc_ok = old(self).pc % 4 == 0 && old(self).pc < MEM_SIZE;
                (!old(self).session_limit_hit() && pc_ok && w == 0x73 && t0 > ECALL_BIGINT) ==> r
                    == Some(ExitCode::Fault(old(self).pc))
            }),
            ({
                let m = old(self).monitor.cur();
                let w = word_of(m, old(self).pc);
                let t0 = word_of(m, reg_addr(REG_T0));
                let pc_ok = old(self).pc % 4 == 0 && old(self).pc < MEM_SIZE;
                let handler_ok = (t0 == ECALL_HALT && halt_ok(m)) || (t0 == ECALL_INPUT
                    && input_ok(m)) || (t0 == ECALL_SHA && sha_ok(m)) || (t0 == ECALL_BIGINT
                    && bigint_ok(m));
                (!old(self).session_limit_hit() && pc_ok && w == 0x73 && handler_ok) ==> !(r
                    matches Some(e) && e is Fault)
            }),
            ({
                let m = old(self).monitor.cur();
                let w = word_of(m, old(self).pc);
                let t0 = word_of(m, reg_addr(REG_T0));
                let pc_ok = old(self).pc % 4 == 0 && old(self).pc < MEM_SIZE;
                (!old(self).session_limit_hit() && pc_ok && w == 0x73 && t0 == ECALL_HALT
                    && halt_ok(m) && old(self).total_cycles_spec() + 36 * PAGE_CYCLES + 1 <= old(self).env.limit()) ==> r == halt_result(m, old(self).pc).exit_code
            }),
            ({
                let m = old(self).monitor.cur();
                let w = word_of(m, old(self).pc);
                let t0 = word_of(m, reg_addr(REG_T0));
                let pc_ok = old(self).pc % 4 == 0 && old(self).pc < MEM_SIZE;
                (!old(self).session_limit_hit() && pc_ok && w == 0x73 && t0 == ECALL_INPUT
                    && input_ok(m) && old(self).total_cycles_spec() + 35 * PAGE_CYCLES + 1 <= old(
                    self,
                ).env.limit()) ==> r is None
            }),
            r == Some(ExitCode::SystemSplit) ==> final(self).monitor.spec_empty() && final(self).body_cycles == old(self).body_cycles && final(self).split_insn == Some(
                old(self).insn_counter,
            ) && final(self).segment_cycle == old(self).segment_cycle && final(self).pc == old(self).pc && final(self).insn_counter == old(self).insn_counter
                && MemoryMonitor::same_committed(old(self).monitor, final(self).monitor) && final(self).syscalls@ == old(self).syscalls@,
            (r is None || (r matches Some(e) && (e is Paused || e is Halted))) ==> final(self).monitor.spec_empty() && final(self).total_cycles_spec() <= final(self).env.limit()
                && final(self).body_cycles > old(self).body_cycles && final(self).session_cycle_spec() > old(self).session_cycle_spec() && final(self).committed_total() > old(self).committed_total(),
            (r matches Some(e) && e is Fault) ==> final(self).body_cycles == old(self).body_cycles
                && final(self).pc == old(self).pc && final(self).insn_counter == old(self).insn_counter && MemoryMonitor::same_committed(old(self).monitor, final(self).monitor)
                && final(self).syscalls@ == old(self).syscalls@ && final(self).segment_cycle
                == old(self).segment_cycle,
    {
        if let Some(limit) = self.env.session_limit {
            if self.session_cycle() >= limit {
                return Some(ExitCode::SessionLimit);
            }
        }
        if self.pc % 4 != 0 || self.pc >= MEM_SIZE {
            return Some(ExitCode::Fault(self.pc));
        }
        let insn = self.monitor.load_u32(self.pc);
        proof {
            assert(0x73u32 & 3 == 3) by (bit_vector);
            assert(0x73u32 & 0x7f == 0x73) by (bit_vector);
        }
        let opcode = match OpCode::decode(insn, self.pc) {
            Err(_) => {
                return Some(ExitCode::Fault(self.pc));
            },
            Ok(op) => op,
        };

        let op_result: OpCodeResult = if opcode.major == MajorType::ECall {
            match self.ecall(host) {
                Err(_) => {
                    return Some(ExitCode::Fault(self.pc));
                },
                Ok(res) => res,
            }
        } else {
            let registers = self.monitor.load_registers();
            let mut mon = MemoryMonitor::empty();
            core::mem::swap(&mut self.monitor, &mut mon);
            let (mon2, insn_res) = host.step_insn(mon, registers, self.pc);
            self.monitor = mon2;
            match insn_res {
                Err(_) => {
                    return Some(ExitCode::Fault(self.pc));
                },
                Ok(out) => {
                    match out.reg_write {
                        Some((idx, val)) => {
                            if idx >= REG_MAX {
                                return Some(ExitCode::Fault(self.pc));
                            }
                            self.monitor.store_register(idx, val);
                        },
                        None => {},
                    }
                    OpCodeResult::new(out.new_pc, None, 0)
                },
            }
        };

        proof {
            self.monitor.lemma_cycle_bounds();
            let po2 = self.env.segment_limit_po2;
            assert((1u64 << po2) <= 0x1000_0000u64) by (bit_vector)
                requires
                    13 <= po2 <= 28,
            ;
        }
        let segment_limit = self.segment_limit();
        let total_pending_cycles = self.total_cycles() + opcode.cycles + op_result.extra_cycles;
        if total_pending_cycles > segment_limit {
            self.split_insn = Some(self.insn_counter);
            self.monitor.undo();
            Some(ExitCode::SystemSplit)
        } else {
            self.advance(host, opcode, op_result)
        }
    }

    /// Drive `step` until the guest pauses, halts or faults, closing a
    /// segment at every exit code and handing it to the host.
    ///
    /// In the resulting session the segment indices are contiguous from
    /// zero, every non-fault segment's cost exponent fits under the
    /// configured limit, and the body cycles of the segments sum to
    /// exactly the opcode and privileged-call cycles retired in the run.
    #[verifier::loop_isolation(false)]
    pub fn run_with_callback<H: Host>(&mut self, host: &mut H) -> (r: Result<Session, ExecError>)
        requires
            old(self).wf(),
        ensures
            final(self).wf(),
            (old(self).exit_code matches Some(e) && e is Halted) <==> r == Err::<
                Session,
                ExecError,
            >(ExecError::ResumeAfterHalt),
            r is Err ==> final(self).exit_code == old(self).exit_code,
            r == Err::<Session, ExecError>(ExecError::ResumeAfterHalt) ==> *final(self) == *old(self),
            r == Err::<Session, ExecError>(ExecError::SessionLimitExceeded) ==> old(self).env.session_limit is Some && final(self).segments@.len() > 0 && final(self).segments@.last().exit_code == ExitCode::SessionLimit,
            r == Err::<Session, ExecError>(ExecError::TooManySegments) ==> final(self).segment_index >= 0xFFFF_FFFF,
            r matches Ok(s) ==> {
                &&& (s.exit_code is Paused || s.exit_code is Halted || s.exit_code is Fault)
                &&& final(self).exit_code == Some(s.exit_code)
                &&& s.segments@.len() >= 1
                &&& s.segments@.last().exit_code == s.exit_code
                &&& forall|i: int|
                    0 <= i < s.segments@.len() - 1 ==> s.segments@[i].exit_code
                        == ExitCode::SystemSplit
                &&& forall|i: int|
                    0 <= i < s.segments@.len() ==> s.segments@[i].index == old(self).segment_index + i
                &&& final(self).segment_index == old(self).segment_index + s.segments@.len()
                &&& forall|i: int|
                    0 <= i < s.segments@.len() ==> s.segments@[i].post_image_id@.len() == 32
                &&& sum_bodies(s.segments@) == final(self).retired@
                &&& s.journal@ == final(self).journal@
                &&& forall|i: int|
                    0 <= i < s.segments@.len() && !(s.segments@[i].exit_code is Fault)
                        ==> s.segments@[i].po2 <= final(self).env.segment_limit_po2
            },
    {
        match self.exit_code {
            Some(ExitCode::Halted(_)) => {
                return Err(ExecError::ResumeAfterHalt);
            },
            _ => {},
        }
        self.monitor.clear_session();
        let img = self.monitor.build_image(self.pc);
        self.pre_image = img;
        self.journal = Vec::new();
        self.segments = Vec::new();
        self.segment_cycle = self.init_cycles + self.body_cycles;
        self.retired = Ghost(self.body_cycles as nat);
        let ghost env0 = self.env;
        let ghost base = self.segment_index;
        loop
            invariant
                self.wf(),
                self.env == env0,
                self.monitor.spec_empty(),
                sum_bodies(self.segments@) + self.body_cycles == self.retired@,
                self.exit_code == old(self).exit_code,
                self.segment_index == base + self.segments@.len(),
                forall|i: int|
                    0 <= i < self.segments@.len() ==> self.segments@[i].index == base + i,
                forall|i: int|
                    0 <= i < self.segments@.len() ==> self.segments@[i].exit_code
                        == ExitCode::SystemSplit,
                forall|i: int|
                    0 <= i < self.segments@.len() ==> self.segments@[i].post_image_id@.len() == 32,
                forall|i: int|
                    0 <= i < self.segments@.len() && !(self.segments@[i].exit_code is Fault)
                        ==> self.segments@[i].po2 <= env0.segment_limit_po2,
            decreases 4294967295 - self.segments@.len(), self.env.limit() - self.committed_total(),
        {
            let step_result = self.step(host);
            match step_result {
                None => {},
                Some(exit_code) => {
                    let total = self.total_cycles();
                    let pre_image = self.pre_image.snapshot();
                    let post_image = self.monitor.build_image(self.pc);
                    let post_image_id = post_image.compute_id();
                    let mut syscalls: Vec<SyscallRecord> = Vec::new();
                    core::mem::swap(&mut self.syscalls, &mut syscalls);
                    let faults = self.monitor.segment_faults();
                    if self.segment_index >= 4294967295u32 {
                        return Err(ExecError::TooManySegments);
                    }
                    proof {
                        self.monitor.lemma_cycle_bounds();
                        let po2 = env0.segment_limit_po2;
                        assert((1u64 << po2) <= 0x1000_0000u64) by (bit_vector)
                            requires
                                13 <= po2 <= 28,
                        ;
                        assert((1u64 << 62) == 0x4000_0000_0000_0000u64) by (bit_vector);
                        assert(total >= 1);
                        assert(total <= 1u64 << 62);
                    }
                    let po2 = ceil_log2(total);
                    proof {
                        let epo2 = env0.segment_limit_po2;
                        if !(exit_code is Fault) && po2 > epo2 {
                            assert((1u64 << ((po2 - 1) as u32)) >= (1u64 << epo2)) by (bit_vector)
                                requires
                                    epo2 <= po2 - 1 <= 62,
                            ;
                            assert(false);
                        }
                    }
                    let segment = Segment {
                        pre_image,
                        post_image_id,
                        faults,
                        syscalls,
                        exit_code,
                        split_insn: self.split_insn,
                        po2,
                        index: self.segment_index,
                        body_cycles: self.body_cycles,
                    };
                    match host.on_segment(&segment) {
                        Err(_) => {
                            return Err(ExecError::SegmentRefused);
                        },
                        Ok(_) => {},
                    }
                    proof {
                        assert(self.segments@.push(segment).drop_last() =~= self.segments@);
                    }
                    self.segments.push(segment);
                    self.segment_index = self.segment_index + 1;
                    match exit_code {
                        ExitCode::SystemSplit => {
                            self.split(post_image);
                        },
                        ExitCode::SessionLimit => {
                            return Err(ExecError::SessionLimitExceeded);
                        },
                        ExitCode::Paused(_) => {
                            self.split(post_image);
                            self.exit_code = Some(exit_code);
                            let mut segs: Vec<Segment> = Vec::new();
                            core::mem::swap(&mut self.segments, &mut segs);
                            let journal = copy_bytes(&self.journal);
                            return Ok(Session { segments: segs, journal, exit_code });
                        },
                        ExitCode::Halted(_) => {
                            self.exit_code = Some(exit_code);
                            let mut segs: Vec<Segment> = Vec::new();
                            core::mem::swap(&mut self.segments, &mut segs);
                            let journal = copy_bytes(&self.journal);
                            return Ok(Session { segments: segs, journal, exit_code });
                        },
                        ExitCode::Fault(_) => {
                            self.exit_code = Some(exit_code);
                            let mut segs: Vec<Segment> = Vec::new();
                            core::mem::swap(&mut self.segments, &mut segs);
                            let journal = copy_bytes(&self.journal);
                            return Ok(Session { segments: segs, journal, exit_code });
                        },
                    }
                },
            }
        }
    }

    /// Run the executor until the guest pauses or halts, producing a
    /// session.
    pub fn run<H: Host>(&mut self, host: &mut H) -> (r: Result<Session, ExecError>)
        requires
            old(self).wf(),
        ensures
            final(self).wf(),
            (old(self).exit_code matches Some(e) && e is Halted) <==> r == Err::<
                Session,
                ExecError,
            >(ExecError::ResumeAfterHalt),
            r is Err ==> final(self).exit_code == old(self).exit_code,
            r == Err::<Session, ExecError>(ExecError::ResumeAfterHalt) ==> *final(self) == *old(self),
            r == Err::<Session, ExecError>(ExecError::SessionLimitExceeded) ==> old(self).env.session_limit is Some && final(self).segments@.len() > 0 && final(self).segments@.last().exit_code == ExitCode::SessionLimit,
            r == Err::<Session, ExecError>(ExecError::TooManySegments) ==> final(self).segment_index >= 0xFFFF_FFFF,
            r matches Ok(s) ==> {
                &&& (s.exit_code is Paused || s.exit_code is Halted || s.exit_code is Fault)
                &&& final(self).exit_code == Some(s.exit_code)
                &&& s.segments@.len() >= 1
                &&& s.segments@.last().exit_code == s.exit_code
                &&& forall|i: int|
                    0 <= i < s.segments@.len() - 1 ==> s.segments@[i].exit_code
                        == ExitCode::SystemSplit
                &&& forall|i: int|
                    0 <= i < s.segments@.len() ==> s.segments@[i].index == old(self).segment_index + i
                &&& final(self).segment_index == old(self).segment_index + s.segments@.len()
                &&& forall|i: int|
                    0 <= i < s.segments@.len() ==> s.segments@[i].post_image_id@.len() == 32
                &&& sum_bodies(s.segments@) == final(self).retired@
                &&& s.journal@ == final(self).journal@
                &&& forall|i: int|
                    0 <= i < s.segments@.len() && !(s.segments@[i].exit_code is Fault)
                        ==> s.segments@[i].po2 <= final(self).env.segment_limit_po2
            },
    {
        self.run_with_callback(host)
    }
}

/// The smallest exponent whose power of two covers `x`.
#[verifier::loop_isolation(false)]
fn ceil_log2(x: u64) -> (r: u32)
    requires
        1 <= x,
        x <= 1u64 << 62,
    ensures
        r <= 62,
        (1u64 << r) >= x,
        r > 0 ==> (1u64 << ((r - 1) as u32)) < x,
{
    let mut k: u32 = 0;
    while (1u64 << k) < x
        invariant
            k <= 62,
            k > 0 ==> (1u64 << ((k - 1) as u32)) < x,
        decreases 64 - k,
    {
        proof {
            assert((1u64 << k) < (1u64 << 62) ==> k < 62) by (bit_vector)
                requires
                    k <= 62,
            ;
        }
        k = k + 1;
    }
    k
}

/// After any segment, the identifier of the image built from the
/// committed memory equals a fresh identifier of an image constructed by
/// applying only the segment's committed writes to the segment's
/// pre-image.
pub proof fn lemma_post_image_id(ex: Executor, built: MemoryImage, fresh: MemoryImage)
    requires
        ex.wf(),
        built.wf(),
        fresh.wf(),
        built@ == ex.monitor.committed(),
        fresh@ == ex.pre_image@.union_prefer_right(ex.monitor.seg_writes_mem()),
        built.entry() == fresh.entry(),
    ensures
        image_id(built.repr(), built.entry()) == image_id(fresh.repr(), fresh.entry()),
{
    ex.monitor.lemma_committed_decomposition();
    lemma_image_id_of_view(built, fresh);
}

/// A sha call with zero blocks writes back exactly the 32 state bytes it
/// read: no block is compressed and the byte-swap round trip is the
/// identity.
pub proof fn lemma_sha_zero_blocks(m: Map<u32, u32>, in_p: u32, b1: u32, b2: u32)
    ensures
        be_state_bytes(sha_fold(be_words(bytes_of(m, in_p, 32)), m, b1, b2, 0)) == bytes_of(
            m,
            in_p,
            32,
        ),
{
    lemma_bytes_of_len(m, in_p, 32);
    crate::sha::lemma_be_round_trip(bytes_of(m, in_p, 32));
}

/// Multiplying a 256-bit operand by one neither overflows nor changes
/// it: with modulus zero and `y = 1` the product call yields `z = x`.
pub proof fn lemma_bigint_identity(x: Seq<u8>, y: Seq<u8>, z: Seq<u8>)
    requires
        x.len() == 32,
        y.len() == 32,
        z.len() == 32,
        le_val(y) == 1,
        le_val(z) == le_val(x) * le_val(y),
    ensures
        le_val(x) * le_val(y) < pow2(256),
        z == x,
{
    crate::bytes::lemma_le_val_bound(x);
    assert(le_val(x) * 1 == le_val(x));
    crate::bytes::lemma_le_val_inj(z, x);
}

/// All bytes are zero exactly when the little-endian value is zero.
pub proof fn lemma_le_val_zero(s: Seq<u8>)
    ensures
        (le_val(s) == 0) <==> (forall|i: int| 0 <= i < s.len() ==> s[i] == 0),
    decreases s.len(),
{
    if s.len() > 0 {
        lemma_le_val_zero(s.skip(1));
        assert(forall|i: int| 0 < i < s.len() ==> s[i] == s.skip(1)[i - 1]);
        if le_val(s) == 0 {
            assert(s[0] == 0);
        }
    }
}

/// Whether every byte is zero.
fn all_zero(v: &Vec<u8>) -> (r: bool)
    ensures
        r == (forall|i: int| 0 <= i < v@.len() ==> v@[i] == 0),
{
    let n = v.len();
    let mut i: usize = 0;
    while i < n
        invariant
            i <= n,
            n == v@.len(),
            forall|j: int| 0 <= j < i ==> v@[j] == 0,
        decreases n - i,
    {
        if v[i] != 0 {
            return false;
        }
        i = i + 1;
    }
    true
}

/// A zeroed word buffer of the requested length.
fn alloc_words(n: u32) -> (r: Vec<u32>)
    ensures
        r@.len() == n,
{
    let mut r: Vec<u32> = Vec::new();
    let mut i: u32 = 0;
    while i < n
        invariant
            i <= n,
            r@.len() == i,
        decreases n - i,
    {
        r.push(0);
        i = i + 1;
    }
    r
}

/// Parse the eight big-endian words of a 32-byte string.
fn parse_be_words(b: &Vec<u8>) -> (r: Vec<u32>)
    requires
        b@.len() == 32,
    ensures
        r@ == be_words(b@),
        r@.len() == 8,
{
    let mut r: Vec<u32> = Vec::new();
    let mut i: usize = 0;
    while i < 8
        invariant
            i <= 8,
            b@.len() == 32,
            r@.len() == i,
            forall|j: int| 0 <= j < i ==> r@[j] == be_words(b@)[j],
        decreases 8 - i,
    {
        let w = word_from_be(b[4 * i], b[4 * i + 1], b[4 * i + 2], b[4 * i + 3]);
        r.push(w);
        i = i + 1;
    }
    proof {
        assert(r@ =~= be_words(b@));
    }
    r
}

/// Serialize eight words as 32 big-endian bytes.
fn serialize_be_words(s: &Vec<u32>) -> (r: Vec<u8>)
    requires
        s@.len() == 8,
    ensures
        r@ == be_state_bytes(s@),
        r@.len() == 32,
{
    let mut r: Vec<u8> = Vec::new();
    let mut i: usize = 0;
    while i < 8
        invariant
            i <= 8,
            s@.len() == 8,
            r@.len() == 4 * i,
            forall|j: int| 0 <= j < 4 * i ==> r@[j] == be_state_bytes(s@)[j],
        decreases 8 - i,
    {
        let w = s[i];
        r.push(byte_of_word(w, 3));
        r.push(byte_of_word(w, 2));
        r.push(byte_of_word(w, 1));
        r.push(byte_of_word(w, 0));
        i = i + 1;
    }
    proof {
        assert(r@ =~= be_state_bytes(s@));
    }
    r
}

/// Serialize words as little-endian bytes.
fn serialize_le_words(s: &Vec<u32>) -> (r: Vec<u8>)
    ensures
        r@ == le_words_bytes(s@),
        r@.len() == 4 * s@.len(),
{
    let mut r: Vec<u8> = Vec::new();
    let n = s.len();
    let mut i: usize = 0;
    while i < n
        invariant
            i <= n,
            n == s@.len(),
            r@.len() == 4 * i,
            forall|j: int| 0 <= j < 4 * i ==> r@[j] == le_words_bytes(s@)[j],
        decreases n - i,
    {
        let w = s[i];
        r.push(byte_of_word(w, 0));
        r.push(byte_of_word(w, 1));
        r.push(byte_of_word(w, 2));
        r.push(byte_of_word(w, 3));
        i = i + 1;
    }
    proof {
        assert(r@ =~= le_words_bytes(s@));
    }
    r
}

/// An identical copy of a byte vector.
fn copy_bytes(v: &Vec<u8>) -> (r: Vec<u8>)
    ensures
        r@ == v@,
{
    let mut r: Vec<u8> = Vec::new();
    let mut i: usize = 0;
    while i < v.len()
        invariant
            i <= v@.len(),
            r@ == v@.take(i as int),
        decreases v@.len() - i,
    {
        r.push(v[i]);
        proof {
            assert(r@ =~= v@.take(i + 1));
        }
        i = i + 1;
    }
    proof {
        assert(r@ =~= v@);
    }
    r
}

/// Concatenation of two byte vectors.
fn concat_bytes(a: &Vec<u8>, b: &Vec<u8>) -> (r: Vec<u8>)
    ensures
        r@ == a@ + b@,
{
    let mut r: Vec<u8> = Vec::new();
    let mut i: usize = 0;
    while i < a.len()
        invariant
            i <= a@.len(),
            r@ == a@.take(i as int),
        decreases a@.len() - i,
    {
        r.push(a[i]);
        proof {
            assert(r@ =~= a@.take(i + 1));
        }
        i = i + 1;
    }
    proof {
        assert(r@ =~= a@);
    }
    let mut j: usize = 0;
    while j < b.len()
        invariant
            j <= b@.len(),
            r@ == a@ + b@.take(j as int),
        decreases b@.len() - j,
    {
        r.push(b[j]);
        proof {
            assert(r@ =~= a@ + b@.take(j + 1));
        }
        j = j + 1;
    }
    proof {
        assert(r@ =~= a@ + b@);
    }
    r
}

} // verus!
