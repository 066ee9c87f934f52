use rrs_lib::MemAccessSize;
use zkvm_exec::exec::Executor;
use zkvm_exec::host::{Host, InsnOutcome};
use zkvm_exec::image::MemoryImage;
use zkvm_exec::monitor::MemoryMonitor;
use zkvm_exec::session::ExecutorEnv;
use zkvm_exec::types::{ExitCode, ExecError, TraceEvent};

const REG_BASE: u32 = 0x0C00_0000;
const ADDR_END: u32 = 0x0C00_0080;

struct MonMem {
    mon: MemoryMonitor,
}

impl rrs_lib::Memory for MonMem {
    fn read_mem(&mut self, addr: u32, size: MemAccessSize) -> Option<u32> {
        match size {
            MemAccessSize::Byte => {
                if addr >= ADDR_END {
                    return None;
                }
                Some(self.mon.load_u8(addr) as u32)
            }
            MemAccessSize::HalfWord => {
                if addr % 2 != 0 || addr + 1 >= ADDR_END {
                    return None;
                }
                Some(self.mon.load_u8(addr) as u32 | ((self.mon.load_u8(addr + 1) as u32) << 8))
            }
            MemAccessSize::Word => {
                if addr % 4 != 0 || addr >= ADDR_END {
                    return None;
                }
                Some(self.mon.load_u32(addr))
            }
        }
    }

    fn write_mem(&mut self, addr: u32, size: MemAccessSize, data: u32) -> bool {
        match size {
            MemAccessSize::Byte => {
                if addr >= ADDR_END {
                    return false;
                }
                self.mon.store_u8(addr, data as u8);
                true
            }
            MemAccessSize::HalfWord => {
                if addr % 2 != 0 || addr + 1 >= ADDR_END {
                    return false;
                }
                self.mon.store_u8(addr, data as u8);
                self.mon.store_u8(addr + 1, (data >> 8) as u8);
                true
            }
            MemAccessSize::Word => {
                if addr % 4 != 0 || addr >= ADDR_END {
                    return false;
                }
                self.mon.store_u32(addr, data);
                true
            }
        }
    }
}

/// A test embedder: steps instructions with rrs-lib, serves a small
/// syscall registry, and records trace events.
struct TestHost {
    journal_chunks: Vec<Vec<u8>>,
    syscall_calls: usize,
    syscall_ret: Vec<(u32, u32)>,
    to_guest_fill: Vec<u32>,
    trace: Vec<TraceEvent>,
}

impl TestHost {
    fn new() -> TestHost {
        TestHost {
            journal_chunks: Vec::new(),
            syscall_calls: 0,
            syscall_ret: vec![(0, 0); 8],
            to_guest_fill: Vec::new(),
            trace: Vec::new(),
        }
    }
}

impl Host for TestHost {
    fn step_insn(
        &mut self,
        mem: MemoryMonitor,
        registers: Vec<u32>,
        pc: u32,
    ) -> (MemoryMonitor, Result<InsnOutcome, ()>) {
        let mut regs = [0u32; 32];
        for i in 0..32 {
            regs[i] = registers[i];
        }
        let mut hart = rrs_lib::HartState {
            registers: regs,
            pc,
            last_register_write: None,
        };
        let mut mm = MonMem { mon: mem };
        let res = {
            let mut exec = rrs_lib::instruction_executor::InstructionExecutor {
                mem: &mut mm,
                hart_state: &mut hart,
            };
            exec.step()
        };
        let out = match res {
            Ok(()) => Ok(InsnOutcome {
                new_pc: hart.pc,
                reg_write: hart
                    .last_register_write
                    .map(|i| (i as u32, hart.registers[i])),
            }),
            Err(_) => Err(()),
        };
        (mm.mon, out)
    }

    fn syscall(
        &mut self,
        name: &Vec<u8>,
        _mem: &mut MemoryMonitor,
        journal: &mut Vec<u8>,
        to_guest: &mut Vec<u32>,
    ) -> Result<(u32, u32), ()> {
        if name.as_slice() != b"journal" && name.as_slice() != b"echo" {
            return Err(());
        }
        if name.as_slice() == b"journal" {
            if self.syscall_calls < self.journal_chunks.len() {
                journal.extend_from_slice(&self.journal_chunks[self.syscall_calls]);
            }
        }
        if name.as_slice() == b"echo" {
            for i in 0..to_guest.len() {
                if i < self.to_guest_fill.len() {
                    to_guest[i] = self.to_guest_fill[i];
                }
            }
        }
        let ret = self.syscall_ret[self.syscall_calls];
        self.syscall_calls += 1;
        Ok(ret)
    }

    fn trace(&mut self, event: TraceEvent) {
        self.trace.push(event);
    }

    fn on_segment(&mut self, _segment: &zkvm_exec::session::Segment) -> Result<(), ()> {
        Ok(())
    }
}

fn env13() -> ExecutorEnv {
    ExecutorEnv {
        segment_limit_po2: 13,
        session_limit: None,
        trace_enabled: false,
    }
}

fn set_reg(image: &mut MemoryImage, idx: u32, value: u32) {
    image.store_word(REG_BASE + idx * 4, value);
}

fn set_program(image: &mut MemoryImage, base: u32, words: &[u32]) {
    for (i, w) in words.iter().enumerate() {
        image.store_word(base + 4 * (i as u32), *w);
    }
}

fn set_bytes(image: &mut MemoryImage, base: u32, bytes: &[u8]) {
    assert!(base % 4 == 0);
    for (i, chunk) in bytes.chunks(4).enumerate() {
        let mut w: u32 = 0;
        for (j, b) in chunk.iter().enumerate() {
            w |= (*b as u32) << (8 * j);
        }
        image.store_word(base + 4 * (i as u32), w);
    }
}

const ECALL: u32 = 0x0000_0073;
const T0: u32 = 5;
const A0: u32 = 10;
const A1: u32 = 11;
const A2: u32 = 12;
const A3: u32 = 13;
const A4: u32 = 14;

#[test]
fn halt_immediately_one_segment() {
    let mut image = MemoryImage::new(0);
    set_program(&mut image, 0, &[ECALL]);
    let mut exec = Executor::new(env13(), image, 0);
    let mut host = TestHost::new();
    let session = exec.run(&mut host).unwrap();
    assert_eq!(session.exit_code, ExitCode::Halted(0));
    assert_eq!(session.segments.len(), 1);
    assert!(session.journal.is_empty());
    assert_eq!(session.segments[0].index, 0);
    assert_eq!(session.segments[0].exit_code, ExitCode::Halted(0));
    assert_eq!(session.segments[0].post_image_id.len(), 32);
}

#[test]
fn journal_bytes_and_user_exit() {
    let mut image = MemoryImage::new(0);
    // software ecall, then t0 := HALT, a0 := 7 << 8, halt.
    set_program(&mut image, 0, &[ECALL, 0x0000_0293, 0x7000_0513, ECALL]);
    set_bytes(&mut image, 0x2000, b"journal\0");
    set_reg(&mut image, T0, 2);
    set_reg(&mut image, A0, 0x1000);
    set_reg(&mut image, A1, 0);
    set_reg(&mut image, A2, 0x2000);
    let mut exec = Executor::new(env13(), image, 0);
    let mut host = TestHost::new();
    host.journal_chunks = vec![b"abcd".to_vec()];
    let session = exec.run(&mut host).unwrap();
    assert_eq!(session.exit_code, ExitCode::Halted(7));
    assert_eq!(session.journal, b"abcd".to_vec());
}

#[test]
fn bigint_modular_multiply() {
    let mut image = MemoryImage::new(0);
    set_program(&mut image, 0, &[ECALL]);
    set_reg(&mut image, T0, 4);
    set_reg(&mut image, A0, 0x1000);
    set_reg(&mut image, A1, 0);
    set_reg(&mut image, A2, 0x1040);
    set_reg(&mut image, A3, 0x1080);
    set_reg(&mut image, A4, 0x10C0);
    image.store_word(0x1040, 2);
    image.store_word(0x1080, 3);
    image.store_word(0x10C0, 5);
    let mut exec = Executor::new(env13(), image, 0);
    let mut host = TestHost::new();
    let r = exec.step(&mut host);
    assert!(r.is_none());
    // 2 * 3 mod 5 = 1, little-endian 256-bit.
    assert_eq!(exec.monitor.load_u32(0x1000), 1);
    for i in 1..8 {
        assert_eq!(exec.monitor.load_u32(0x1000 + 4 * i), 0);
    }
    // one opcode cycle plus the fixed bigint cost.
    assert_eq!(exec.body_cycles, 1 + 9);
    assert_eq!(exec.pc, 4);
}

#[test]
fn bigint_times_one_is_identity() {
    let mut image = MemoryImage::new(0);
    set_program(&mut image, 0, &[ECALL]);
    set_reg(&mut image, T0, 4);
    set_reg(&mut image, A0, 0x1000);
    set_reg(&mut image, A2, 0x1040);
    set_reg(&mut image, A3, 0x1080);
    set_reg(&mut image, A4, 0x10C0);
    set_bytes(&mut image, 0x1040, &[0xde, 0xad, 0xbe, 0xef, 0x01, 0x02, 0x03]);
    image.store_word(0x1080, 1);
    // n = 0: plain multiplication.
    let mut exec = Executor::new(env13(), image, 0);
    let mut host = TestHost::new();
    let r = exec.step(&mut host);
    assert!(r.is_none());
    for i in 0..8 {
        let x = exec.monitor.load_u32(0x1040 + 4 * i);
        let z = exec.monitor.load_u32(0x1000 + 4 * i);
        assert_eq!(z, x);
    }
}

#[test]
fn bigint_bad_op_faults() {
    let mut image = MemoryImage::new(0);
    set_program(&mut image, 0, &[ECALL]);
    set_reg(&mut image, T0, 4);
    set_reg(&mut image, A1, 1);
    let mut exec = Executor::new(env13(), image, 0);
    let mut host = TestHost::new();
    assert_eq!(exec.step(&mut host), Some(ExitCode::Fault(0)));
}

#[test]
fn sha_zero_blocks_round_trips_state() {
    let mut image = MemoryImage::new(0);
    set_program(&mut image, 0, &[ECALL]);
    set_reg(&mut image, T0, 3);
    set_reg(&mut image, A0, 0x2000);
    set_reg(&mut image, A1, 0x1000);
    set_reg(&mut image, A2, 0x3000);
    set_reg(&mut image, A3, 0x3040);
    set_reg(&mut image, A4, 0);
    let state: Vec<u8> = (0u8..32).collect();
    set_bytes(&mut image, 0x1000, &state);
    let mut exec = Executor::new(env13(), image, 0);
    let mut host = TestHost::new();
    let r = exec.step(&mut host);
    assert!(r.is_none());
    for i in 0..8 {
        assert_eq!(
            exec.monitor.load_u32(0x2000 + 4 * i),
            exec.monitor.load_u32(0x1000 + 4 * i)
        );
    }
    // no extra cycles for zero blocks.
    assert_eq!(exec.body_cycles, 1);
}

#[test]
fn sha_compresses_known_vector() {
    // SHA-256 of the empty message: initial state, one padded block.
    let mut image = MemoryImage::new(0);
    set_program(&mut image, 0, &[ECALL]);
    set_reg(&mut image, T0, 3);
    set_reg(&mut image, A0, 0x2000);
    set_reg(&mut image, A1, 0x1000);
    set_reg(&mut image, A2, 0x3000);
    set_reg(&mut image, A3, 0x3020);
    set_reg(&mut image, A4, 1);
    let h0: [u8; 32] = [
        0x6a, 0x09, 0xe6, 0x67, 0xbb, 0x67, 0xae, 0x85, 0x3c, 0x6e, 0xf3, 0x72, 0xa5, 0x4f, 0xf5,
        0x3a, 0x51, 0x0e, 0x52, 0x7f, 0x9b, 0x05, 0x68, 0x8c, 0x1f, 0x83, 0xd9, 0xab, 0x5b, 0xe0,
        0xcd, 0x19,
    ];
    set_bytes(&mut image, 0x1000, &h0);
    set_bytes(&mut image, 0x3000, &[0x80]);
    // second half-block (0x3020) stays all zero.
    let mut exec = Executor::new(env13(), image, 0);
    let mut host = TestHost::new();
    let r = exec.step(&mut host);
    assert!(r.is_none());
    let expected: [u8; 32] = [
        0xe3, 0xb0, 0xc4, 0x42, 0x98, 0xfc, 0x1c, 0x14, 0x9a, 0xfb, 0xf4, 0xc8, 0x99, 0x6f, 0xb9,
        0x24, 0x27, 0xae, 0x41, 0xe4, 0x64, 0x9b, 0x93, 0x4c, 0xa4, 0x95, 0x99, 0x1b, 0x78, 0x52,
        0xb8, 0x55,
    ];
    for i in 0..8 {
        let w = exec.monitor.load_u32(0x2000 + 4 * (i as u32));
        let e = expected[4 * i] as u32
            | (expected[4 * i + 1] as u32) << 8
            | (expected[4 * i + 2] as u32) << 16
            | (expected[4 * i + 3] as u32) << 24;
        assert_eq!(w, e);
    }
    // one opcode cycle plus 72 per block.
    assert_eq!(exec.body_cycles, 1 + 72);
}

#[test]
fn software_fills_buffer_and_registers() {
    let mut image = MemoryImage::new(0);
    set_program(&mut image, 0, &[ECALL]);
    set_bytes(&mut image, 0x2000, b"echo\0");
    set_reg(&mut image, T0, 2);
    set_reg(&mut image, A0, 0x1000);
    set_reg(&mut image, A1, 2);
    set_reg(&mut image, A2, 0x2000);
    let mut exec = Executor::new(env13(), image, 0);
    let mut host = TestHost::new();
    host.to_guest_fill = vec![0x1122_3344, 0x5566_7788];
    host.syscall_ret[0] = (7, 8);
    let r = exec.step(&mut host);
    assert!(r.is_none());
    assert_eq!(exec.monitor.load_u32(0x1000), 0x1122_3344);
    assert_eq!(exec.monitor.load_u32(0x1004), 0x5566_7788);
    assert_eq!(exec.monitor.load_register(A0), 7);
    assert_eq!(exec.monitor.load_register(A1), 8);
    // one opcode cycle, one ecall cycle, one chunk, one register save.
    assert_eq!(exec.body_cycles, 1 + 1 + 1 + 1);
    // committed syscall record is promoted on commit.
    assert_eq!(exec.syscalls.len(), 1);
    assert_eq!(exec.syscalls[0].regs, (7, 8));
    assert_eq!(exec.syscalls[0].to_guest, vec![0x1122_3344, 0x5566_7788]);
}

#[test]
fn unknown_syscall_faults() {
    let mut image = MemoryImage::new(0);
    set_program(&mut image, 0, &[ECALL]);
    set_bytes(&mut image, 0x2000, b"nope\0");
    set_reg(&mut image, T0, 2);
    set_reg(&mut image, A2, 0x2000);
    let mut exec = Executor::new(env13(), image, 0);
    let mut host = TestHost::new();
    assert_eq!(exec.step(&mut host), Some(ExitCode::Fault(0)));
}

#[test]
fn long_program_splits_into_segments() {
    let mut image = MemoryImage::new(0);
    let n = 3000u32;
    let mut program: Vec<u32> = vec![0x0010_0093; n as usize];
    program.push(ECALL);
    set_program(&mut image, 0, &program);
    let mut exec = Executor::new(env13(), image, 0);
    let mut host = TestHost::new();
    let session = exec.run(&mut host).unwrap();
    assert_eq!(session.exit_code, ExitCode::Halted(0));
    assert!(session.segments.len() >= 2, "expected at least two segments");
    for (i, seg) in session.segments.iter().enumerate() {
        assert_eq!(seg.index, i as u32);
        assert!(seg.po2 <= 13);
        assert_eq!(seg.post_image_id.len(), 32);
    }
    // every non-terminal segment ended in a split, recording the index
    // of the instruction that would have overflowed the budget; in a
    // segment of one-cycle instructions that index equals the number of
    // instructions the segment retired.
    for seg in &session.segments[..session.segments.len() - 1] {
        assert_eq!(seg.exit_code, ExitCode::SystemSplit);
        assert_eq!(seg.split_insn, Some(seg.body_cycles as u32));
    }
    // the body cycles of the segments sum to the cycles retired:
    // one per addi, one for the halt ecall.
    let total: u64 = session.segments.iter().map(|s| s.body_cycles).sum();
    assert_eq!(total, n as u64 + 1);
}

#[test]
fn pause_then_resume_concatenates_journal() {
    let mut image = MemoryImage::new(0);
    // software ecall (returns a0 = 0x301), t0 := HALT, pause(3);
    // on resume: t0 := SOFTWARE, software ecall, t0 := HALT, halt(0).
    set_program(
        &mut image,
        0,
        &[
            ECALL,       // software: journal "ab", a0 := 0x301
            0x0000_0293, // t0 := 0
            ECALL,       // halt request: pause, user code 3
            0x0020_0293, // t0 := 2
            ECALL,       // software: journal "cd", a0 := 0
            0x0000_0293, // t0 := 0
            ECALL,       // halt request: terminate, user code 0
        ],
    );
    set_bytes(&mut image, 0x2000, b"journal\0");
    set_reg(&mut image, T0, 2);
    set_reg(&mut image, A0, 0x1000);
    set_reg(&mut image, A1, 0);
    set_reg(&mut image, A2, 0x2000);
    let mut exec = Executor::new(env13(), image, 0);
    let mut host = TestHost::new();
    host.journal_chunks = vec![b"ab".to_vec(), b"cd".to_vec()];
    host.syscall_ret[0] = (0x301, 0);
    host.syscall_ret[1] = (0, 0);

    let first = exec.run(&mut host).unwrap();
    assert_eq!(first.exit_code, ExitCode::Paused(3));
    assert_eq!(first.journal, b"ab".to_vec());
    for (i, seg) in first.segments.iter().enumerate() {
        assert_eq!(seg.index, i as u32);
    }

    let second = exec.run(&mut host).unwrap();
    assert_eq!(second.exit_code, ExitCode::Halted(0));
    assert_eq!(second.journal, b"cd".to_vec());
    // segment indices concatenate across the pause without gaps.
    for (i, seg) in second.segments.iter().enumerate() {
        assert_eq!(seg.index, (first.segments.len() + i) as u32);
    }

    let mut combined = first.journal.clone();
    combined.extend_from_slice(&second.journal);
    assert_eq!(combined, b"abcd".to_vec());
}

#[test]
fn session_limit_is_fatal() {
    let mut image = MemoryImage::new(0);
    set_program(&mut image, 0, &[ECALL]);
    let env = ExecutorEnv {
        segment_limit_po2: 13,
        session_limit: Some(10),
        trace_enabled: false,
    };
    let mut exec = Executor::new(env, image, 0);
    let mut host = TestHost::new();
    match exec.run(&mut host) {
        Err(e) => assert_eq!(e, ExecError::SessionLimitExceeded),
        Ok(_) => panic!("expected a session limit error"),
    }
}

#[test]
fn unknown_ecall_selector_faults() {
    let mut image = MemoryImage::new(0);
    set_program(&mut image, 0, &[ECALL]);
    set_reg(&mut image, T0, 9);
    let mut exec = Executor::new(env13(), image, 0);
    let mut host = TestHost::new();
    let session = exec.run(&mut host).unwrap();
    assert_eq!(session.exit_code, ExitCode::Fault(0));
}

#[test]
fn illegal_halt_type_faults() {
    let mut image = MemoryImage::new(0);
    set_program(&mut image, 0, &[ECALL]);
    set_reg(&mut image, A0, 2);
    let mut exec = Executor::new(env13(), image, 0);
    let mut host = TestHost::new();
    assert_eq!(exec.step(&mut host), Some(ExitCode::Fault(0)));
}

#[test]
fn undecodable_word_faults() {
    let image = MemoryImage::new(0);
    // memory is zero: instruction word 0 cannot be decoded.
    let mut exec = Executor::new(env13(), image, 0);
    let mut host = TestHost::new();
    let session = exec.run(&mut host).unwrap();
    assert_eq!(session.exit_code, ExitCode::Fault(0));
}

#[test]
fn resume_after_halt_is_rejected() {
    let mut image = MemoryImage::new(0);
    set_program(&mut image, 0, &[ECALL]);
    let mut exec = Executor::new(env13(), image, 0);
    let mut host = TestHost::new();
    let session = exec.run(&mut host).unwrap();
    assert_eq!(session.exit_code, ExitCode::Halted(0));
    match exec.run(&mut host) {
        Err(e) => assert_eq!(e, ExecError::ResumeAfterHalt),
        Ok(_) => panic!("expected a resume error"),
    }
}

#[test]
fn trace_reports_instruction_and_register() {
    let mut image = MemoryImage::new(0);
    set_program(&mut image, 0, &[0x0010_0093, ECALL]);
    let env = ExecutorEnv {
        segment_limit_po2: 13,
        session_limit: None,
        trace_enabled: true,
    };
    let mut exec = Executor::new(env, image, 0);
    let mut host = TestHost::new();
    let r = exec.step(&mut host);
    assert!(r.is_none());
    assert!(host
        .trace
        .iter()
        .any(|e| matches!(e, TraceEvent::InstructionStart { pc: 0, .. })));
    assert!(host
        .trace
        .iter()
        .any(|e| matches!(e, TraceEvent::RegisterSet { reg: 1, value: 1 })));
}

#[test]
fn session_cycle_grows_with_committed_steps() {
    let mut image = MemoryImage::new(0);
    set_program(&mut image, 0, &[0x0010_0093, 0x0010_0093, ECALL]);
    let mut exec = Executor::new(env13(), image, 0);
    let mut host = TestHost::new();
    let c0 = exec.session_cycle();
    assert!(exec.step(&mut host).is_none());
    let c1 = exec.session_cycle();
    assert!(exec.step(&mut host).is_none());
    let c2 = exec.session_cycle();
    assert!(c0 < c1 && c1 < c2);
    // total cycles stay under the configured segment limit.
    assert!(exec.total_cycles() <= 1 << 13);
}

#[test]
fn null_host_runs_pure_ecall_guest() {
    let mut image = MemoryImage::new(0);
    set_program(&mut image, 0, &[ECALL]);
    set_reg(&mut image, A0, 4 << 8);
    let mut exec = Executor::new(env13(), image, 0);
    let mut host = zkvm_exec::host::NullHost;
    let session = exec.run(&mut host).unwrap();
    assert_eq!(session.exit_code, ExitCode::Halted(4));
}

#[test]
fn input_ecall_advances_and_costs_nothing_extra() {
    let mut image = MemoryImage::new(0);
    set_program(&mut image, 0, &[ECALL]);
    set_reg(&mut image, T0, 1);
    set_reg(&mut image, A0, 0x1000);
    let mut exec = Executor::new(env13(), image, 0);
    let mut host = TestHost::new();
    let r = exec.step(&mut host);
    assert!(r.is_none());
    assert_eq!(exec.pc, 4);
    assert_eq!(exec.body_cycles, 1);
}
