//! The interface to the host: the external collaborators the executor is
//! specified against but does not itself implement. Single-step execution
//! of non-privileged instructions, the syscall registry, the trace sink
//! and segment persistence all live behind this trait.
//!
//! An implementation may mutate guest memory only through the monitor
//! handle it is passed, which is what the contracts state: the committed
//! state is untouched, every effect is speculative until the executor
//! commits it.

use vstd::prelude::*;
use crate::monitor::MemoryMonitor;
use crate::session::Segment;
use crate::types::TraceEvent;

verus! {

/// Outcome of executing one non-privileged instruction.
pub struct InsnOutcome {
    /// Program counter after the instruction.
    pub new_pc: u32,
    /// The register the instruction wrote, if any, with its new value.
    pub reg_write: Option<(u32, u32)>,
}

/// What the executor asks of its embedder.
pub trait Host {
    /// Execute the single non-privileged instruction at `pc`, given a
    /// snapshot of the register file; memory is accessed only through
    /// the monitor, so all effects stay speculative and the committed
    /// state is unchanged.
    fn step_insn(&mut self, mem: MemoryMonitor, registers: Vec<u32>, pc: u32) -> (r: (
        MemoryMonitor,
        Result<InsnOutcome, ()>,
    ))
        requires
            mem.wf(),
            registers@.len() == 32,
        ensures
            r.0.wf(),
            MemoryMonitor::same_committed(mem, r.0),
    ;

    /// Handle a named syscall: fill the output buffer, optionally append
    /// to the journal, and return the values for registers `a0` and
    /// `a1`. Fails for an unknown name. The journal is append-only and
    /// the output buffer keeps its length.
    fn syscall(
        &mut self,
        name: &Vec<u8>,
        mem: &mut MemoryMonitor,
        journal: &mut Vec<u8>,
        to_guest: &mut Vec<u32>,
    ) -> (r: Result<(u32, u32), ()>)
        requires
            old(mem).wf(),
        ensures
            final(mem).wf(),
            MemoryMonitor::same_committed(*old(mem), *final(mem)),
            old(journal)@.is_prefix_of(final(journal)@),
            final(to_guest)@.len() == old(to_guest)@.len(),
    ;

    /// Observe a trace event.
    fn trace(&mut self, event: TraceEvent);

    /// Persist a finished segment; failing aborts the run.
    fn on_segment(&mut self, segment: &Segment) -> (r: Result<(), ()>);
}

/// A host that provides nothing: every instruction step and every
/// syscall fails, trace events are dropped, segments are accepted. Under
/// it a guest can still run any program made of privileged calls alone.
pub struct NullHost;

impl Host for NullHost {
    fn step_insn(&mut self, mem: MemoryMonitor, registers: Vec<u32>, pc: u32) -> (r: (
        MemoryMonitor,
        Result<InsnOutcome, ()>,
    )) {
        (mem, Err(()))
    }

    fn syscall(
        &mut self,
        name: &Vec<u8>,
        mem: &mut MemoryMonitor,
        journal: &mut Vec<u8>,
        to_guest: &mut Vec<u32>,
    ) -> (r: Result<(u32, u32), ()>) {
        Err(())
    }

    fn trace(&mut self, event: TraceEvent) {
    }

    fn on_segment(&mut self, segment: &Segment) -> (r: Result<(), ()>) {
        Ok(())
    }
}

} // verus!
