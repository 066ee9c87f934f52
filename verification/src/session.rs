//! Environment configuration, segments and sessions: what a run is given
//! and what it produces.

use vstd::prelude::*;
use crate::image::MemoryImage;
use crate::monitor::PageFaults;
use crate::platform::{MAX_PO2, MIN_PO2};
use crate::types::{ExitCode, SyscallRecord};

verus! {

/// Configuration of a run.
#[derive(Clone, Copy, Debug)]
pub struct ExecutorEnv {
    /// The segment cycle limit is `2^segment_limit_po2`.
    pub segment_limit_po2: u32,
    /// Total session cycle budget; exceeding it ends the run with an
    /// error.
    pub session_limit: Option<u64>,
    /// Whether trace events are delivered to the host.
    pub trace_enabled: bool,
}

impl ExecutorEnv {
    /// The exponent lies in the accepted range, so that the fixed
    /// per-segment overhead always fits under the limit.
    pub open spec fn wf(self) -> bool {
        MIN_PO2 <= self.segment_limit_po2 <= MAX_PO2
    }

    /// The segment cycle limit.
    pub open spec fn limit(self) -> u64 {
        1u64 << self.segment_limit_po2
    }
}

/// A contiguous portion of the execution trace whose cycle cost fits
/// under the segment limit: the unit of proof generation.
pub struct Segment {
    /// The memory image at the start of this segment.
    pub pre_image: MemoryImage,
    /// Identifier of the image after this segment's committed writes.
    pub post_image_id: Vec<u8>,
    /// Pages first touched in this segment.
    pub faults: PageFaults,
    /// Host-assisted syscalls committed in this segment, in order.
    pub syscalls: Vec<SyscallRecord>,
    /// Why the segment ended.
    pub exit_code: ExitCode,
    /// Index of the instruction that caused the latest split, if any.
    pub split_insn: Option<u32>,
    /// Smallest exponent with `2^po2` at least the segment's total
    /// cycles.
    pub po2: u32,
    /// Position of this segment in the session, from zero.
    pub index: u32,
    /// Opcode and privileged-call cycles retired in this segment.
    pub body_cycles: u64,
}

/// The sum of the body cycles of a segment sequence.
pub open spec fn sum_bodies(s: Seq<Segment>) -> nat
    decreases s.len(),
{
    if s.len() == 0 {
        0
    } else {
        (sum_bodies(s.drop_last()) + s.last().body_cycles) as nat
    }
}

/// The result of one `run`: the segments between entry and a terminal
/// exit, the accumulated journal bytes, and the terminal exit code.
pub struct Session {
    /// The segments, in execution order.
    pub segments: Vec<Segment>,
    /// Bytes the guest committed to the journal.
    pub journal: Vec<u8>,
    /// The terminal exit code.
    pub exit_code: ExitCode,
}

} // verus!
