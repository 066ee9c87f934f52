//! Execution phase of a zero-knowledge RISC-V virtual machine.
//!
//! The executor runs a guest program deterministically, counts
//! proof-relevant cycles, and cuts the trace into segments whose cost fits
//! a configured per-segment budget. Privileged calls (halt, input, sha,
//! bigint, software) are handled here; single-step execution of ordinary
//! instructions, host syscalls, tracing and segment persistence are
//! delegated to a [`host::Host`] implementation supplied by the embedder.

pub mod bigint;
pub mod bytes;
pub mod exec;
pub mod host;
pub mod image;
pub mod monitor;
pub mod platform;
pub mod session;
pub mod sha;
pub mod types;
