//! Preview engine for an external filter command.
//!
//! The library feeds each input's original bytes to an external command,
//! captures the command's output, and emits a unified diff between the
//! "before" and "after" bytes on a single output sink.  Results can be
//! emitted serially, in strict input order, or in arrival order; per-input
//! soft failures (a non-zero exit) are reported on a separate diagnostic
//! channel and never on the sink.
//!
//! Running the command and all input/output is left to the caller: the
//! engine receives, for each input, what the command did (its captured
//! output, its non-zero exit status, or a process-control failure) and
//! decides what bytes the sink receives and in which order.

pub mod diffing;
pub mod engine;
pub mod inputs;
pub mod item;
pub mod laws;
pub mod outcome;
pub mod response;
