//! What the external command did for one input, and the error and
//! diagnostic values the engine produces from it.

use vstd::prelude::*;

verus! {

/// Which step of running an input through the external command failed in a
/// way that must abort the whole run.
#[derive(Clone, Copy, Debug, PartialEq, Eq, Structural)]
pub enum HardKind {
    /// The input file could not be opened.
    OpenInput,
    /// The input could not be read.
    ReadInput,
    /// The external command could not be spawned.
    Spawn,
    /// The command's standard input could not be written.
    WriteChild,
    /// Waiting for the command to exit failed.
    Wait,
    /// The worker queues disconnected while the run was still feeding them.
    Disconnected,
}

/// A propagating error, tagged with the offending input's label.
pub struct EngineError {
    pub kind: HardKind,
    pub path: String,
    pub detail: String,
}

/// One diagnostic line: an input whose command exited with a non-zero
/// status.  Diagnostics are kept apart from the output sink.
pub struct Warning {
    pub path: String,
    pub status: i32,
}

/// What the external command did for one input.
pub enum CmdOutcome {
    /// The command exited successfully; `original` holds the input's bytes
    /// and `stdout` the command's captured output.
    Captured { original: Vec<u8>, stdout: Vec<u8> },
    /// The command exited with a non-zero status: a soft failure, the run
    /// continues and the input contributes nothing to the sink.
    ExitNonZero { status: i32 },
    /// Reading the input or controlling the process failed: a hard failure
    /// that aborts the run.
    Hard { kind: HardKind, detail: String },
}

/// Whether the outcome is a hard failure.
pub open spec fn is_hard(out: CmdOutcome) -> bool {
    match out {
        CmdOutcome::Hard { kind: _, detail: _ } => true,
        _ => false,
    }
}

/// Whether the outcome is a soft failure (non-zero exit).
pub open spec fn is_soft(out: CmdOutcome) -> bool {
    match out {
        CmdOutcome::ExitNonZero { status: _ } => true,
        _ => false,
    }
}

} // verus!
