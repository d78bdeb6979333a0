//! The Item Processor: turns what the external command did for one input
//! into the response the dispatcher writes to the sink, and into the
//! diagnostic it reports.

use vstd::prelude::*;

use crate::diffing::{diff_of, unified_diff_bytes};
use crate::outcome::{CmdOutcome, EngineError, Warning, is_hard, is_soft};
use crate::response::{
    Response, resp_error, resp_index, resp_is_error, resp_path, resp_payload, resp_worker,
};

verus! {

/// The bytes an input with label `path` and command outcome `out`
/// contributes to the sink: the unified diff of its original bytes against
/// the command's output on success (labeled with the path on both sides),
/// nothing on a soft or a hard failure.
pub open spec fn payload_of(path: Seq<char>, out: CmdOutcome) -> Seq<u8> {
    match out {
        CmdOutcome::Captured { original, stdout } => diff_of(path, original@, path, stdout@),
        _ => Seq::<u8>::empty(),
    }
}

/// Decides the response for one processed input.
///
/// A successful exit yields a diff payload; a non-zero exit yields an empty
/// payload together with a warning for the diagnostic channel; a hard
/// failure yields a propagating error tagged with the input's label.
pub fn process_item(index: usize, path: &String, worker: usize, outcome: &CmdOutcome) -> (r: (
    Response,
    Option<Warning>,
))
    ensures
        resp_index(r.0) == index,
        resp_path(r.0) == path@,
        resp_worker(r.0) == worker,
        resp_payload(r.0) == payload_of(path@, *outcome),
        resp_is_error(r.0) <==> is_hard(*outcome),
        *outcome matches CmdOutcome::Hard { kind, detail } ==> resp_error(r.0).kind == kind
            && resp_error(r.0).path@ == path@ && resp_error(r.0).detail@ == detail@,
        is_soft(*outcome) <==> r.1 is Some,
        *outcome matches CmdOutcome::ExitNonZero { status } ==> r.1 matches Some(wn)
            && wn.path@ == path@ && wn.status == status,
{
    match outcome {
        CmdOutcome::Captured { original, stdout } => {
            let payload = unified_diff_bytes(path, original, path, stdout);
            (Response::Diff(index, path.clone(), worker, payload), None)
        },
        CmdOutcome::ExitNonZero { status } => {
            let warning = Warning { path: path.clone(), status: *status };
            (Response::Diff(index, path.clone(), worker, Vec::new()), Some(warning))
        },
        CmdOutcome::Hard { kind, detail } => {
            let e = EngineError { kind: *kind, path: path.clone(), detail: detail.clone() };
            (Response::Error(index, path.clone(), worker, e), None)
        },
    }
}

/// Full-input filter mode: the whole standing input went through the
/// command at once, and the diff is labeled with the two synthetic labels
/// the caller supplies.  Success/failure handling mirrors per-file mode.
pub fn exec_with_filter(
    label_in: &String,
    label_out: &String,
    outcome: &CmdOutcome,
    sink: &mut Vec<u8>,
    diags: &mut Vec<Warning>,
) -> (r: Result<(), EngineError>)
    ensures
        *outcome matches CmdOutcome::Captured { original, stdout } ==> r is Ok && final(sink)@
            == old(sink)@ + diff_of(label_in@, original@, label_out@, stdout@) && final(diags)@
            == old(diags)@,
        *outcome matches CmdOutcome::ExitNonZero { status } ==> r is Ok && final(sink)@ == old(
            sink,
        )@ && final(diags)@.len() == old(diags)@.len() + 1 && final(diags)@.last().path@
            == label_in@ && final(diags)@.last().status == status && final(diags)@.drop_last()
            == old(diags)@,
        *outcome matches CmdOutcome::Hard { kind, detail } ==> r matches Err(e) && e.kind == kind
            && e.path@ == label_in@ && e.detail@ == detail@ && final(sink)@ == old(sink)@
            && final(diags)@ == old(diags)@,
{
    match outcome {
        CmdOutcome::Captured { original, stdout } => {
            crate::diffing::diff(sink, label_in, original, label_out, stdout);
            Ok(())
        },
        CmdOutcome::ExitNonZero { status } => {
            diags.push(Warning { path: label_in.clone(), status: *status });
            proof {
                assert(diags@.drop_last() =~= old(diags)@);
            }
            Ok(())
        },
        CmdOutcome::Hard { kind, detail } => {
            Err(EngineError { kind: *kind, path: label_in.clone(), detail: detail.clone() })
        },
    }
}

} // verus!
