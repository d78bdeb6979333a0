//! The result of processing one input, and how it reaches the output sink.

use vstd::prelude::*;

use crate::outcome::EngineError;

verus! {

/// The outcome of processing one input: a diff payload, or a propagating
/// error.  Both carry the input's ordinal index, its label, and the id of
/// the worker that produced them (the latter two for diagnostics only).
pub enum Response {
    Diff(usize, String, usize, Vec<u8>),
    Error(usize, String, usize, EngineError),
}

/// The ordinal index a response carries.
pub open spec fn resp_index(r: Response) -> int {
    match r {
        Response::Diff(i, _, _, _) => i as int,
        Response::Error(i, _, _, _) => i as int,
    }
}

/// The input label a response carries.
pub open spec fn resp_path(r: Response) -> Seq<char> {
    match r {
        Response::Diff(_, p, _, _) => p@,
        Response::Error(_, p, _, _) => p@,
    }
}

/// The producing worker's id.
pub open spec fn resp_worker(r: Response) -> int {
    match r {
        Response::Diff(_, _, t, _) => t as int,
        Response::Error(_, _, t, _) => t as int,
    }
}

/// The bytes a response contributes to the sink: its payload for a diff,
/// nothing for an error.
pub open spec fn resp_payload(r: Response) -> Seq<u8> {
    match r {
        Response::Diff(_, _, _, b) => b@,
        Response::Error(_, _, _, _) => Seq::<u8>::empty(),
    }
}

/// Whether the response carries a propagating error.
pub open spec fn resp_is_error(r: Response) -> bool {
    match r {
        Response::Diff(_, _, _, _) => false,
        Response::Error(_, _, _, _) => true,
    }
}

/// The carried error, for an error response.
pub open spec fn resp_error(r: Response) -> EngineError {
    match r {
        Response::Diff(_, _, _, _) => arbitrary(),
        Response::Error(_, _, _, e) => e,
    }
}

impl Response {
    /// Writes a diff payload to the sink; re-raises a carried error, which
    /// leaves the sink untouched.
    pub fn write_to(self, w: &mut Vec<u8>) -> (r: Result<(), EngineError>)
        ensures
            !resp_is_error(self) ==> r is Ok && final(w)@ == old(w)@ + resp_payload(self),
            resp_is_error(self) ==> r == Err::<(), EngineError>(resp_error(self)) && final(w)@
                == old(w)@,
    {
        match self {
            Response::Diff(_index, _file, _tid, mut buf) => {
                w.append(&mut buf);
                Ok(())
            },
            Response::Error(_index, _file, _tid, e) => Err(e),
        }
    }
}

} // verus!
