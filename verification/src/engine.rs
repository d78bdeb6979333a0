//! The execution engine: Serial Fallback, Ordered and Unordered dispatch.
//!
//! Every input produces exactly one response, and every response is written
//! to the sink exactly once, in the order the active dispatcher mandates:
//! input order for Serial and Ordered, arrival order for Unordered.  A hard
//! failure aborts the run after the results already due have been written.

use vstd::prelude::*;

use crate::item::{payload_of, process_item};
use crate::outcome::{CmdOutcome, EngineError, HardKind, Warning, is_hard};

verus! {

/// One input, paired with what the external command did for it.
pub struct ItemOutcome {
    pub path: String,
    pub outcome: CmdOutcome,
}

/// The bytes one processed input contributes to the sink.
pub open spec fn item_payload(it: ItemOutcome) -> Seq<u8> {
    payload_of(it.path@, it.outcome)
}

/// The diagnostic entries one processed input contributes, as
/// (label, exit status) pairs: one for a non-zero exit, none otherwise.
pub open spec fn item_warnings(it: ItemOutcome) -> Seq<(Seq<char>, int)> {
    match it.outcome {
        CmdOutcome::ExitNonZero { status } => seq![(it.path@, status as int)],
        _ => Seq::<(Seq<char>, int)>::empty(),
    }
}

/// The failure kind of a hard-failed input.
pub open spec fn hard_kind(it: ItemOutcome) -> HardKind {
    match it.outcome {
        CmdOutcome::Hard { kind, detail: _ } => kind,
        _ => arbitrary(),
    }
}

/// The failure detail of a hard-failed input.
pub open spec fn hard_detail(it: ItemOutcome) -> Seq<char> {
    match it.outcome {
        CmdOutcome::Hard { kind: _, detail } => detail@,
        _ => arbitrary(),
    }
}

/// The concatenation, in order, of the bytes the given inputs contribute
/// to the sink.
pub open spec fn payloads_concat(items: Seq<ItemOutcome>) -> Seq<u8>
    decreases items.len(),
{
    if items.len() == 0 {
        Seq::<u8>::empty()
    } else {
        payloads_concat(items.drop_last()) + item_payload(items.last())
    }
}

/// The concatenation, in order, of the diagnostic entries the given inputs
/// contribute.
pub open spec fn warnings_concat(items: Seq<ItemOutcome>) -> Seq<(Seq<char>, int)>
    decreases items.len(),
{
    if items.len() == 0 {
        Seq::<(Seq<char>, int)>::empty()
    } else {
        warnings_concat(items.drop_last()) + item_warnings(items.last())
    }
}

/// The diff blocks a run over the given inputs emits, one per input, in
/// input order.
pub open spec fn blocks_of(items: Seq<ItemOutcome>) -> Seq<Seq<u8>> {
    items.map_values(|it: ItemOutcome| item_payload(it))
}

/// Diagnostic entries as (label, exit status) pairs.
pub open spec fn warning_views(ws: Seq<Warning>) -> Seq<(Seq<char>, int)> {
    ws.map_values(|w: Warning| (w.path@, w.status as int))
}

/// The index of the first hard-failed input, or the length if none failed
/// hard: how far a run that stops at the first hard failure gets.
pub open spec fn first_hard(items: Seq<ItemOutcome>) -> int
    decreases items.len(),
{
    if items.len() == 0 {
        0
    } else if is_hard(items.first().outcome) {
        0
    } else {
        1 + first_hard(items.drop_first())
    }
}

/// If the first `i` inputs are not hard failures, and input `i` (when
/// there is one) is, then `i` is where a run stops.
pub proof fn lemma_first_hard_is(items: Seq<ItemOutcome>, i: int)
    requires
        0 <= i <= items.len(),
        forall|j: int| 0 <= j < i ==> !is_hard(#[trigger] items[j].outcome),
        i < items.len() ==> is_hard(items[i].outcome),
    ensures
        first_hard(items) == i,
    decreases i,
{
    if items.len() == 0 {
    } else if i == 0 {
    } else {
        assert(!is_hard(items.first().outcome));
        assert(forall|j: int|
            0 <= j < i - 1 ==> !is_hard(#[trigger] items.drop_first()[j].outcome)) by {
            assert(forall|j: int|
                0 <= j < i - 1 ==> items.drop_first()[j] == items[j + 1]);
        }
        assert(i - 1 < items.drop_first().len() ==> is_hard(items.drop_first()[i - 1].outcome));
        lemma_first_hard_is(items.drop_first(), i - 1);
    }
}

/// Serial Fallback: processes every input in order and writes each result
/// to the sink immediately, stopping at the first hard failure.
///
/// On success the count of processed inputs is returned; the sink gains
/// exactly the concatenated payloads of the inputs before the first hard
/// failure, and the diagnostics one warning per non-zero exit among them,
/// in the same order.
pub fn serial_exec_multiple_files(
    items: &Vec<ItemOutcome>,
    sink: &mut Vec<u8>,
    diags: &mut Vec<Warning>,
) -> (r: Result<usize, EngineError>)
    ensures
        final(sink)@ == old(sink)@ + payloads_concat(items@.take(first_hard(items@))),
        warning_views(final(diags)@) == warning_views(old(diags)@) + warnings_concat(
            items@.take(first_hard(items@)),
        ),
        r is Ok <==> first_hard(items@) == items@.len(),
        r matches Ok(c) ==> c == items@.len(),
        r matches Err(e) ==> ({
            let k = first_hard(items@);
            &&& e.kind == hard_kind(items@[k])
            &&& e.path@ == items@[k].path@
            &&& e.detail@ == hard_detail(items@[k])
        }),
{
    let ghost sink0 = sink@;
    let ghost diags0 = diags@;
    let mut i: usize = 0;
    while i < items.len()
        invariant
            0 <= i <= items@.len(),
            sink0 == old(sink)@,
            diags0 == old(diags)@,
            forall|j: int| 0 <= j < i ==> !is_hard(#[trigger] items@[j].outcome),
            sink@ == sink0 + payloads_concat(items@.take(i as int)),
            warning_views(diags@) == warning_views(diags0) + warnings_concat(
                items@.take(i as int),
            ),
        decreases items@.len() - i,
    {
        let it = &items[i];
        let (resp, warn) = process_item(i, &it.path, 0, &it.outcome);
        proof {
            assert(items@.take(i + 1).drop_last() =~= items@.take(i as int));
            assert(items@.take(i + 1).last() == items@[i as int]);
        }
        match warn {
            Some(wn) => {
                let ghost dpre = diags@;
                let ghost pair = (wn.path@, wn.status as int);
                diags.push(wn);
                proof {
                    assert(warning_views(diags@) =~= warning_views(dpre).push(pair));
                    assert(warnings_concat(items@.take(i + 1)) =~= warnings_concat(
                        items@.take(i as int),
                    ).push(pair));
                    assert(warning_views(diags0) + warnings_concat(items@.take(i + 1)) =~= (
                    warning_views(diags0) + warnings_concat(items@.take(i as int))).push(pair));
                }
            },
            None => {
                proof {
                    assert(warnings_concat(items@.take(i + 1)) =~= warnings_concat(
                        items@.take(i as int),
                    ));
                }
            },
        }
        match resp.write_to(sink) {
            Ok(_) => {
                proof {
                    assert(payloads_concat(items@.take(i + 1)) == payloads_concat(
                        items@.take(i as int),
                    ) + item_payload(items@[i as int]));
                }
            },
            Err(e) => {
                proof {
                    lemma_first_hard_is(items@, i as int);
                }
                return Err(e);
            },
        }
        i += 1;
    }
    proof {
        lemma_first_hard_is(items@, items@.len() as int);
        assert(items@.take(items@.len() as int) =~= items@);
    }
    Ok(i)
}

/// What the Ordered dispatcher does next, before submitting an item.
#[derive(Clone, Copy, Debug, PartialEq, Eq, Structural)]
pub enum SubmitPolicy {
    /// The pending sequence is at its bound: block on the head reply slot,
    /// write its result and pop it before submitting anything.
    DrainHeadFirst,
    /// The pending sequence is non-empty: race the submission against the
    /// head reply slot becoming ready, so that completed results flow out
    /// promptly.
    RaceWithHead,
    /// The pending sequence is empty: submit directly.
    SubmitDirect,
}

/// Bookkeeping of the Ordered dispatcher: how many items were handed to
/// the pool and how many results have been written, the difference being
/// the FIFO of pending reply slots.
pub struct OrderedDispatch {
    pub bound: usize,
    pub submitted: usize,
    pub written: usize,
}

impl OrderedDispatch {
    /// Results are written in order, and never more are pending than the
    /// bound admits.
    pub open spec fn wf(self) -> bool {
        self.written <= self.submitted && self.submitted - self.written <= self.bound
    }

    /// The submission policy the dispatcher state calls for.
    pub open spec fn spec_policy(self) -> SubmitPolicy {
        if self.submitted - self.written >= self.bound {
            SubmitPolicy::DrainHeadFirst
        } else if self.submitted - self.written > 0 {
            SubmitPolicy::RaceWithHead
        } else {
            SubmitPolicy::SubmitDirect
        }
    }

    /// A fresh dispatcher for a pool of `workers` workers; the pending
    /// sequence is bounded by eight slots per worker.
    pub fn new(workers: usize) -> (d: OrderedDispatch)
        requires
            1 <= workers <= usize::MAX / 8,
        ensures
            d.bound == workers * 8,
            d.submitted == 0,
            d.written == 0,
            d.wf(),
    {
        OrderedDispatch { bound: workers * 8, submitted: 0, written: 0 }
    }

    /// How many reply slots are pending.
    pub fn pending(&self) -> (p: usize)
        requires
            self.wf(),
        ensures
            p == self.submitted - self.written,
    {
        self.submitted - self.written
    }

    /// Chooses among the three submission cases.
    pub fn submit_policy(&self) -> (p: SubmitPolicy)
        requires
            self.wf(),
        ensures
            p == self.spec_policy(),
    {
        if self.submitted - self.written >= self.bound {
            SubmitPolicy::DrainHeadFirst
        } else if self.submitted - self.written > 0 {
            SubmitPolicy::RaceWithHead
        } else {
            SubmitPolicy::SubmitDirect
        }
    }

    /// Records that one item was handed to the pool, with its reply slot
    /// appended to the pending FIFO.
    pub fn on_submitted(&mut self)
        requires
            old(self).wf(),
            old(self).spec_policy() != SubmitPolicy::DrainHeadFirst,
            old(self).submitted < usize::MAX,
        ensures
            final(self).bound == old(self).bound,
            final(self).submitted == old(self).submitted + 1,
            final(self).written == old(self).written,
            final(self).wf(),
    {
        self.submitted = self.submitted + 1;
    }

    /// Records that the head reply slot's result was written and popped.
    pub fn on_delivered(&mut self)
        requires
            old(self).wf(),
            old(self).written < old(self).submitted,
        ensures
            final(self).bound == old(self).bound,
            final(self).submitted == old(self).submitted,
            final(self).written == old(self).written + 1,
            final(self).wf(),
    {
        self.written = self.written + 1;
    }
}

/// Processes and writes the item the head pending reply slot is due for:
/// in a run that delivers results in input order, that is the item at the
/// next unwritten index.
fn deliver_next(
    items: &Vec<ItemOutcome>,
    workers: usize,
    d: &mut OrderedDispatch,
    sink: &mut Vec<u8>,
    diags: &mut Vec<Warning>,
) -> (r: Result<(), EngineError>)
    requires
        old(d).wf(),
        old(d).written < old(d).submitted,
        old(d).submitted <= items@.len(),
        workers >= 1,
    ensures
        final(d).bound == old(d).bound,
        final(d).submitted == old(d).submitted,
        ({
            let it = items@[old(d).written as int];
            if !is_hard(it.outcome) {
                &&& r is Ok
                &&& final(d).written == old(d).written + 1
                &&& final(sink)@ == old(sink)@ + item_payload(it)
                &&& warning_views(final(diags)@) == warning_views(old(diags)@) + item_warnings(
                    it,
                )
            } else {
                &&& r matches Err(e) && e.kind == hard_kind(it) && e.path@ == it.path@
                    && e.detail@ == hard_detail(it)
                &&& final(d).written == old(d).written
                &&& final(sink)@ == old(sink)@
                &&& warning_views(final(diags)@) == warning_views(old(diags)@)
            }
        }),
{
    let idx = d.written;
    let it = &items[idx];
    let (resp, warn) = process_item(idx, &it.path, idx % workers, &it.outcome);
    match resp.write_to(sink) {
        Ok(_) => {},
        Err(e) => {
            return Err(e);
        },
    }
    match warn {
        Some(wn) => {
            let ghost dpre = diags@;
            let ghost pair = (wn.path@, wn.status as int);
            diags.push(wn);
            proof {
                assert(warning_views(diags@) =~= warning_views(dpre).push(pair));
                assert(warning_views(dpre).push(pair) =~= warning_views(dpre) + item_warnings(
                    items@[old(d).written as int],
                ));
            }
        },
        None => {
            proof {
                assert(warning_views(diags@) =~= warning_views(diags@) + item_warnings(
                    items@[old(d).written as int],
                ));
            }
        },
    }
    d.on_delivered();
    Ok(())
}

/// Ordered dispatch: results reach the sink in strictly increasing input
/// order, with no gaps, even though workers may complete out of order; at
/// most `bound` results are ever buffered ahead of the writer.
///
/// The sink and diagnostic content equal the Serial Fallback's for the
/// same inputs.
pub fn parallel_exec_multiple_files_ordered(
    items: &Vec<ItemOutcome>,
    workers: usize,
    sink: &mut Vec<u8>,
    diags: &mut Vec<Warning>,
) -> (r: Result<usize, EngineError>)
    requires
        1 <= workers <= usize::MAX / 8,
    ensures
        final(sink)@ == old(sink)@ + payloads_concat(items@.take(first_hard(items@))),
        warning_views(final(diags)@) == warning_views(old(diags)@) + warnings_concat(
            items@.take(first_hard(items@)),
        ),
        r is Ok <==> first_hard(items@) == items@.len(),
        r matches Ok(c) ==> c == items@.len(),
        r matches Err(e) ==> ({
            let k = first_hard(items@);
            &&& e.kind == hard_kind(items@[k])
            &&& e.path@ == items@[k].path@
            &&& e.detail@ == hard_detail(items@[k])
        }),
{
    let ghost sink0 = sink@;
    let ghost diags0 = diags@;
    let n: usize = items.len();
    let mut d = OrderedDispatch::new(workers);
    let mut i: usize = 0;
    while i < n
        invariant
            sink0 == old(sink)@,
            diags0 == old(diags)@,
            n == items@.len(),
            d.wf(),
            d.bound >= 1,
            d.submitted == i,
            0 <= i <= items@.len(),
            items@.len() <= usize::MAX,
            1 <= workers <= usize::MAX / 8,
            forall|j: int| 0 <= j < d.written ==> !is_hard(#[trigger] items@[j].outcome),
            sink@ == sink0 + payloads_concat(items@.take(d.written as int)),
            warning_views(diags@) == warning_views(diags0) + warnings_concat(
                items@.take(d.written as int),
            ),
        decreases items@.len() - i,
    {
        loop
            invariant_except_break
                d.submitted == i,
            invariant
                sink0 == old(sink)@,
                diags0 == old(diags)@,
                d.wf(),
                d.bound >= 1,
                i < items@.len(),
                items@.len() <= usize::MAX,
                1 <= workers <= usize::MAX / 8,
                forall|j: int| 0 <= j < d.written ==> !is_hard(#[trigger] items@[j].outcome),
                sink@ == sink0 + payloads_concat(items@.take(d.written as int)),
                warning_views(diags@) == warning_views(diags0) + warnings_concat(
                    items@.take(d.written as int),
                ),
            ensures
                d.wf(),
                d.bound >= 1,
                d.submitted == i + 1,
                forall|j: int| 0 <= j < d.written ==> !is_hard(#[trigger] items@[j].outcome),
                sink@ == sink0 + payloads_concat(items@.take(d.written as int)),
                warning_views(diags@) == warning_views(diags0) + warnings_concat(
                    items@.take(d.written as int),
                ),
            decreases d.submitted - d.written,
        {
            let pol = d.submit_policy();
            match pol {
                SubmitPolicy::DrainHeadFirst => {
                    let ghost w = d.written as int;
                    match deliver_next(items, workers, &mut d, sink, diags) {
                        Ok(_) => {
                            proof {
                                assert(items@.take(w + 1).drop_last() =~= items@.take(w));
                                assert(items@.take(w + 1).last() == items@[w]);
                                assert(warning_views(diags0) + warnings_concat(
                                    items@.take(w + 1),
                                ) =~= (warning_views(diags0) + warnings_concat(items@.take(w)))
                                    + item_warnings(items@[w]));
                            }
                        },
                        Err(e) => {
                            proof {
                                lemma_first_hard_is(items@, w);
                            }
                            return Err(e);
                        },
                    }
                },
                _ => {
                    d.on_submitted();
                    break ;
                },
            }
        }
        i += 1;
    }
    while d.pending() > 0
        invariant
            sink0 == old(sink)@,
            diags0 == old(diags)@,
            d.wf(),
            d.bound >= 1,
            d.submitted == items@.len(),
            1 <= workers <= usize::MAX / 8,
            forall|j: int| 0 <= j < d.written ==> !is_hard(#[trigger] items@[j].outcome),
            sink@ == sink0 + payloads_concat(items@.take(d.written as int)),
            warning_views(diags@) == warning_views(diags0) + warnings_concat(
                items@.take(d.written as int),
            ),
        decreases d.submitted - d.written,
    {
        let ghost w = d.written as int;
        match deliver_next(items, workers, &mut d, sink, diags) {
            Ok(_) => {
                proof {
                    assert(items@.take(w + 1).drop_last() =~= items@.take(w));
                    assert(items@.take(w + 1).last() == items@[w]);
                    assert(warning_views(diags0) + warnings_concat(items@.take(w + 1)) =~= (
                    warning_views(diags0) + warnings_concat(items@.take(w))) + item_warnings(
                        items@[w],
                    ));
                }
            },
            Err(e) => {
                proof {
                    lemma_first_hard_is(items@, w);
                }
                return Err(e);
            },
        }
    }
    proof {
        lemma_first_hard_is(items@, items@.len() as int);
        assert(items@.take(items@.len() as int) =~= items@);
    }
    Ok(items.len())
}

/// An arrival order: the order in which a pool's results reach the shared
/// result queue.  Every input's result arrives exactly once — every index
/// below `n` appears exactly once.
pub open spec fn is_arrival_order(ord: Seq<usize>, n: nat) -> bool {
    &&& n <= usize::MAX
    &&& ord.len() == n
    &&& forall|i: int| 0 <= i < ord.len() ==> (#[trigger] ord[i]) < n
    &&& forall|i: int, j: int| 0 <= i < j < ord.len() ==> ord[i] != ord[j]
    &&& forall|v: int| 0 <= v < n ==> ord.contains(#[trigger] (v as usize))
}

/// A sequence as a worker pool completed it: the element at position `i`
/// of the run is the one with ordinal `ord[i]`.
pub open spec fn reorder<T>(items: Seq<T>, ord: Seq<usize>) -> Seq<T> {
    Seq::new(ord.len(), |i: int| items[ord[i] as int])
}

/// Bookkeeping of the Unordered dispatcher: the in-flight counter,
/// submitted minus drained.
pub struct UnorderedDispatch {
    pub submitted: usize,
    pub drained: usize,
}

impl UnorderedDispatch {
    pub open spec fn wf(self) -> bool {
        self.drained <= self.submitted
    }

    pub fn new() -> (d: UnorderedDispatch)
        ensures
            d.submitted == 0,
            d.drained == 0,
            d.wf(),
    {
        UnorderedDispatch { submitted: 0, drained: 0 }
    }

    /// Records one request handed to the pool.
    pub fn on_submitted(&mut self)
        requires
            old(self).wf(),
            old(self).submitted < usize::MAX,
        ensures
            final(self).submitted == old(self).submitted + 1,
            final(self).drained == old(self).drained,
            final(self).wf(),
    {
        self.submitted = self.submitted + 1;
    }

    /// Records one result drained from the shared result queue and written.
    pub fn on_drained(&mut self)
        requires
            old(self).wf(),
            old(self).drained < old(self).submitted,
        ensures
            final(self).submitted == old(self).submitted,
            final(self).drained == old(self).drained + 1,
            final(self).wf(),
    {
        self.drained = self.drained + 1;
    }

    /// How many results are still in flight.
    pub fn remaining(&self) -> (r: usize)
        requires
            self.wf(),
        ensures
            r == self.submitted - self.drained,
    {
        self.submitted - self.drained
    }
}

/// Unordered dispatch: results are written in arrival order, the order in
/// which the pool completed them, given here as `arrival`.
///
/// The sink receives exactly what the Serial Fallback would emit for the
/// inputs rearranged into arrival order; so does the diagnostic channel.
pub fn parallel_exec_multiple_files_unordered(
    items: &Vec<ItemOutcome>,
    workers: usize,
    arrival: &Vec<usize>,
    sink: &mut Vec<u8>,
    diags: &mut Vec<Warning>,
) -> (r: Result<usize, EngineError>)
    requires
        workers >= 1,
        is_arrival_order(arrival@, items@.len()),
    ensures
        ({
            let run = reorder(items@, arrival@);
            &&& final(sink)@ == old(sink)@ + payloads_concat(run.take(first_hard(run)))
            &&& warning_views(final(diags)@) == warning_views(old(diags)@) + warnings_concat(
                run.take(first_hard(run)),
            )
            &&& (r is Ok <==> first_hard(run) == run.len())
            &&& (r matches Ok(c) ==> c == items@.len())
            &&& (r matches Err(e) ==> ({
                let k = first_hard(run);
                &&& e.kind == hard_kind(run[k])
                &&& e.path@ == run[k].path@
                &&& e.detail@ == hard_detail(run[k])
            }))
        }),
{
    let ghost sink0 = sink@;
    let ghost diags0 = diags@;
    let ghost run = reorder(items@, arrival@);
    let mut u = UnorderedDispatch::new();
    let n: usize = arrival.len();
    let mut j: usize = 0;
    while j < n
        invariant
            sink0 == old(sink)@,
            diags0 == old(diags)@,
            run == reorder(items@, arrival@),
            is_arrival_order(arrival@, items@.len()),
            n == arrival@.len(),
            workers >= 1,
            u.wf(),
            u.submitted == j,
            u.drained == j,
            0 <= j <= n,
            forall|v: int| 0 <= v < j ==> !is_hard(#[trigger] run[v].outcome),
            sink@ == sink0 + payloads_concat(run.take(j as int)),
            warning_views(diags@) == warning_views(diags0) + warnings_concat(run.take(j as int)),
        decreases n - j,
    {
        let idx = arrival[j];
        let it = &items[idx];
        let (resp, warn) = process_item(idx, &it.path, j % workers, &it.outcome);
        u.on_submitted();
        proof {
            assert(run[j as int] == items@[arrival@[j as int] as int]);
            assert(run.take(j + 1).drop_last() =~= run.take(j as int));
            assert(run.take(j + 1).last() == run[j as int]);
        }
        match warn {
            Some(wn) => {
                let ghost dpre = diags@;
                let ghost pair = (wn.path@, wn.status as int);
                diags.push(wn);
                proof {
                    assert(warning_views(diags@) =~= warning_views(dpre).push(pair));
                    assert(warnings_concat(run.take(j + 1)) =~= warnings_concat(
                        run.take(j as int),
                    ).push(pair));
                    assert(warning_views(diags0) + warnings_concat(run.take(j + 1)) =~= (
                    warning_views(diags0) + warnings_concat(run.take(j as int))).push(pair));
                }
            },
            None => {
                proof {
                    assert(warnings_concat(run.take(j + 1)) =~= warnings_concat(
                        run.take(j as int),
                    ));
                }
            },
        }
        match resp.write_to(sink) {
            Ok(_) => {
                u.on_drained();
            },
            Err(e) => {
                proof {
                    lemma_first_hard_is(run, j as int);
                }
                return Err(e);
            },
        }
        j += 1;
    }
    proof {
        lemma_first_hard_is(run, run.len() as int);
        assert(run.take(run.len() as int) =~= run);
    }
    Ok(n)
}

/// Which of the three execution strategies a run uses.
#[derive(Clone, Copy, Debug, PartialEq, Eq, Structural)]
pub enum ExecMode {
    Serial,
    Unordered,
    Ordered,
}

/// Resolves the effective worker count: an explicit request is used
/// exactly; otherwise the host's available hardware parallelism, falling
/// back to one when that could not be determined.
pub fn resolve_worker_count(jobs: u32, hardware: Option<usize>) -> (r: usize)
    requires
        hardware matches Some(h) ==> h >= 1,
    ensures
        r >= 1,
        jobs > 0 ==> r == jobs,
        jobs == 0 ==> r == (if hardware is Some {
            hardware.unwrap()
        } else {
            1usize
        }),
{
    if jobs > 0 {
        jobs as usize
    } else {
        match hardware {
            Some(h) => h,
            None => 1,
        }
    }
}

/// Selects the execution strategy: one worker falls back to serial unless
/// parallel execution is forced; otherwise the caller's choice between
/// arrival order and input order decides.
pub fn choose_mode(threads: usize, force_parallel: bool, unordered: bool) -> (r: ExecMode)
    ensures
        r == (if threads <= 1 && !force_parallel {
            ExecMode::Serial
        } else if unordered {
            ExecMode::Unordered
        } else {
            ExecMode::Ordered
        }),
{
    if threads <= 1 && !force_parallel {
        ExecMode::Serial
    } else if unordered {
        ExecMode::Unordered
    } else {
        ExecMode::Ordered
    }
}

/// The capacity of the bounded request and result queues that feed a pool
/// of `workers` workers: two slots per worker.
pub fn queue_capacity(workers: usize) -> (c: usize)
    requires
        workers <= usize::MAX / 2,
    ensures
        c == workers * 2,
{
    workers * 2
}

} // verus!
