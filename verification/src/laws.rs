//! The engine's cross-cutting guarantees, stated over the spec functions
//! its contracts use.

use vstd::prelude::*;

use crate::engine::{
    ItemOutcome, blocks_of, first_hard, is_arrival_order, item_payload, payloads_concat, reorder,
};
use crate::outcome::{is_hard, is_soft};

verus! {

broadcast use vstd::seq_lib::group_to_multiset_ensures;

/// Rearranging a sequence by an arrival order leaves its multiset of
/// elements unchanged.
pub proof fn lemma_reorder_multiset<T>(items: Seq<T>, ord: Seq<usize>)
    requires
        is_arrival_order(ord, items.len()),
    ensures
        reorder(items, ord).to_multiset() == items.to_multiset(),
    decreases items.len(),
{
    if items.len() == 0 {
        assert(reorder(items, ord) =~= Seq::<T>::empty());
        assert(reorder(items, ord).to_multiset() =~= items.to_multiset());
    } else {
        let n = items.len() as int;
        assert(ord.contains(((n - 1) as usize)));
        let j = choose|j: int| 0 <= j < ord.len() && ord[j] == ((n - 1) as usize);
        let ord2 = ord.remove(j);
        assert(is_arrival_order(ord2, (n - 1) as nat)) by {
            assert(forall|i: int|
                0 <= i < ord2.len() ==> (#[trigger] ord2[i]) == (if i < j {
                    ord[i]
                } else {
                    ord[i + 1]
                }));
            assert forall|i: int| 0 <= i < ord2.len() implies (#[trigger] ord2[i]) < (n - 1)
                as nat by {
                let src = if i < j {
                    i
                } else {
                    i + 1
                };
                assert(ord2[i] == ord[src]);
                assert(ord[src] != ord[j] || src == j);
            }
            assert forall|v: int| 0 <= v < n - 1 implies ord2.contains(
                #[trigger] (v as usize),
            ) by {
                assert(ord.contains((v as usize)));
                let p = choose|p: int| 0 <= p < ord.len() && ord[p] == (v as usize);
                assert(p != j);
                if p < j {
                    assert(ord2[p] == (v as usize));
                } else {
                    assert(ord2[p - 1] == (v as usize));
                }
            }
        }
        lemma_reorder_multiset(items.drop_last(), ord2);
        let run = reorder(items, ord);
        assert(run.remove(j) =~= reorder(items.drop_last(), ord2)) by {
            assert(forall|i: int|
                0 <= i < run.remove(j).len() ==> (#[trigger] run.remove(j)[i]) == (if i < j {
                    run[i]
                } else {
                    run[i + 1]
                }));
        }
        assert(run[j] == items.last());
        assert(run.remove(j).to_multiset() =~= run.to_multiset().remove(items.last()));
        assert(items =~= items.drop_last().push(items.last()));
        assert(items.to_multiset() =~= items.drop_last().to_multiset().insert(items.last()));
        assert(run.contains(items.last())) by {
            assert(run[j] == items.last());
        }
        assert(run.to_multiset().count(items.last()) > 0);
        assert(run.to_multiset() =~= run.to_multiset().remove(items.last()).insert(
            items.last(),
        ));
        assert(run.to_multiset() =~= items.to_multiset());
    }
}

/// The sink bytes of a run are exactly its diff blocks, in order,
/// concatenated with no additional framing.
pub proof fn lemma_sink_is_blocks_concatenated(items: Seq<ItemOutcome>)
    ensures
        payloads_concat(items) == blocks_of(items).flatten(),
    decreases items.len(),
{
    if items.len() == 0 {
        assert(blocks_of(items) =~= Seq::<Seq<u8>>::empty());
        assert(blocks_of(items).flatten() =~= Seq::<u8>::empty());
    } else {
        lemma_sink_is_blocks_concatenated(items.drop_last());
        assert(blocks_of(items).drop_last() =~= blocks_of(items.drop_last()));
        assert(blocks_of(items).last() == item_payload(items.last()));
        assert(blocks_of(items).flatten_alt() == blocks_of(items).drop_last().flatten_alt()
            + blocks_of(items).last());
        blocks_of(items).lemma_flatten_and_flatten_alt_are_equivalent();
        blocks_of(items.drop_last()).lemma_flatten_and_flatten_alt_are_equivalent();
    }
}

/// Law: for the same inputs and command outcomes, Ordered mode's sink
/// content byte-for-byte equals the Serial Fallback's.
///
/// The contracts of `parallel_exec_multiple_files_ordered` and of
/// `serial_exec_multiple_files` pin the bytes each appends to the sink to
/// the same value, stated here: the blocks of the inputs before the first
/// hard failure, in input order, concatenated — all of them, when none
/// fails hard.
pub proof fn lemma_ordered_equals_serial(items: Seq<ItemOutcome>)
    ensures
        payloads_concat(items.take(first_hard(items))) == blocks_of(
            items.take(first_hard(items)),
        ).flatten(),
        first_hard(items) == items.len() ==> payloads_concat(items.take(first_hard(items)))
            == blocks_of(items).flatten(),
{
    lemma_sink_is_blocks_concatenated(items.take(first_hard(items)));
    if first_hard(items) == items.len() {
        assert(items.take(items.len() as int) =~= items);
    }
}

/// Law: the multiset of diff blocks Unordered mode emits equals the
/// multiset the Serial Fallback emits, whatever order the pool completed
/// the inputs in.
pub proof fn lemma_unordered_blocks_multiset(items: Seq<ItemOutcome>, ord: Seq<usize>)
    requires
        is_arrival_order(ord, items.len()),
    ensures
        blocks_of(reorder(items, ord)).to_multiset() == blocks_of(items).to_multiset(),
{
    assert(blocks_of(reorder(items, ord)) =~= reorder(blocks_of(items), ord));
    lemma_reorder_multiset(blocks_of(items), ord);
}

/// Law: an input whose command exited non-zero contributes no bytes to
/// the output sink, in every mode: its payload is empty, and removing it
/// from a run leaves the emitted bytes unchanged.
pub proof fn lemma_soft_failure_silent(items: Seq<ItemOutcome>, i: int)
    requires
        0 <= i < items.len(),
        is_soft(items[i].outcome),
    ensures
        item_payload(items[i]) == Seq::<u8>::empty(),
        payloads_concat(items) == payloads_concat(items.remove(i)),
    decreases items.len(),
{
    if i == items.len() - 1 {
        assert(items.remove(i) =~= items.drop_last());
        assert(payloads_concat(items) == payloads_concat(items.drop_last()) + item_payload(
            items.last(),
        ));
        assert(payloads_concat(items.drop_last()) + Seq::<u8>::empty() =~= payloads_concat(
            items.drop_last(),
        ));
    } else {
        assert(items.remove(i).last() == items.last());
        assert(items.remove(i).drop_last() =~= items.drop_last().remove(i));
        lemma_soft_failure_silent(items.drop_last(), i);
    }
}

/// Law: the worker count has no effect on the sink content.  Ordered mode
/// and the Serial Fallback state their sink bytes without reference to a
/// worker count at all; Unordered mode emits, for any two completion
/// orders (however many workers raced to produce them), the same multiset
/// of diff blocks.
pub proof fn lemma_worker_count_immaterial(
    items: Seq<ItemOutcome>,
    ord1: Seq<usize>,
    ord2: Seq<usize>,
)
    requires
        is_arrival_order(ord1, items.len()),
        is_arrival_order(ord2, items.len()),
    ensures
        blocks_of(reorder(items, ord1)).to_multiset() == blocks_of(reorder(items, ord2))
            .to_multiset(),
{
    lemma_unordered_blocks_multiset(items, ord1);
    lemma_unordered_blocks_multiset(items, ord2);
}

/// Law: the engine is idempotent.  The bytes a run appends to the sink
/// are a function of the inputs and their command outcomes alone, so two
/// runs over identical inputs with identical outcomes append identical
/// bytes; that the diff text itself is such a function is what `diff_of`
/// names.
pub proof fn lemma_idempotent(items1: Seq<ItemOutcome>, items2: Seq<ItemOutcome>)
    requires
        items1 == items2,
    ensures
        payloads_concat(items1.take(first_hard(items1))) == payloads_concat(
            items2.take(first_hard(items2)),
        ),
{
}

/// Every input before the first hard failure is not a hard failure, and
/// the input there (when the run is cut short) is one: what `first_hard`
/// means.
pub proof fn lemma_first_hard_spec(items: Seq<ItemOutcome>)
    ensures
        0 <= first_hard(items) <= items.len(),
        forall|j: int| 0 <= j < first_hard(items) ==> !is_hard(#[trigger] items[j].outcome),
        first_hard(items) < items.len() ==> is_hard(items[first_hard(items)].outcome),
    decreases items.len(),
{
    if items.len() == 0 {
    } else if is_hard(items.first().outcome) {
    } else {
        lemma_first_hard_spec(items.drop_first());
        assert forall|j: int| 0 <= j < first_hard(items) implies !is_hard(
            #[trigger] items[j].outcome,
        ) by {
            if j > 0 {
                assert(items[j] == items.drop_first()[j - 1]);
            }
        }
        if first_hard(items) < items.len() {
            assert(items[first_hard(items)] == items.drop_first()[first_hard(items) - 1]);
        }
    }
}

} // verus!
