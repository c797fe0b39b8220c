//! The sorting strategies. Each is a stateless strategy over one run's
//! instrumented [`Array`] view: it records its display label, starts the run
//! in the deliberate `Paused` state, sorts in place through the instrumented
//! operations only, and hands the result to the verification pass. All but
//! quick sort consult the cooperative checkpoint inside their loops and
//! abandon the run if it signals an interrupt; quick sort's partition has no
//! abandon point and always completes once started.

use vstd::prelude::*;

use crate::array::Array;
use crate::order::{lemma_sorted_iff_adjacent_ordered, ordered_at, sorted};
use crate::state::{checked_mark, scan_comparison, scan_marks, StateModel, Status};

pub mod bubble_sort;
pub mod insertion_sort;
pub mod merge_sort;
pub mod quick_sort;
pub mod selection_sort;

verus! {

/// The common contract of every sorting strategy: on a well-formed run over a
/// non-empty buffer with no stale checked marks, an uninterrupted run leaves
/// the same values rearranged into non-descending order, the run `Completed`
/// by the verification pass, and every index confirmed checked. The
/// instrumentation counters only grow, and a run whose input was not already
/// sorted leaves the last-swapped annotation on a real buffer index.
pub trait Algorithm {
    fn sort(&self, array: &mut Array)
        requires
            old(array).wf(),
            1 <= old(array)@.array.len(),
            old(array)@.checked.len() == 0,
        ensures
            final(array).wf(),
            final(array)@.array.to_multiset() == old(array)@.array.to_multiset(),
            final(array)@.array.len() == old(array)@.array.len(),
            sorted(final(array)@.array),
            final(array)@.status == Status::Completed,
            forall|k: int|
                0 <= k < final(array)@.array.len() ==> #[trigger] final(array)@.checked.contains(
                    k as u32,
                ),
            final(array)@.comparisons >= old(array)@.comparisons,
            final(array)@.array_accesses >= old(array)@.array_accesses,
            !sorted(old(array)@.array)
                ==> final(array)@.last_swapped < final(array)@.array.len(),
        ;
}

/// The common epilogue of a normal (non-interrupted) run: hands the sorted
/// buffer to the verification pass, which confirms every index and finishes
/// the run as `Completed`.
pub(crate) fn finish_run(array: &mut Array)
    requires
        old(array).wf(),
        1 <= old(array)@.array.len(),
        old(array)@.checked.len() == 0,
        sorted(old(array)@.array),
    ensures
        final(array).wf(),
        final(array)@ == (StateModel {
            status: Status::Completed,
            checked: scan_marks(old(array)@.array),
            comparison: scan_comparison(old(array)@.array, old(array)@.comparison),
            ..old(array)@
        }),
        forall|k: int|
            0 <= k < final(array)@.array.len() ==> #[trigger] final(array)@.checked.contains(
                k as u32,
            ),
{
    array.state.check();
    proof {
        lemma_sorted_iff_adjacent_ordered(old(array)@.array);
        assert forall|k: int|
            0 <= k < final(array)@.array.len() implies #[trigger] final(array)@.checked.contains(
            k as u32,
        ) by {
            assert(ordered_at(old(array)@.array, k) || k == old(array)@.array.len() - 1);
            assert(checked_mark(old(array)@.array, k));
        }
    }
}

} // verus!
