//! Quick sort: Lomuto-style partition around the segment's last element,
//! scanning left to right and keeping the elements not above the pivot in
//! front, then recursing on both sides of the pivot's final position.
//!
//! This strategy makes no interrupt checkpoint: once started, a run always
//! reaches the verification pass. Pausing stays the runner's blocking
//! concern, as everywhere in the library.

use vstd::prelude::*;

use crate::algorithms::{finish_run, Algorithm};
use crate::array::Array;
use crate::order::{
    lemma_agreeing_frames_share_segment_multiset, lemma_multiset_preserves_lower_bound,
    lemma_multiset_preserves_upper_bound, lemma_swap_preserves_multiset, sorted, sorted_between,
};
use crate::state::{StateModel, Status};

verus! {

pub struct QuickSort;

impl Algorithm for QuickSort {
    fn sort(&self, array: &mut Array)
        ensures
            final(array)@.algorithm == "Quick Sort"@,
            final(array)@.speed == 75,
            final(array)@.log == old(array)@.log,
    {
        let _ = array.state.set_speed(75);
        array.state.init_algorithm("Quick Sort".to_owned());
        let len = array.len();
        quick_sort_range(array, 0, len - 1);
        proof {
            assert(sorted(array@.array));
        }
        finish_run(array);
    }
}

/// Partitions the inclusive segment `[start, end]` around its last element:
/// afterwards the pivot value sits at the returned index, nothing left of it
/// is greater, and everything right of it is not smaller.
fn partition(array: &mut Array, start: usize, end: usize) -> (pivot: usize)
    requires
        old(array).wf(),
        start < end < old(array)@.array.len(),
        old(array)@.status == Status::Paused,
    ensures
        final(array).wf(),
        final(array)@ == (StateModel {
            array: final(array)@.array,
            last_swapped: final(array)@.last_swapped,
            comparison: final(array)@.comparison,
            comparisons: final(array)@.comparisons,
            array_accesses: final(array)@.array_accesses,
            ..old(array)@
        }),
        final(array)@.array.len() == old(array)@.array.len(),
        final(array)@.array.to_multiset() == old(array)@.array.to_multiset(),
        forall|k: int|
            0 <= k < old(array)@.array.len() && !(start <= k <= end)
                ==> final(array)@.array[k] == old(array)@.array[k],
        start <= pivot <= end,
        final(array)@.comparisons >= old(array)@.comparisons,
        final(array)@.array_accesses >= old(array)@.array_accesses,
        final(array)@.last_swapped < final(array)@.array.len(),
        forall|k: int|
            start <= k < pivot ==> final(array)@.array[k] <= final(array)@.array[pivot as int],
        forall|k: int|
            pivot < k <= end ==> final(array)@.array[k] >= final(array)@.array[pivot as int],
{
    let ghost base = array@;
    let ghost len = array@.array.len() as int;
    let mut store = start;
    let mut i = start;
    while i < end
        invariant
            array.wf(),
            array@ == (StateModel {
                array: array@.array,
                last_swapped: array@.last_swapped,
                comparison: array@.comparison,
                comparisons: array@.comparisons,
                array_accesses: array@.array_accesses,
                ..base
            }),
            array@.array.len() == len == base.array.len(),
            start < end < len <= u32::MAX,
            start <= store <= i <= end,
            array@.array.to_multiset() == base.array.to_multiset(),
            array@.comparisons >= base.comparisons,
            array@.array_accesses >= base.array_accesses,
            forall|k: int|
                0 <= k < len && !(start <= k <= end) ==> array@.array[k] == base.array[k],
            array@.array[end as int] == base.array[end as int],
            forall|k: int|
                start <= k < store ==> array@.array[k] <= array@.array[end as int],
            forall|k: int| store <= k < i ==> array@.array[k] > array@.array[end as int],
        decreases end - i,
    {
        if !array.compare(i, end) {
            if i != store {
                let _ = array.state.set_last(store as u32);
                let ghost before = array@.array;
                array.swap(i, store);
                proof {
                    lemma_swap_preserves_multiset(before, i as int, store as int);
                }
            }
            store = store + 1;
        }
        i = i + 1;
    }
    let _ = array.state.set_last(store as u32);
    let ghost before = array@.array;
    array.swap(store, end);
    proof {
        lemma_swap_preserves_multiset(before, store as int, end as int);
    }
    store
}

/// Sorts the inclusive segment `[start, end]` in place, touching no element
/// outside it and leaving the run's status, checked marks, speed, label and
/// log alone.
fn quick_sort_range(array: &mut Array, start: usize, end: usize)
    requires
        old(array).wf(),
        start <= end < old(array)@.array.len(),
        old(array)@.status == Status::Paused,
    ensures
        final(array).wf(),
        final(array)@ == (StateModel {
            array: final(array)@.array,
            last_swapped: final(array)@.last_swapped,
            comparison: final(array)@.comparison,
            comparisons: final(array)@.comparisons,
            array_accesses: final(array)@.array_accesses,
            ..old(array)@
        }),
        final(array)@.array.len() == old(array)@.array.len(),
        final(array)@.array.to_multiset() == old(array)@.array.to_multiset(),
        forall|k: int|
            0 <= k < old(array)@.array.len() && !(start <= k <= end)
                ==> final(array)@.array[k] == old(array)@.array[k],
        sorted_between(final(array)@.array, start as int, end + 1),
        final(array)@.comparisons >= old(array)@.comparisons,
        final(array)@.array_accesses >= old(array)@.array_accesses,
        (final(array)@.array == old(array)@.array && final(array)@.last_swapped == old(
            array,
        )@.last_swapped) || final(array)@.last_swapped < final(array)@.array.len(),
        start < end ==> final(array)@.last_swapped < final(array)@.array.len(),
    decreases end - start,
{
    if end > start {
        let ghost len = array@.array.len() as int;
        let p = partition(array, start, end);
        let ghost after_part = array@.array;
        let ghost pivot_val = after_part[p as int];
        if p > start {
            quick_sort_range(array, start, p - 1);
            proof {
                lemma_agreeing_frames_share_segment_multiset(
                    after_part,
                    array@.array,
                    start as int,
                    p as int,
                );
                assert forall|k: int|
                    #![trigger after_part.subrange(start as int, p as int)[k]]
                    0 <= k < after_part.subrange(start as int, p as int).len()
                        implies after_part.subrange(start as int, p as int)[k] <= pivot_val by {
                    assert(after_part[start + k] <= pivot_val);
                }
                lemma_multiset_preserves_upper_bound(
                    after_part.subrange(start as int, p as int),
                    array@.array.subrange(start as int, p as int),
                    pivot_val,
                );
            }
        }
        let ghost after_left = array@.array;
        assert(after_left[p as int] == pivot_val);
        assert forall|k: int| start <= k < p implies after_left[k] <= pivot_val by {
            assert(after_left.subrange(start as int, p as int)[k - start] == after_left[k]);
            assert(after_left.subrange(start as int, p as int)[k - start] <= pivot_val);
        }
        if p < end {
            quick_sort_range(array, p + 1, end);
            proof {
                lemma_agreeing_frames_share_segment_multiset(
                    after_left,
                    array@.array,
                    p + 1,
                    end + 1,
                );
                assert forall|k: int|
                    #![trigger after_left.subrange(p + 1, end + 1)[k]]
                    0 <= k < after_left.subrange(p + 1, end + 1).len()
                        implies after_left.subrange(p + 1, end + 1)[k] >= pivot_val by {
                    assert(after_left[p + 1 + k] >= pivot_val);
                }
                lemma_multiset_preserves_lower_bound(
                    after_left.subrange(p + 1, end + 1),
                    array@.array.subrange(p + 1, end + 1),
                    pivot_val,
                );
            }
        }
        proof {
            let a = array@.array;
            assert(a[p as int] == pivot_val);
            assert forall|k: int| start <= k < p implies a[k] <= pivot_val by {
                assert(a[k] == after_left[k]);
            }
            assert forall|k: int| p < k <= end implies a[k] >= pivot_val by {
                if p < end {
                    assert(a.subrange(p + 1, end + 1)[k - (p + 1)] == a[k]);
                }
            }
            assert forall|p2: int, q2: int| start <= p2 <= q2 <= end implies a[p2] <= a[q2] by {
                if q2 < p {
                    assert(sorted_between(a, start as int, p as int));
                    assert(a[p2] == after_left[p2] && a[q2] == after_left[q2]);
                    assert(sorted_between(after_left, start as int, (p - 1) + 1));
                } else if p2 > p {
                    assert(sorted_between(a, p + 1, end + 1));
                } else {
                    assert(a[p2] <= pivot_val || p2 == p);
                    assert(a[q2] >= pivot_val || q2 == p);
                }
            }
        }
    }
}

} // verus!
