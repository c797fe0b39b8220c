//! Merge sort: recursive split at the segment midpoint; the merge step works
//! in place, shifting a run of elements rightward whenever the head of the
//! right half is strictly smaller than the head of the left half, which keeps
//! equal elements stable.

use vstd::prelude::*;

use crate::algorithms::{finish_run, Algorithm};
use crate::array::Array;
use crate::order::{lemma_rotation_preserves_multiset, sorted, sorted_between};
use crate::state::{StateModel, Status};

verus! {

pub struct MergeSort;

impl Algorithm for MergeSort {
    fn sort(&self, array: &mut Array)
        ensures
            final(array)@.algorithm == "Merge Sort"@,
            final(array)@.speed == 75,
            final(array)@.log == old(array)@.log,
    {
        let _ = array.state.set_speed(75);
        array.state.init_algorithm("Merge Sort".to_owned());
        let len = array.len();
        merge_sort_range(array, 0, len - 1);
        proof {
            assert(sorted(array@.array));
            if !sorted(old(array)@.array) {
                assert(array@.array != old(array)@.array);
            }
        }
        finish_run(array);
    }
}

/// Sorts the inclusive segment `[start, end]` in place, touching no element
/// outside it and leaving the run's status, checked marks, speed, label and
/// log alone.
fn merge_sort_range(array: &mut Array, start: usize, end: usize)
    requires
        old(array).wf(),
        start <= end < old(array)@.array.len(),
        old(array)@.status == Status::Paused,
        old(array)@.checked.len() == 0,
    ensures
        final(array).wf(),
        final(array)@ == (StateModel {
            array: final(array)@.array,
            last_swapped: final(array)@.last_swapped,
            comparison: final(array)@.comparison,
            comparisons: final(array)@.comparisons,
            array_accesses: final(array)@.array_accesses,
            ..old(array)@
        }),
        final(array)@.array.len() == old(array)@.array.len(),
        final(array)@.array.to_multiset() == old(array)@.array.to_multiset(),
        forall|k: int|
            0 <= k < old(array)@.array.len() && !(start <= k <= end)
                ==> final(array)@.array[k] == old(array)@.array[k],
        sorted_between(final(array)@.array, start as int, end + 1),
        final(array)@.comparisons >= old(array)@.comparisons,
        final(array)@.array_accesses >= old(array)@.array_accesses,
        (final(array)@.array == old(array)@.array && final(array)@.last_swapped == old(
            array,
        )@.last_swapped) || final(array)@.last_swapped < final(array)@.array.len(),
    decreases end - start,
{
    if start >= end {
        return ;
    }
    let mid = start + (end - start) / 2;
    assert(start <= mid < end);
    merge_sort_range(array, start, mid);
    merge_sort_range(array, mid + 1, end);

    let ghost base = array@;
    let ghost len = array@.array.len() as int;
    let mut left = start;
    let mut m = mid;
    let mut right = mid + 1;
    while left <= m && right <= end
        invariant
            array.wf(),
            array@ == (StateModel {
                array: array@.array,
                last_swapped: array@.last_swapped,
                comparison: array@.comparison,
                comparisons: array@.comparisons,
                array_accesses: array@.array_accesses,
                ..base
            }),
            array@.array.len() == len == base.array.len(),
            array@.status == Status::Paused,
            start <= end < len <= u32::MAX,
            start <= left <= m + 1,
            right == m + 1,
            right <= end + 1,
            array@.array.to_multiset() == base.array.to_multiset(),
            array@.comparisons >= base.comparisons,
            array@.array_accesses >= base.array_accesses,
            (array@.array == base.array && array@.last_swapped == base.last_swapped)
                || array@.last_swapped < len,
            forall|k: int|
                0 <= k < len && !(start <= k <= end) ==> array@.array[k] == base.array[k],
            sorted_between(array@.array, start as int, left as int),
            sorted_between(array@.array, left as int, m + 1),
            sorted_between(array@.array, right as int, end + 1),
            forall|p: int, q: int|
                start <= p < left && left <= q <= end ==> array@.array[p] <= array@.array[q],
        decreases (m + 1 - left) + (end + 1 - right),
    {
        if array.state.pause_point() {
            return ;
        }
        if array.compare(left, right) {
            let moved = array.get(right);
            let ghost before = array@.array;
            let mut idx = right;
            while idx > left
                invariant
                    array.wf(),
                    array@ == (StateModel {
                        array: array@.array,
                        last_swapped: array@.last_swapped,
                        comparison: array@.comparison,
                        comparisons: array@.comparisons,
                        array_accesses: array@.array_accesses,
                        ..base
                    }),
                    array@.array.len() == len,
                    array@.comparisons >= base.comparisons,
                    array@.array_accesses >= base.array_accesses,
                    start <= left <= idx <= right <= end < len <= u32::MAX,
                    moved == before[right as int],
                    forall|k: int| 0 <= k < len && !(idx < k <= right) ==> array@.array[k] == before[k],
                    forall|k: int| idx < k <= right ==> array@.array[k] == before[k - 1],
                decreases idx,
            {
                let shifted = array.get(idx - 1);
                let _ = array.set(idx, shifted);
                idx = idx - 1;
            }
            let _ = array.state.set_last(left as u32);
            let _ = array.set(left, moved);
            proof {
                let a = array@.array;
                assert(a =~= before.remove(right as int).insert(left as int, before[right as int]));
                lemma_rotation_preserves_multiset(before, left as int, right as int);
                assert(before[left as int] > before[right as int]);
                assert forall|p: int, q: int|
                    start <= p < left + 1 && left + 1 <= q <= end implies a[p] <= a[q] by {
                    if p < left {
                        if q <= right {
                            assert(a[q] == before[q - 1]);
                            assert(before[p] <= before[q - 1]);
                        } else {
                            assert(a[q] == before[q]);
                            assert(before[p] <= before[q]);
                        }
                    } else {
                        assert(a[p] == before[right as int]);
                        if q <= m + 1 {
                            assert(a[q] == before[q - 1]);
                            assert(before[left as int] <= before[q - 1]);
                        } else if q <= right {
                            assert(a[q] == before[q - 1]);
                            assert(before[right as int] <= before[q - 1]) by {
                                assert(sorted_between(before, right as int, end + 1));
                            }
                        } else {
                            assert(a[q] == before[q]);
                            assert(before[right as int] <= before[q]);
                        }
                    }
                }
                assert(sorted_between(a, start as int, left + 1));
                assert(sorted_between(a, left + 1, m + 2));
                assert(sorted_between(a, right + 1, end + 1));
            }
            left = left + 1;
            m = m + 1;
            right = right + 1;
        } else {
            proof {
                let a = array@.array;
                assert forall|p: int, q: int|
                    start <= p < left + 1 && left + 1 <= q <= end implies a[p] <= a[q] by {
                    if p == left {
                        if q <= m {
                            assert(sorted_between(a, left as int, m + 1));
                        } else {
                            assert(a[left as int] <= a[right as int]);
                            assert(sorted_between(a, right as int, end + 1));
                        }
                    }
                }
                assert(sorted_between(a, start as int, left + 1));
            }
            left = left + 1;
        }
    }
    proof {
        let a = array@.array;
        assert forall|p: int, q: int| start <= p <= q <= end implies a[p] <= a[q] by {
            if q < left {
                assert(sorted_between(a, start as int, left as int));
            } else if p >= left {
                if left > m {
                    assert(left == right);
                    assert(sorted_between(a, right as int, end + 1));
                } else {
                    assert(right > end && m == end);
                    assert(sorted_between(a, left as int, m + 1));
                }
            }
        }
    }
}

} // verus!
