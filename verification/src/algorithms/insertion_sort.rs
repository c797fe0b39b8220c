//! Insertion sort: for each index from 1 upward, shifts the element left by
//! adjacent swaps while it is strictly smaller than its left neighbor.

use vstd::prelude::*;

use crate::algorithms::{finish_run, Algorithm};
use crate::array::Array;
use crate::order::{lemma_swap_preserves_multiset, sorted, sorted_between};

verus! {

use crate::state::Status;

pub struct InsertionSort;

impl Algorithm for InsertionSort {
    fn sort(&self, array: &mut Array)
        ensures
            final(array)@.algorithm == "Insertion Sort"@,
            final(array)@.speed == old(array)@.speed,
            final(array)@.log == old(array)@.log,
    {
        array.state.init_algorithm("Insertion Sort".to_owned());
        let len = array.len();
        let ghost orig = array@.array;
        let mut i: usize = 1;
        while i < len
            invariant
                array.wf(),
                array@.array.len() == len == orig.len(),
                1 <= len <= u32::MAX,
                array@.status == Status::Paused,
                array@.checked.len() == 0,
                array@.algorithm == "Insertion Sort"@,
                array@.speed == old(array)@.speed,
                array@.log == old(array)@.log,
                array@.array.to_multiset() == orig.to_multiset(),
                array@.comparisons >= old(array)@.comparisons,
                array@.array_accesses >= old(array)@.array_accesses,
                (array@.array == orig && array@.last_swapped == old(array)@.last_swapped)
                    || array@.last_swapped < len,
                1 <= i,
                sorted_between(array@.array, 0, i as int),
            decreases len - i,
        {
            if array.state.pause_point() {
                return;
            }
            let mut left = i;
            loop
                invariant_except_break
                    array.wf(),
                    array@.array.len() == len == orig.len(),
                    1 <= len <= u32::MAX,
                    array@.status == Status::Paused,
                    array@.checked.len() == 0,
                    array@.algorithm == "Insertion Sort"@,
                    array@.speed == old(array)@.speed,
                    array@.log == old(array)@.log,
                    array@.array.to_multiset() == orig.to_multiset(),
                    array@.comparisons >= old(array)@.comparisons,
                    array@.array_accesses >= old(array)@.array_accesses,
                    (array@.array == orig && array@.last_swapped == old(array)@.last_swapped)
                        || array@.last_swapped < len,
                    i < len,
                    left <= i,
                    sorted_between(array@.array, 0, left as int),
                    forall|p: int, q: int|
                        left <= p <= q <= i ==> array@.array[p] <= array@.array[q],
                    forall|p: int, q: int|
                        0 <= p < left && left < q <= i ==> array@.array[p] <= array@.array[q],
                ensures
                    array.wf(),
                    array@.array.len() == len == orig.len(),
                    array@.status == Status::Paused,
                    array@.checked.len() == 0,
                    array@.algorithm == "Insertion Sort"@,
                    array@.speed == old(array)@.speed,
                    array@.log == old(array)@.log,
                    array@.array.to_multiset() == orig.to_multiset(),
                    array@.comparisons >= old(array)@.comparisons,
                    array@.array_accesses >= old(array)@.array_accesses,
                    (array@.array == orig && array@.last_swapped == old(array)@.last_swapped)
                        || array@.last_swapped < len,
                    i < len,
                    sorted_between(array@.array, 0, i + 1),
                decreases left,
            {
                if left == 0 {
                    break;
                }
                if !array.compare(left - 1, left) {
                    break;
                }
                if array.state.pause_point() {
                    return;
                }
                let _ = array.state.set_last(left as u32);
                let ghost before = array@.array;
                array.swap(left - 1, left);
                proof {
                    lemma_swap_preserves_multiset(before, left - 1, left as int);
                }
                left = left - 1;
            }
            i = i + 1;
        }
        proof {
            assert(sorted(array@.array));
            if !sorted(orig) {
                assert(array@.array != orig);
            }
        }
        finish_run(array);
    }
}

} // verus!
