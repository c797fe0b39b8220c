//! Selection sort: for each position, scans the remaining suffix for the
//! index of the current minimum (first occurrence wins ties) and swaps it
//! into place.

use vstd::prelude::*;

use crate::algorithms::{finish_run, Algorithm};
use crate::array::Array;
use crate::order::{lemma_swap_preserves_multiset, sorted, sorted_between};

verus! {

use crate::state::Status;

pub struct SelectionSort;

impl Algorithm for SelectionSort {
    fn sort(&self, array: &mut Array)
        ensures
            final(array)@.algorithm == "Selection Sort"@,
            final(array)@.speed == old(array)@.speed,
            final(array)@.log == old(array)@.log,
    {
        array.state.init_algorithm("Selection Sort".to_owned());
        let len = array.len();
        let ghost orig = array@.array;
        let mut i: usize = 0;
        while i < len - 1
            invariant
                array.wf(),
                array@.array.len() == len == orig.len(),
                1 <= len <= u32::MAX,
                array@.status == Status::Paused,
                array@.checked.len() == 0,
                array@.algorithm == "Selection Sort"@,
                array@.speed == old(array)@.speed,
                array@.log == old(array)@.log,
                array@.array.to_multiset() == orig.to_multiset(),
                array@.comparisons >= old(array)@.comparisons,
                array@.array_accesses >= old(array)@.array_accesses,
                (array@.array == orig && array@.last_swapped == old(array)@.last_swapped)
                    || array@.last_swapped < len,
                i <= len - 1,
                sorted_between(array@.array, 0, i as int),
                forall|p: int, q: int|
                    0 <= p < i <= q < len ==> array@.array[p] <= array@.array[q],
            decreases len - 1 - i,
        {
            let mut min_index = i;
            let mut j = i + 1;
            let ghost fixed = array@.array;
            while j < len
                invariant
                    array.wf(),
                    array@.array.len() == len,
                    1 <= len <= u32::MAX,
                    array@.status == Status::Paused,
                    array@.checked.len() == 0,
                    array@.algorithm == "Selection Sort"@,
                    array@.speed == old(array)@.speed,
                    array@.log == old(array)@.log,
                    array@.comparisons >= old(array)@.comparisons,
                    array@.array_accesses >= old(array)@.array_accesses,
                    (array@.array == orig && array@.last_swapped == old(array)@.last_swapped)
                        || array@.last_swapped < len,
                    array@.array == fixed,
                    i < len,
                    i <= min_index < j <= len,
                    forall|k: int|
                        i <= k < j ==> array@.array[min_index as int] <= array@.array[k],
                decreases len - j,
            {
                if array.state.pause_point() {
                    return;
                }
                if array.compare(min_index, j) {
                    min_index = j;
                }
                j = j + 1;
            }
            if i != min_index {
                let _ = array.state.set_last(i as u32);
                let ghost before = array@.array;
                array.swap(i, min_index);
                proof {
                    lemma_swap_preserves_multiset(before, i as int, min_index as int);
                }
            }
            i = i + 1;
        }
        proof {
            assert(sorted(array@.array));
            if !sorted(orig) {
                assert(array@.array != orig);
            }
        }
        finish_run(array);
    }
}

} // verus!
