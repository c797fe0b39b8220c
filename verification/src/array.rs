//! The instrumented array view: the only way an algorithm touches the buffer
//! under sort. Every read, write, comparison and swap updates the shared
//! counters and annotations, so the renderer gets accurate live statistics
//! without any bookkeeping inside the algorithms themselves.

use vstd::prelude::*;

use crate::order::swapped;
use crate::state::{sat_add_u32, SharedState, StateModel};

verus! {

/// Wraps one run's [`SharedState`] for algorithm use. The worker thread holds
/// the view for the run's lifetime; the `state` field is the same shared
/// container the renderer snapshots.
pub struct Array {
    pub state: SharedState,
}

impl View for Array {
    type V = StateModel;

    open spec fn view(&self) -> StateModel {
        self.state@
    }
}

impl Array {
    pub open spec fn wf(&self) -> bool {
        self@.wf()
    }

    pub fn new(state: SharedState) -> (array: Array)
        ensures
            array@ == state@,
    {
        Array { state }
    }

    /// Reads `buffer[index]`, recording one array access.
    pub fn get(&mut self, index: usize) -> (value: u32)
        requires
            index < old(self)@.array.len(),
        ensures
            value == old(self)@.array[index as int],
            final(self)@ == (StateModel {
                array_accesses: sat_add_u32(old(self)@.array_accesses, 1),
                ..old(self)@
            }),
    {
        let _ = self.state.increment_accesses(1);
        self.state.buffer_get(index)
    }

    /// A copy of the whole buffer, with no access recorded.
    pub fn get_all(&self) -> (values: Vec<u32>)
        ensures
            values@ == self@.array,
    {
        let snapshot = self.state.get();
        snapshot.array
    }

    /// Writes `buffer[index] = value`, recording one array access.
    pub fn set(&mut self, index: usize, value: u32) -> (result: u32)
        requires
            index < old(self)@.array.len(),
        ensures
            result == value,
            final(self)@ == (StateModel {
                array: old(self)@.array.update(index as int, value),
                array_accesses: sat_add_u32(old(self)@.array_accesses, 1),
                ..old(self)@
            }),
    {
        let _ = self.state.increment_accesses(1);
        self.state.buffer_set(index, value);
        value
    }

    /// The buffer's length, fixed for the view's lifetime.
    pub fn len(&self) -> (length: usize)
        ensures
            length == self@.array.len(),
    {
        self.state.buffer_len()
    }

    /// Whether `buffer[index1] > buffer[index2]`, recording one comparison,
    /// the compared pair, and the two reads' accesses.
    pub fn compare(&mut self, index1: usize, index2: usize) -> (greater: bool)
        requires
            old(self).wf(),
            index1 < old(self)@.array.len(),
            index2 < old(self)@.array.len(),
        ensures
            greater == (old(self)@.array[index1 as int] > old(self)@.array[index2 as int]),
            final(self)@ == (StateModel {
                comparisons: sat_add_u32(old(self)@.comparisons, 1),
                comparison: seq![index1 as u32, index2 as u32],
                array_accesses: sat_add_u32(old(self)@.array_accesses, 2),
                ..old(self)@
            }),
            final(self).wf(),
    {
        let _ = self.state.increment_comparisons();
        let _ = self.state.set_comparison([index1 as u32, index2 as u32]);
        let first = self.get(index1);
        let second = self.get(index2);
        proof {
            assert(self@.comparison =~= seq![index1 as u32, index2 as u32]);
            assert(sat_add_u32(sat_add_u32(old(self)@.array_accesses, 1), 1) == sat_add_u32(
                old(self)@.array_accesses,
                2,
            ));
        }
        first > second
    }

    /// Exchanges `buffer[index1]` and `buffer[index2]`, recording the four
    /// accesses of the two reads and two writes.
    pub fn swap(&mut self, index1: usize, index2: usize)
        requires
            index1 < old(self)@.array.len(),
            index2 < old(self)@.array.len(),
        ensures
            final(self)@ == (StateModel {
                array: swapped(old(self)@.array, index1 as int, index2 as int),
                array_accesses: sat_add_u32(old(self)@.array_accesses, 4),
                ..old(self)@
            }),
    {
        self.state.buffer_swap(index1, index2);
        let _ = self.state.increment_accesses(4);
    }
}

} // verus!
