//! A verified core for a terminal sorting visualizer: a shared run-state
//! container, an instrumented array view that counts every access and
//! comparison, five in-place comparison sorts driven through that view, and a
//! verification pass that confirms the result is in non-descending order.
//!
//! The container models the data that one run's worker thread and renderer
//! share. Blocking is deliberately outside the library: a runner around it
//! owns any lock, thread parking for pausing, and pacing sleeps, taking the
//! delay from [`state::SharedState::delay_ms`] and the abandon signal from
//! [`state::SharedState::pause_point`].

use vstd::prelude::*;

pub mod algorithms;
pub mod array;
pub mod events;
pub mod order;
pub mod state;

verus! {

/// The sequential array provider: fifty values in strictly descending order,
/// `50, 49, ..., 1`.
pub fn generate_array() -> (arr: Vec<u32>)
    ensures
        arr@.len() == 50,
        forall|i: int| 0 <= i < 50 ==> arr@[i] == 50 - i,
{
    let mut arr: Vec<u32> = Vec::new();
    let mut i: u32 = 0;
    while i < 50
        invariant
            i <= 50,
            arr@.len() == i,
            forall|k: int| 0 <= k < i ==> arr@[k] == 50 - k,
        decreases 50 - i,
    {
        arr.push(50 - i);
        i = i + 1;
    }
    arr
}

} // verus!
