//! Plain progress-reporting values a worker can hand to the renderer over a
//! channel, as an alternative to polling snapshots.

use vstd::prelude::*;

verus! {

/// One progress report from a running algorithm: its display name, the
/// buffer as of the report, how many loop iterations have run, and the
/// moment the run began, as milliseconds on the runner's clock.
pub struct ProgressEvent {
    pub name: String,
    pub array: Vec<u32>,
    pub iterations: u32,
    pub start: u64,
}

/// A request delivered to a running algorithm worker.
pub enum AlgorithmEvent {
    Pause,
}

} // verus!
