//! The shared run state: the buffer under sort, run status, instrumentation
//! counters, visualization annotations, and pacing speed.
//!
//! One run owns one `SharedState`. In the running program the worker thread
//! and the renderer share it behind a lock owned by the unverified runner;
//! every operation here is a single critical section's worth of work, so the
//! contracts describe exactly what one synchronized call does. Blocking —
//! parking a paused worker and the pacing sleep — belongs to the runner, which
//! decides how long to sleep from [`SharedState::delay_ms`] and parks when a
//! checkpoint observes `Paused`.

use vstd::prelude::*;

use crate::order::{lemma_sorted_iff_adjacent_ordered, ordered_at, sorted};

verus! {

/// The run status state machine: `Paused` and `Running` alternate while the
/// worker makes progress, the verification pass moves through `Checking` to
/// the terminal `Completed` or `Failed`, and `Interrupted` tells a superseded
/// worker to abandon its run at the next checkpoint.
#[derive(Clone, Copy, Debug, PartialEq, Eq, Structural)]
pub enum Status {
    Running,
    Completed,
    Paused,
    Interrupted,
    Checking,
    Failed,
}

/// The mathematical model of one run's state: what a consistent snapshot
/// holds, with the buffer and annotation lists abstracted to sequences.
pub struct StateModel {
    pub array: Seq<u32>,
    pub last_swapped: u32,
    pub comparison: Seq<u32>,
    pub checked: Seq<u32>,
    pub comparisons: u32,
    pub array_accesses: u32,
    pub status: Status,
    pub algorithm: Seq<char>,
    pub log: Option<Seq<char>>,
    pub speed: u32,
}

/// `a + b` capped at `u32::MAX`: the counters never wrap and never panic.
pub open spec fn sat_add_u32(a: u32, b: u32) -> u32 {
    if a + b <= u32::MAX {
        (a + b) as u32
    } else {
        u32::MAX
    }
}

/// The index the verification pass marks checked when it scans a buffer `s`:
/// every adjacent pair in non-descending order, and always the final index.
pub open spec fn checked_mark(s: Seq<u32>, k: int) -> bool {
    k == s.len() - 1 || (0 <= k < s.len() - 1 && ordered_at(s, k))
}

/// The checked marks the verification pass has produced after scanning the
/// adjacent pairs `(0,1) .. (i-1,i)`: each index whose pair was in order, in
/// ascending order.
pub open spec fn scan_marks_upto(s: Seq<u32>, i: int) -> Seq<u32>
    decreases i,
{
    if i <= 0 {
        Seq::<u32>::empty()
    } else if ordered_at(s, i - 1) {
        scan_marks_upto(s, i - 1).push((i - 1) as u32)
    } else {
        scan_marks_upto(s, i - 1)
    }
}

/// The checked marks after a full verification pass over `s`: the in-order
/// pair indices, then the final index, which is always marked.
pub open spec fn scan_marks(s: Seq<u32>) -> Seq<u32> {
    scan_marks_upto(s, s.len() - 1).push((s.len() - 1) as u32)
}

/// The compared-pair annotation after the pass has scanned pairs up to `i`:
/// the most recent in-order pair, or the initial value if there was none.
pub open spec fn scan_comparison_upto(s: Seq<u32>, i: int, initial: Seq<u32>) -> Seq<u32>
    decreases i,
{
    if i <= 0 {
        initial
    } else if ordered_at(s, i - 1) {
        seq![(i - 1) as u32, i as u32]
    } else {
        scan_comparison_upto(s, i - 1, initial)
    }
}

/// The compared-pair annotation after a full verification pass over `s`.
pub open spec fn scan_comparison(s: Seq<u32>, initial: Seq<u32>) -> Seq<u32> {
    scan_comparison_upto(s, s.len() - 1, initial)
}

/// What one partial scan has marked: exactly the in-order pair indices below
/// `i`, each once, in ascending order, and all of them only when every pair
/// so far was in order.
proof fn lemma_scan_marks_upto_props(s: Seq<u32>, i: int)
    requires
        0 <= i <= s.len() <= u32::MAX,
    ensures
        forall|j: int|
            0 <= j < scan_marks_upto(s, i).len() ==> (#[trigger] scan_marks_upto(s, i)[j]) < i,
        forall|p: int, q: int|
            0 <= p < q < scan_marks_upto(s, i).len() ==> scan_marks_upto(s, i)[p]
                < scan_marks_upto(s, i)[q],
        forall|x: u32|
            scan_marks_upto(s, i).contains(x) <==> ((x as int) < i && ordered_at(s, x as int)),
        scan_marks_upto(s, i).len() <= i,
        scan_marks_upto(s, i).len() == i <==> (forall|k: int| 0 <= k < i ==> ordered_at(s, k)),
    decreases i,
{
    if i > 0 {
        lemma_scan_marks_upto_props(s, i - 1);
        let prev = scan_marks_upto(s, i - 1);
        if ordered_at(s, i - 1) {
            assert forall|x: u32|
                scan_marks_upto(s, i).contains(x) <==> ((x as int) < i && ordered_at(
                    s,
                    x as int,
                )) by {
                lemma_push_contains(prev, (i - 1) as u32, x);
            }
        } else {
            assert(scan_marks_upto(s, i) == prev);
            assert forall|x: u32|
                scan_marks_upto(s, i).contains(x) <==> ((x as int) < i && ordered_at(
                    s,
                    x as int,
                )) by {}
            assert(prev.len() < i) by {
                if prev.len() == i - 1 {
                    assert(!ordered_at(s, i - 1));
                }
            }
        }
    }
}

/// What a full verification pass marks: exactly the indices of
/// [`checked_mark`], and all of them exactly when the buffer is sorted.
pub proof fn lemma_scan_marks_membership(s: Seq<u32>)
    requires
        1 <= s.len() <= u32::MAX,
    ensures
        forall|k: int| 0 <= k < s.len() ==> (scan_marks(s).contains(k as u32) <==> checked_mark(s, k)),
        scan_marks(s).len() == s.len() <==> sorted(s),
{
    let n = s.len() as int;
    lemma_scan_marks_upto_props(s, n - 1);
    lemma_sorted_iff_adjacent_ordered(s);
    assert forall|k: int| 0 <= k < n implies (scan_marks(s).contains(k as u32) <==> checked_mark(
        s,
        k,
    )) by {
        lemma_push_contains(scan_marks_upto(s, n - 1), (n - 1) as u32, k as u32);
    }
}

/// On a buffer that is not sorted, the first out-of-order index is not
/// marked, every index before it is, and the final index is.
pub proof fn lemma_first_violation_unchecked(s: Seq<u32>, v: int)
    requires
        s.len() <= u32::MAX,
        0 <= v < s.len() - 1,
        !ordered_at(s, v),
        forall|k: int| 0 <= k < v ==> ordered_at(s, k),
    ensures
        !scan_marks(s).contains(v as u32),
        forall|k: int| 0 <= k < v ==> #[trigger] scan_marks(s).contains(k as u32),
        scan_marks(s).contains((s.len() - 1) as u32),
{
    lemma_scan_marks_membership(s);
    assert(!checked_mark(s, v));
    assert forall|k: int| 0 <= k < v implies #[trigger] scan_marks(s).contains(k as u32) by {
        assert(ordered_at(s, k));
        assert(checked_mark(s, k));
    }
    assert(checked_mark(s, s.len() - 1));
}

impl StateModel {
    /// Well-formedness: the speed stays a multiple of five in `[5, 100]`, the
    /// buffer is indexable by the `u32` annotation fields, the compared pair
    /// is a pair, and the checked marks are distinct in-range indices.
    pub open spec fn wf(self) -> bool {
        &&& 5 <= self.speed <= 100
        &&& self.speed % 5 == 0
        &&& self.array.len() <= u32::MAX
        &&& self.comparison.len() == 2
        &&& forall|k: int| 0 <= k < self.checked.len() ==> (#[trigger] self.checked[k]) < self.array.len()
        &&& forall|p: int, q: int|
            0 <= p < q < self.checked.len() ==> self.checked[p] != self.checked[q]
    }
}

/// One run's state as the renderer receives it: a plain snapshot of every
/// field.
pub struct State {
    pub array: Vec<u32>,
    pub last_swapped: u32,
    pub comparison: [u32; 2],
    pub checked: Vec<u32>,
    pub comparisons: u32,
    pub array_accesses: u32,
    pub status: Status,
    pub algorithm: String,
    pub log: Option<String>,
    pub speed: u32,
}

impl View for State {
    type V = StateModel;

    open spec fn view(&self) -> StateModel {
        StateModel {
            array: self.array@,
            last_swapped: self.last_swapped,
            comparison: self.comparison@,
            checked: self.checked@,
            comparisons: self.comparisons,
            array_accesses: self.array_accesses,
            status: self.status,
            algorithm: self.algorithm@,
            log: match self.log {
                Some(ref text) => Some(text@),
                None => None,
            },
            speed: self.speed,
        }
    }
}

impl State {
    pub open spec fn wf(&self) -> bool {
        self@.wf()
    }

    /// A fresh run: the provided buffer, zeroed counters, sentinel
    /// annotations, full speed, and the deliberate "ready, not yet running"
    /// `Paused` status.
    pub fn new(array: Vec<u32>) -> (state: State)
        requires
            array@.len() <= u32::MAX,
        ensures
            state@ == (StateModel {
                array: array@,
                last_swapped: 999,
                comparison: seq![999u32, 999u32],
                checked: Seq::<u32>::empty(),
                comparisons: 0,
                array_accesses: 0,
                status: Status::Paused,
                algorithm: "None"@,
                log: None,
                speed: 100,
            }),
            state.wf(),
    {
        let state = State {
            array,
            array_accesses: 0,
            comparisons: 0,
            last_swapped: 999,
            checked: Vec::new(),
            comparison: [999, 999],
            status: Status::Paused,
            algorithm: "None".to_owned(),
            log: None,
            speed: 100,
        };
        proof {
            assert(state.comparison@ =~= seq![999u32, 999u32]);
            assert(state.checked@ =~= Seq::<u32>::empty());
            assert(state@ =~= (StateModel {
                array: state.array@,
                last_swapped: 999,
                comparison: seq![999u32, 999u32],
                checked: Seq::<u32>::empty(),
                comparisons: 0,
                array_accesses: 0,
                status: Status::Paused,
                algorithm: "None"@,
                log: None,
                speed: 100,
            }));
        }
        state
    }
}

/// Copies a buffer of plain values element by element, so snapshots share
/// nothing with the live state.
fn copy_values(values: &Vec<u32>) -> (copy: Vec<u32>)
    ensures
        copy@ == values@,
{
    let mut copy: Vec<u32> = Vec::new();
    let mut i: usize = 0;
    while i < values.len()
        invariant
            i <= values@.len(),
            copy@ =~= values@.subrange(0, i as int),
        decreases values@.len() - i,
    {
        copy.push(values[i]);
        i = i + 1;
    }
    proof {
        assert(copy@ =~= values@);
    }
    copy
}

/// Membership in a sequence extended by one element.
proof fn lemma_push_contains(s: Seq<u32>, v: u32, x: u32)
    ensures
        s.push(v).contains(x) <==> (s.contains(x) || x == v),
{
    if s.push(v).contains(x) {
        let idx = choose|idx: int| 0 <= idx < s.push(v).len() && s.push(v)[idx] == x;
        if idx < s.len() {
            assert(s[idx] == x);
        }
    }
    if s.contains(x) {
        let idx = choose|idx: int| 0 <= idx < s.len() && s[idx] == x;
        assert(s.push(v)[idx] == x);
    }
    if x == v {
        assert(s.push(v)[s.len() as int] == v);
    }
}

/// Snapshot idempotence: a snapshot is a function of the shared state alone,
/// so two snapshots taken with no mutation in between hold identical values.
pub proof fn lemma_snapshot_idempotent(shared: SharedState, first: State, second: State)
    requires
        first@ == shared@,
        second@ == shared@,
    ensures
        first@ == second@,
{
}

/// The synchronized owner of one run's [`State`]. Its methods are the only
/// way the worker, the renderer and the input dispatcher touch the run.
pub struct SharedState {
    state: State,
}

impl View for SharedState {
    type V = StateModel;

    closed spec fn view(&self) -> StateModel {
        self.state@
    }
}

impl SharedState {
    pub open spec fn wf(&self) -> bool {
        self@.wf()
    }

    pub fn new(state: State) -> (shared: SharedState)
        ensures
            shared@ == state@,
    {
        SharedState { state }
    }

    /// A consistent snapshot of every field for rendering. The snapshot is a
    /// function of the state alone: two calls with no mutation in between
    /// return identical values.
    pub fn get(&self) -> (snapshot: State)
        ensures
            snapshot@ == self@,
    {
        let snapshot = State {
            array: copy_values(&self.state.array),
            last_swapped: self.state.last_swapped,
            comparison: self.state.comparison,
            checked: copy_values(&self.state.checked),
            comparisons: self.state.comparisons,
            array_accesses: self.state.array_accesses,
            status: self.state.status,
            algorithm: self.state.algorithm.clone(),
            log: match &self.state.log {
                Some(text) => Some(text.clone()),
                None => None,
            },
            speed: self.state.speed,
        };
        proof {
            assert(snapshot.comparison@ =~= self.state.comparison@);
            assert(snapshot@ =~= self@);
        }
        snapshot
    }

    /// Replaces the buffer for a new run; every other field, the checked
    /// marks included, is kept. Callers keep any existing marks inside the
    /// new buffer's bounds.
    pub fn reset_array(&mut self, array: Vec<u32>)
        requires
            old(self).wf(),
            array@.len() <= u32::MAX,
            forall|k: int|
                0 <= k < old(self)@.checked.len() ==> (#[trigger] old(self)@.checked[k])
                    < array@.len(),
        ensures
            final(self)@ == (StateModel { array: array@, ..old(self)@ }),
            final(self).wf(),
    {
        self.state.array = array;
    }

    pub fn get_speed(&self) -> (speed: u32)
        ensures
            speed == self@.speed,
    {
        self.state.speed
    }

    /// One speed step up: exactly `+5`, except a no-op at the upper clamp.
    pub fn increment_speed(&mut self) -> (speed: u32)
        requires
            old(self).wf(),
        ensures
            final(self)@ == (StateModel { speed: final(self)@.speed, ..old(self)@ }),
            final(self)@.speed == if old(self)@.speed < 100 {
                old(self)@.speed + 5
            } else {
                old(self)@.speed as int
            },
            speed == final(self)@.speed,
            final(self).wf(),
    {
        if self.state.speed < 100 {
            self.state.speed = self.state.speed + 5;
        }
        self.state.speed
    }

    /// Sets the pacing speed outright; callers keep it a clamp-respecting
    /// multiple of five.
    pub fn set_speed(&mut self, value: u32) -> (speed: u32)
        requires
            old(self).wf(),
            5 <= value <= 100,
            value % 5 == 0,
        ensures
            final(self)@ == (StateModel { speed: value, ..old(self)@ }),
            speed == value,
            final(self).wf(),
    {
        self.state.speed = value;
        self.state.speed
    }

    /// One speed step down: exactly `-5`, except a no-op at the lower clamp.
    pub fn decrement_speed(&mut self) -> (speed: u32)
        requires
            old(self).wf(),
        ensures
            final(self)@ == (StateModel { speed: final(self)@.speed, ..old(self)@ }),
            final(self)@.speed == if old(self)@.speed > 5 {
                old(self)@.speed - 5
            } else {
                old(self)@.speed as int
            },
            speed == final(self)@.speed,
            final(self).wf(),
    {
        if self.state.speed > 5 {
            self.state.speed = self.state.speed - 5;
        }
        self.state.speed
    }

    /// The pacing delay the runner sleeps per step: `101 - speed`
    /// milliseconds, which the speed clamp keeps in `[1, 96]` — never zero,
    /// never negative.
    pub fn delay_ms(&self) -> (delay: u64)
        requires
            self.wf(),
        ensures
            delay == 101 - self@.speed,
            1 <= delay <= 96,
    {
        (101 - self.state.speed) as u64
    }

    pub fn get_last(&self) -> (index: u32)
        ensures
            index == self@.last_swapped,
    {
        self.state.last_swapped
    }

    pub fn set_last(&mut self, index: u32) -> (result: u32)
        ensures
            final(self)@ == (StateModel { last_swapped: index, ..old(self)@ }),
            result == index,
    {
        self.state.last_swapped = index;
        index
    }

    pub fn get_checked(&self) -> (checked: Vec<u32>)
        ensures
            checked@ == self@.checked,
    {
        copy_values(&self.state.checked)
    }

    /// Marks one more index as confirmed by the verification pass; a mark is
    /// in range and never repeated.
    pub fn set_checked(&mut self, index: u32) -> (result: u32)
        requires
            old(self).wf(),
            index < old(self)@.array.len(),
            !old(self)@.checked.contains(index),
        ensures
            final(self)@ == (StateModel { checked: old(self)@.checked.push(index), ..old(self)@ }),
            result == index,
            final(self).wf(),
    {
        self.state.checked.push(index);
        index
    }

    pub fn get_comparison(&self) -> (pair: [u32; 2])
        ensures
            pair@ == self@.comparison,
    {
        self.state.comparison
    }

    pub fn set_comparison(&mut self, indexes: [u32; 2]) -> (result: [u32; 2])
        ensures
            final(self)@ == (StateModel { comparison: indexes@, ..old(self)@ }),
            result@ == indexes@,
    {
        self.state.comparison = indexes;
        indexes
    }

    pub fn get_accesses(&self) -> (accesses: u32)
        ensures
            accesses == self@.array_accesses,
    {
        self.state.array_accesses
    }

    /// Counts `value` more array accesses, saturating so the counter is
    /// monotone and panic-free; returns the updated counter.
    pub fn increment_accesses(&mut self, value: u32) -> (accesses: u32)
        ensures
            final(self)@ == (StateModel {
                array_accesses: sat_add_u32(old(self)@.array_accesses, value),
                ..old(self)@
            }),
            accesses == final(self)@.array_accesses,
    {
        if self.state.array_accesses <= u32::MAX - value {
            self.state.array_accesses = self.state.array_accesses + value;
        } else {
            self.state.array_accesses = u32::MAX;
        }
        self.state.array_accesses
    }

    pub fn get_comparisons(&self) -> (comparisons: u32)
        ensures
            comparisons == self@.comparisons,
    {
        self.state.comparisons
    }

    /// Counts one more comparison, saturating; returns the updated counter.
    pub fn increment_comparisons(&mut self) -> (comparisons: u32)
        ensures
            final(self)@ == (StateModel {
                comparisons: sat_add_u32(old(self)@.comparisons, 1),
                ..old(self)@
            }),
            comparisons == final(self)@.comparisons,
    {
        if self.state.comparisons < u32::MAX {
            self.state.comparisons = self.state.comparisons + 1;
        }
        self.state.comparisons
    }

    pub fn get_status(&self) -> (status: Status)
        ensures
            status == self@.status,
    {
        self.state.status
    }

    pub fn set_status(&mut self, status: Status) -> (result: Status)
        ensures
            final(self)@ == (StateModel { status: status, ..old(self)@ }),
            result == status,
    {
        self.state.status = status;
        status
    }

    /// Resumes a paused run: `Paused -> Running`, a no-op in any other
    /// status. The runner unparks the worker thread after this transition so
    /// a blocked checkpoint can continue.
    pub fn resume(&mut self)
        ensures
            final(self)@ == (StateModel {
                status: if old(self)@.status == Status::Paused {
                    Status::Running
                } else {
                    old(self)@.status
                },
                ..old(self)@
            }),
    {
        if self.state.status == Status::Paused {
            self.state.status = Status::Running;
        }
    }

    /// The cooperative checkpoint's decision: whether the worker must abandon
    /// the run. On `Paused` the runner parks the worker thread and retries
    /// after an external resume; this container only reports the signal.
    pub fn pause_point(&self) -> (interrupted: bool)
        ensures
            interrupted == (self@.status == Status::Interrupted),
    {
        match self.state.status {
            Status::Interrupted => true,
            _ => false,
        }
    }

    pub fn get_algorithm(&self) -> (name: String)
        ensures
            name@ == self@.algorithm,
    {
        self.state.algorithm.clone()
    }

    pub fn log(&mut self, text: String) -> (result: String)
        ensures
            final(self)@ == (StateModel { log: Some(text@), ..old(self)@ }),
            result@ == text@,
    {
        let copy = text.clone();
        self.state.log = Some(text);
        copy
    }

    pub fn get_log(&self) -> (log: Option<String>)
        ensures
            log is Some <==> self@.log is Some,
            log matches Some(text) ==> self@.log == Some(text@),
    {
        match &self.state.log {
            Some(text) => Some(text.clone()),
            None => None,
        }
    }

    pub fn set_algorithm(&mut self, name: String) -> (result: String)
        ensures
            final(self)@ == (StateModel { algorithm: name@, ..old(self)@ }),
            result@ == name@,
    {
        let copy = name.clone();
        self.state.algorithm = name;
        copy
    }

    /// The buffer's length.
    pub(crate) fn buffer_len(&self) -> (length: usize)
        ensures
            length == self@.array.len(),
    {
        self.state.array.len()
    }

    /// Reads one buffer element, with no instrumentation.
    pub(crate) fn buffer_get(&self, index: usize) -> (value: u32)
        requires
            index < self@.array.len(),
        ensures
            value == self@.array[index as int],
    {
        self.state.array[index]
    }

    /// Writes one buffer element, with no instrumentation.
    pub(crate) fn buffer_set(&mut self, index: usize, value: u32)
        requires
            index < old(self)@.array.len(),
        ensures
            final(self)@ == (StateModel {
                array: old(self)@.array.update(index as int, value),
                ..old(self)@
            }),
    {
        self.state.array.set(index, value);
    }

    /// Exchanges two buffer elements, with no instrumentation.
    pub(crate) fn buffer_swap(&mut self, index1: usize, index2: usize)
        requires
            index1 < old(self)@.array.len(),
            index2 < old(self)@.array.len(),
        ensures
            final(self)@ == (StateModel {
                array: crate::order::swapped(old(self)@.array, index1 as int, index2 as int),
                ..old(self)@
            }),
    {
        let first = self.state.array[index1];
        let second = self.state.array[index2];
        self.state.array.set(index1, second);
        self.state.array.set(index2, first);
    }

    /// The verification pass: re-scans the buffer once an algorithm returns
    /// normally, marking every index whose adjacent pair is in non-descending
    /// order (and always the final index) as checked, and finishes in
    /// `Completed` exactly when the whole buffer is non-descending, else
    /// `Failed`. The buffer, counters, speed, label and log are untouched.
    pub fn check(&mut self)
        requires
            old(self).wf(),
            1 <= old(self)@.array.len(),
            old(self)@.checked.len() == 0,
        ensures
            final(self).wf(),
            final(self)@ == (StateModel {
                status: if sorted(old(self)@.array) {
                    Status::Completed
                } else {
                    Status::Failed
                },
                checked: scan_marks(old(self)@.array),
                comparison: scan_comparison(old(self)@.array, old(self)@.comparison),
                ..old(self)@
            }),
            forall|k: int|
                0 <= k < old(self)@.array.len() ==> (final(self)@.checked.contains(k as u32)
                    <==> checked_mark(old(self)@.array, k)),
    {
        let ghost m0 = self@;
        let ghost s = self@.array;
        let _ = self.set_status(Status::Checking);
        proof {
            assert(m0.checked =~= Seq::<u32>::empty());
        }
        let len = self.state.array.len();
        let mut i: usize = 0;
        while i < len - 1
            invariant
                self.wf(),
                m0.wf(),
                m0.checked.len() == 0,
                1 <= len == s.len() <= u32::MAX,
                0 <= i <= len - 1,
                s == m0.array,
                self@ == (StateModel {
                    status: Status::Checking,
                    checked: scan_marks_upto(s, i as int),
                    comparison: scan_comparison_upto(s, i as int, m0.comparison),
                    ..m0
                }),
            decreases len - 1 - i,
        {
            proof {
                lemma_scan_marks_upto_props(s, i as int);
            }
            if self.state.array[i] <= self.state.array[i + 1] {
                assert(ordered_at(s, i as int));
                let _ = self.set_checked(i as u32);
                let _ = self.set_comparison([i as u32, (i + 1) as u32]);
                proof {
                    assert(self@.checked =~= scan_marks_upto(s, i + 1));
                    assert(self@.comparison =~= scan_comparison_upto(s, i + 1, m0.comparison));
                }
            } else {
                assert(!ordered_at(s, i as int));
                assert(self@.checked =~= scan_marks_upto(s, i + 1));
                assert(self@.comparison =~= scan_comparison_upto(s, i + 1, m0.comparison));
            }
            i = i + 1;
        }
        proof {
            lemma_scan_marks_upto_props(s, (len - 1) as int);
        }
        let _ = self.set_checked((len - 1) as u32);
        proof {
            assert(self@.checked =~= scan_marks(s));
            assert(self@.comparison =~= scan_comparison(s, m0.comparison));
            lemma_scan_marks_membership(s);
        }
        if self.state.checked.len() == len {
            let _ = self.set_status(Status::Completed);
        } else {
            let _ = self.set_status(Status::Failed);
        }
    }

    /// A run's entry point: records the display label and starts in the
    /// deliberate `Paused` state, so every run waits for an explicit resume.
    /// The runner parks the worker here until resumed.
    pub fn init_algorithm(&mut self, name: String)
        ensures
            final(self)@ == (StateModel {
                algorithm: name@,
                status: Status::Paused,
                ..old(self)@
            }),
    {
        let _ = self.set_algorithm(name);
        let _ = self.set_status(Status::Paused);
    }
}

} // verus!
