//! Bubble sort: repeated adjacent passes that shrink the unsorted prefix by
//! one each pass, terminating early on the first pass with zero swaps.
//!
//! Beside the common sorting contract, this strategy's contract pins the
//! instrumentation exactly: the counters, the annotations and the buffer all
//! equal what the step-by-step trace model ([`bubble_run`]) computes from the
//! input, so accounting facts (how many comparisons, how many accesses, where
//! the last swap landed) follow from the contract alone.

use vstd::prelude::*;

use crate::algorithms::{finish_run, Algorithm};
use crate::array::Array;
use crate::order::{
    lemma_adjacent_ordered_implies_sorted, lemma_swap_preserves_multiset, ordered_at, sorted,
    sorted_between, swapped,
};

verus! {

use crate::state::{sat_add_u32, scan_comparison, scan_marks, StateModel, Status};

pub struct BubbleSort;

/// The instrumentation-relevant slice of the run state as a bubble-sort run
/// evolves it: the buffer, the two counters, the last-swapped and
/// compared-pair annotations, and whether the current pass has swapped yet.
pub struct BubbleTrace {
    pub s: Seq<u32>,
    pub comparisons: u32,
    pub accesses: u32,
    pub last: u32,
    pub pair: Seq<u32>,
    pub swapped: bool,
}

/// One checkpoint of a pass: compare the adjacent pair at `j` (one
/// comparison, two reads), and when it is out of order, swap it (four more
/// accesses) and record the index the larger element landed on.
pub open spec fn bubble_step(t: BubbleTrace, j: int) -> BubbleTrace {
    let compared = BubbleTrace {
        comparisons: sat_add_u32(t.comparisons, 1),
        accesses: sat_add_u32(t.accesses, 2),
        pair: seq![j as u32, (j + 1) as u32],
        ..t
    };
    if t.s[j] > t.s[j + 1] {
        BubbleTrace {
            s: swapped(compared.s, j, j + 1),
            accesses: sat_add_u32(compared.accesses, 4),
            last: (j + 1) as u32,
            swapped: true,
            ..compared
        }
    } else {
        compared
    }
}

/// One pass over the adjacent pairs `j .. limit`.
pub open spec fn bubble_pass(t: BubbleTrace, j: int, limit: int) -> BubbleTrace
    decreases limit - j,
{
    if j >= limit {
        t
    } else {
        bubble_pass(bubble_step(t, j), j + 1, limit)
    }
}

/// The run from pass `i` on: each pass scans one pair fewer, and the run
/// stops early after a pass with no swap.
pub open spec fn bubble_run(t: BubbleTrace, i: int, len: int) -> BubbleTrace
    decreases len - 1 - i,
{
    if i >= len - 1 {
        t
    } else {
        let done = bubble_pass((BubbleTrace { swapped: false, ..t }), 0, len - 1 - i);
        if !done.swapped {
            done
        } else {
            bubble_run(done, i + 1, len)
        }
    }
}

/// The trace slice of a run state, with the pass's swap flag supplied by the
/// caller.
pub open spec fn bubble_trace_at(m: StateModel, has_swapped: bool) -> BubbleTrace {
    BubbleTrace {
        s: m.array,
        comparisons: m.comparisons,
        accesses: m.array_accesses,
        last: m.last_swapped,
        pair: m.comparison,
        swapped: has_swapped,
    }
}

/// The fields of a trace that describe the run's outcome — everything but
/// the per-pass swap flag.
pub open spec fn bubble_same_outcome(a: BubbleTrace, b: BubbleTrace) -> bool {
    a.s == b.s && a.comparisons == b.comparisons && a.accesses == b.accesses && a.last == b.last
        && a.pair == b.pair
}

/// The run's outcome does not depend on the swap flag it starts from: the
/// first pass resets it.
proof fn lemma_bubble_run_ignores_swapped(a: BubbleTrace, b: BubbleTrace, i: int, len: int)
    requires
        bubble_same_outcome(a, b),
    ensures
        bubble_same_outcome(bubble_run(a, i, len), bubble_run(b, i, len)),
{
    if i < len - 1 {
        assert((BubbleTrace { swapped: false, ..a }) == (BubbleTrace { swapped: false, ..b }));
    }
}

impl Algorithm for BubbleSort {
    fn sort(&self, array: &mut Array)
        ensures
            final(array)@.algorithm == "Bubble Sort"@,
            final(array)@.speed == old(array)@.speed,
            final(array)@.log == old(array)@.log,
            ({
                let done = bubble_run(
                    bubble_trace_at(old(array)@, false),
                    0,
                    old(array)@.array.len() as int,
                );
                final(array)@.array == done.s && final(array)@.comparisons == done.comparisons
                    && final(array)@.array_accesses == done.accesses && final(array)@.last_swapped
                    == done.last && final(array)@.checked == scan_marks(done.s)
                    && final(array)@.comparison == scan_comparison(done.s, done.pair)
            }),
    {
        array.state.init_algorithm("Bubble Sort".to_owned());
        let len = array.len();
        let ghost orig = array@.array;
        let ghost t0 = bubble_trace_at(old(array)@, false);
        let ghost run_spec = bubble_run(t0, 0, len as int);
        proof {
            assert(bubble_trace_at(array@, false) == t0);
        }
        let mut i: usize = 0;
        while i < len - 1
            invariant_except_break
                array.wf(),
                array@.array.len() == len == orig.len(),
                1 <= len <= u32::MAX,
                array@.status == Status::Paused,
                array@.checked.len() == 0,
                array@.algorithm == "Bubble Sort"@,
                array@.speed == old(array)@.speed,
                array@.log == old(array)@.log,
                array@.array.to_multiset() == orig.to_multiset(),
                array@.comparisons >= old(array)@.comparisons,
                array@.array_accesses >= old(array)@.array_accesses,
                (array@.array == orig && array@.last_swapped == old(array)@.last_swapped)
                    || array@.last_swapped < len,
                i <= len - 1,
                forall|p: int, q: int|
                    0 <= p <= q < len && len - i <= q ==> array@.array[p] <= array@.array[q],
                bubble_same_outcome(
                    bubble_run(bubble_trace_at(array@, false), i as int, len as int),
                    run_spec,
                ),
            ensures
                array.wf(),
                array@.array.len() == len == orig.len(),
                array@.status == Status::Paused,
                array@.checked.len() == 0,
                array@.algorithm == "Bubble Sort"@,
                array@.speed == old(array)@.speed,
                array@.log == old(array)@.log,
                array@.array.to_multiset() == orig.to_multiset(),
                array@.comparisons >= old(array)@.comparisons,
                array@.array_accesses >= old(array)@.array_accesses,
                (array@.array == orig && array@.last_swapped == old(array)@.last_swapped)
                    || array@.last_swapped < len,
                sorted_between(array@.array, 0, len as int),
                bubble_same_outcome(bubble_trace_at(array@, false), run_spec),
            decreases len - 1 - i,
        {
            let ghost head = bubble_trace_at(array@, false);
            let mut swapped_any = false;
            let mut j: usize = 0;
            while j < len - 1 - i
                invariant
                    array.wf(),
                    array@.array.len() == len == orig.len(),
                    1 <= len <= u32::MAX,
                    array@.status == Status::Paused,
                    array@.checked.len() == 0,
                    array@.algorithm == "Bubble Sort"@,
                    array@.speed == old(array)@.speed,
                    array@.log == old(array)@.log,
                    array@.array.to_multiset() == orig.to_multiset(),
                    array@.comparisons >= old(array)@.comparisons,
                    array@.array_accesses >= old(array)@.array_accesses,
                    (array@.array == orig && array@.last_swapped == old(array)@.last_swapped)
                        || array@.last_swapped < len,
                    i < len - 1,
                    j <= len - 1 - i,
                    forall|p: int, q: int|
                        0 <= p <= q < len && len - i <= q ==> array@.array[p] <= array@.array[q],
                    forall|k: int| 0 <= k <= j ==> array@.array[k] <= array@.array[j as int],
                    !swapped_any ==> forall|k: int|
                        0 <= k < j ==> #[trigger] ordered_at(array@.array, k),
                    bubble_pass(
                        bubble_trace_at(array@, swapped_any),
                        j as int,
                        (len - 1 - i) as int,
                    ) == bubble_pass(head, 0, (len - 1 - i) as int),
                decreases len - 1 - i - j,
            {
                let ghost before_step = bubble_trace_at(array@, swapped_any);
                if array.state.pause_point() {
                    return;
                }
                if array.compare(j, j + 1) {
                    swapped_any = true;
                    let _ = array.state.set_last((j + 1) as u32);
                    let ghost before = array@.array;
                    array.swap(j, j + 1);
                    proof {
                        lemma_swap_preserves_multiset(before, j as int, j + 1);
                    }
                }
                proof {
                    let stepped = bubble_step(before_step, j as int);
                    assert(bubble_trace_at(array@, swapped_any).pair =~= stepped.pair);
                    assert(bubble_trace_at(array@, swapped_any) == stepped);
                    assert(bubble_pass(before_step, j as int, (len - 1 - i) as int) == bubble_pass(
                        stepped,
                        j + 1,
                        (len - 1 - i) as int,
                    ));
                }
                j = j + 1;
            }
            proof {
                let t1 = bubble_pass(head, 0, (len - 1 - i) as int);
                assert(bubble_trace_at(array@, swapped_any) == t1);
                assert((BubbleTrace { swapped: false, ..head }) == head);
                assert(bubble_run(head, i as int, len as int) == (if !t1.swapped {
                    t1
                } else {
                    bubble_run(t1, i + 1, len as int)
                }));
            }
            if !swapped_any {
                proof {
                    lemma_adjacent_ordered_implies_sorted(array@.array, 0, (len - i) as int);
                    assert(bubble_same_outcome(bubble_trace_at(array@, false), run_spec));
                }
                break;
            }
            proof {
                let t1 = bubble_pass(head, 0, (len - 1 - i) as int);
                lemma_bubble_run_ignores_swapped(
                    t1,
                    bubble_trace_at(array@, false),
                    i + 1,
                    len as int,
                );
            }
            i = i + 1;
        }
        proof {
            assert(sorted(array@.array));
            if !sorted(orig) {
                assert(array@.array != orig);
            }
        }
        finish_run(array);
    }
}

} // verus!
