use algorithm_tui::algorithms::bubble_sort::BubbleSort;
use algorithm_tui::algorithms::insertion_sort::InsertionSort;
use algorithm_tui::algorithms::merge_sort::MergeSort;
use algorithm_tui::algorithms::quick_sort::QuickSort;
use algorithm_tui::algorithms::selection_sort::SelectionSort;
use algorithm_tui::algorithms::Algorithm;
use algorithm_tui::array::Array;
use algorithm_tui::generate_array;
use algorithm_tui::state::{SharedState, State, Status};

fn run<A: Algorithm>(algorithm: A, values: Vec<u32>) -> State {
    let mut array = Array::new(SharedState::new(State::new(values)));
    algorithm.sort(&mut array);
    array.state.get()
}

fn expect_sorted_run<A: Algorithm>(algorithm: A, values: Vec<u32>, label: &str) {
    let mut expected = values.clone();
    expected.sort();
    let snapshot = run(algorithm, values);
    assert_eq!(snapshot.array, expected);
    assert_eq!(snapshot.status, Status::Completed);
    assert_eq!(snapshot.algorithm, label);
    let mut checked = snapshot.checked.clone();
    checked.sort();
    let all: Vec<u32> = (0..expected.len() as u32).collect();
    assert_eq!(checked, all);
}

fn inputs() -> Vec<Vec<u32>> {
    vec![
        vec![5, 4, 3, 2, 1],
        vec![1, 2, 3, 4, 5],
        vec![2, 7, 2, 9, 2, 7],
        vec![42],
        vec![1, 0],
        vec![6, 6, 6],
        vec![13, 2, 8, 1, 21, 3, 5, 1],
    ]
}

#[test]
fn bubble_sort_sorts_and_completes() {
    for values in inputs() {
        expect_sorted_run(BubbleSort, values, "Bubble Sort");
    }
}

#[test]
fn insertion_sort_sorts_and_completes() {
    for values in inputs() {
        expect_sorted_run(InsertionSort, values, "Insertion Sort");
    }
}

#[test]
fn selection_sort_sorts_and_completes() {
    for values in inputs() {
        expect_sorted_run(SelectionSort, values, "Selection Sort");
    }
}

#[test]
fn merge_sort_sorts_and_completes() {
    for values in inputs() {
        expect_sorted_run(MergeSort, values, "Merge Sort");
    }
}

#[test]
fn quick_sort_sorts_and_completes() {
    for values in inputs() {
        expect_sorted_run(QuickSort, values, "Quick Sort");
    }
}

#[test]
fn bubble_sort_two_elements_accounting() {
    let snapshot = run(BubbleSort, vec![2, 1]);
    assert_eq!(snapshot.array, vec![1, 2]);
    assert_eq!(snapshot.status, Status::Completed);
    // One comparison; its two reads plus the swap's four accesses.
    assert!(snapshot.comparisons >= 1);
    assert_eq!(snapshot.comparisons, 1);
    assert_eq!(snapshot.array_accesses, 6);
    // The recorded swap annotates the index the larger element landed on.
    assert_eq!(snapshot.last_swapped, 1);
    assert_eq!(snapshot.comparison, [0, 1]);
}

#[test]
fn bubble_sort_full_run_scenario() {
    let mut array = Array::new(SharedState::new(State::new(vec![5, 4, 3, 2, 1])));
    assert_eq!(array.state.get_speed(), 100);
    BubbleSort.sort(&mut array);
    let snapshot = array.state.get();
    assert_eq!(snapshot.status, Status::Completed);
    assert_eq!(snapshot.array, vec![1, 2, 3, 4, 5]);
    let mut checked = snapshot.checked.clone();
    checked.sort();
    assert_eq!(checked, vec![0, 1, 2, 3, 4]);
}

#[test]
fn bubble_sort_stops_early_when_sorted() {
    let snapshot = run(BubbleSort, vec![1, 2, 3, 4, 5, 6]);
    assert_eq!(snapshot.status, Status::Completed);
    // A single pass of five comparisons finds nothing to swap and stops.
    assert_eq!(snapshot.comparisons, 5);
    assert_eq!(snapshot.array_accesses, 10);
}

#[test]
fn merge_sort_sets_its_pace() {
    let snapshot = run(MergeSort, vec![3, 1, 2]);
    assert_eq!(snapshot.speed, 75);
    assert_eq!(snapshot.status, Status::Completed);
}

#[test]
fn quick_sort_sets_its_pace() {
    let snapshot = run(QuickSort, vec![3, 1, 2]);
    assert_eq!(snapshot.speed, 75);
    assert_eq!(snapshot.status, Status::Completed);
}

#[test]
fn interrupted_run_does_not_touch_new_run() {
    // Run A is superseded: the supervisor marks it interrupted and abandons
    // it; run B gets a fresh state and must see exactly its own input.
    let mut run_a = SharedState::new(State::new(vec![3, 1, 2]));
    run_a.set_status(Status::Interrupted);
    assert!(run_a.pause_point());

    let mut run_b = Array::new(SharedState::new(State::new(vec![9, 8, 7])));
    assert_eq!(run_b.state.get().array, vec![9, 8, 7]);
    BubbleSort.sort(&mut run_b);
    let snapshot_b = run_b.state.get();
    assert_eq!(snapshot_b.array, vec![7, 8, 9]);
    assert_eq!(snapshot_b.status, Status::Completed);

    // The abandoned run keeps its own buffer and terminal status.
    let snapshot_a = run_a.get();
    assert_eq!(snapshot_a.array, vec![3, 1, 2]);
    assert_eq!(snapshot_a.status, Status::Interrupted);
}

#[test]
fn generate_array_counts_down_from_fifty() {
    let values = generate_array();
    assert_eq!(values.len(), 50);
    assert_eq!(values[0], 50);
    assert_eq!(values[49], 1);
    for (index, value) in values.iter().enumerate() {
        assert_eq!(*value as usize, 50 - index);
    }
}

#[test]
fn generated_array_sorts_to_ascending() {
    let snapshot = run(QuickSort, generate_array());
    let expected: Vec<u32> = (1..51).collect();
    assert_eq!(snapshot.array, expected);
    assert_eq!(snapshot.status, Status::Completed);
}

#[test]
fn instrumentation_counts_through_view() {
    let mut array = Array::new(SharedState::new(State::new(vec![4, 9])));
    assert_eq!(array.len(), 2);
    assert_eq!(array.get(0), 4);
    assert_eq!(array.state.get_accesses(), 1);
    assert_eq!(array.set(1, 5), 5);
    assert_eq!(array.state.get_accesses(), 2);
    assert!(!array.compare(0, 1));
    assert_eq!(array.state.get_accesses(), 4);
    assert_eq!(array.state.get_comparisons(), 1);
    assert_eq!(array.state.get_comparison(), [0, 1]);
    array.swap(0, 1);
    assert_eq!(array.state.get_accesses(), 8);
    assert_eq!(array.get_all(), vec![5, 4]);
}

#[test]
fn bubble_sort_keeps_the_selected_pace() {
    let mut array = Array::new(SharedState::new(State::new(vec![3, 1, 2])));
    assert_eq!(array.state.set_speed(50), 50);
    BubbleSort.sort(&mut array);
    let snapshot = array.state.get();
    assert_eq!(snapshot.speed, 50);
    assert_eq!(snapshot.status, Status::Completed);
}
