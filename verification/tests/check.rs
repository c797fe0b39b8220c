use algorithm_tui::state::{SharedState, State, Status};

fn shared(values: Vec<u32>) -> SharedState {
    SharedState::new(State::new(values))
}

#[test]
fn check_completes_sorted_buffer() {
    let mut state = shared(vec![1, 2, 3, 4, 5]);
    state.check();
    let snapshot = state.get();
    assert_eq!(snapshot.status, Status::Completed);
    assert_eq!(snapshot.checked, vec![0, 1, 2, 3, 4]);
    assert_eq!(snapshot.array, vec![1, 2, 3, 4, 5]);
    assert_eq!(snapshot.comparison, [3, 4]);
}

#[test]
fn check_accepts_duplicates_as_sorted() {
    let mut state = shared(vec![2, 2]);
    state.check();
    assert_eq!(state.get_status(), Status::Completed);
    assert_eq!(state.get_checked(), vec![0, 1]);
}

#[test]
fn check_accepts_all_equal_buffer() {
    let mut state = shared(vec![7, 7, 7, 7]);
    state.check();
    assert_eq!(state.get_status(), Status::Completed);
    assert_eq!(state.get_checked(), vec![0, 1, 2, 3]);
}

#[test]
fn check_completes_singleton() {
    let mut state = shared(vec![42]);
    state.check();
    assert_eq!(state.get_status(), Status::Completed);
    assert_eq!(state.get_checked(), vec![0]);
}

#[test]
fn check_fails_unsorted_buffer() {
    let mut state = shared(vec![1, 3, 2, 2, 5]);
    state.check();
    let snapshot = state.get();
    assert_eq!(snapshot.status, Status::Failed);
    // The pair at index 1 is the violation: index 1 stays unchecked, the
    // in-order run before it and the final index are checked.
    assert!(snapshot.checked.contains(&0));
    assert!(!snapshot.checked.contains(&1));
    assert!(snapshot.checked.contains(&2));
    assert!(snapshot.checked.contains(&3));
    assert!(snapshot.checked.contains(&4));
    // The compared-pair annotation shows the last in-order pair the scan saw.
    assert_eq!(snapshot.comparison, [3, 4]);
    // The buffer itself is untouched.
    assert_eq!(snapshot.array, vec![1, 3, 2, 2, 5]);
}

#[test]
fn check_fails_reverse_sorted_buffer() {
    let mut state = shared(vec![3, 2, 1]);
    state.check();
    let snapshot = state.get();
    assert_eq!(snapshot.status, Status::Failed);
    // No pair is in order: only the final index is marked.
    assert_eq!(snapshot.checked, vec![2]);
    // With no in-order pair, the compared-pair annotation keeps its sentinel.
    assert_eq!(snapshot.comparison, [999, 999]);
}

#[test]
fn check_leaves_counters_alone() {
    let mut state = shared(vec![2, 1]);
    state.increment_accesses(6);
    state.increment_comparisons();
    state.check();
    assert_eq!(state.get_accesses(), 6);
    assert_eq!(state.get_comparisons(), 1);
}
