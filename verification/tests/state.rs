use algorithm_tui::state::{SharedState, State, Status};

fn shared(values: Vec<u32>) -> SharedState {
    SharedState::new(State::new(values))
}

#[test]
fn fresh_state_defaults() {
    let state = shared(vec![3, 1, 2]);
    let snapshot = state.get();
    assert_eq!(snapshot.array, vec![3, 1, 2]);
    assert_eq!(snapshot.last_swapped, 999);
    assert_eq!(snapshot.comparison, [999, 999]);
    assert!(snapshot.checked.is_empty());
    assert_eq!(snapshot.comparisons, 0);
    assert_eq!(snapshot.array_accesses, 0);
    assert_eq!(snapshot.status, Status::Paused);
    assert_eq!(snapshot.algorithm, "None");
    assert!(snapshot.log.is_none());
    assert_eq!(snapshot.speed, 100);
}

#[test]
fn snapshot_is_idempotent() {
    let state = shared(vec![5, 2, 9, 2]);
    let first = state.get();
    let second = state.get();
    assert_eq!(first.array, second.array);
    assert_eq!(first.last_swapped, second.last_swapped);
    assert_eq!(first.comparison, second.comparison);
    assert_eq!(first.checked, second.checked);
    assert_eq!(first.comparisons, second.comparisons);
    assert_eq!(first.array_accesses, second.array_accesses);
    assert_eq!(first.status, second.status);
    assert_eq!(first.algorithm, second.algorithm);
    assert_eq!(first.log, second.log);
    assert_eq!(first.speed, second.speed);
}

#[test]
fn increment_speed_clamps_at_100() {
    let mut state = shared(vec![1]);
    assert_eq!(state.set_speed(80), 80);
    assert_eq!(state.increment_speed(), 85);
    assert_eq!(state.increment_speed(), 90);
    assert_eq!(state.increment_speed(), 95);
    assert_eq!(state.increment_speed(), 100);
    for _ in 0..30 {
        let speed = state.increment_speed();
        assert_eq!(speed, 100);
    }
    assert_eq!(state.get_speed(), 100);
}

#[test]
fn decrement_speed_clamps_at_5() {
    let mut state = shared(vec![1]);
    assert_eq!(state.set_speed(15), 15);
    assert_eq!(state.decrement_speed(), 10);
    assert_eq!(state.decrement_speed(), 5);
    for _ in 0..30 {
        let speed = state.decrement_speed();
        assert_eq!(speed, 5);
    }
    assert_eq!(state.get_speed(), 5);
}

#[test]
fn speed_steps_are_exactly_five() {
    let mut state = shared(vec![1]);
    let mut previous = state.set_speed(50);
    for _ in 0..20 {
        let speed = state.increment_speed();
        assert!(speed == previous + 5 || (previous == 100 && speed == 100));
        previous = speed;
    }
    let mut previous = state.set_speed(50);
    for _ in 0..20 {
        let speed = state.decrement_speed();
        assert!(speed + 5 == previous || (previous == 5 && speed == 5));
        previous = speed;
    }
}

#[test]
fn delay_follows_speed() {
    let mut state = shared(vec![1]);
    assert_eq!(state.set_speed(100), 100);
    assert_eq!(state.delay_ms(), 1);
    assert_eq!(state.set_speed(5), 5);
    assert_eq!(state.delay_ms(), 96);
    assert_eq!(state.set_speed(75), 75);
    assert_eq!(state.delay_ms(), 26);
}

#[test]
fn counters_saturate_instead_of_wrapping() {
    let mut state = shared(vec![1]);
    assert_eq!(state.increment_accesses(u32::MAX), u32::MAX);
    assert_eq!(state.increment_accesses(7), u32::MAX);
    assert_eq!(state.get_accesses(), u32::MAX);
    assert_eq!(state.increment_comparisons(), 1);
    assert_eq!(state.increment_comparisons(), 2);
    assert_eq!(state.get_comparisons(), 2);
}

#[test]
fn accesses_accumulate() {
    let mut state = shared(vec![1]);
    assert_eq!(state.increment_accesses(1), 1);
    assert_eq!(state.increment_accesses(4), 5);
    assert_eq!(state.get_accesses(), 5);
}

#[test]
fn annotation_setters_round_trip() {
    let mut state = shared(vec![4, 4, 4]);
    assert_eq!(state.set_last(2), 2);
    assert_eq!(state.get_last(), 2);
    assert_eq!(state.set_comparison([0, 1]), [0, 1]);
    assert_eq!(state.get_comparison(), [0, 1]);
    assert_eq!(state.set_checked(1), 1);
    assert_eq!(state.set_checked(0), 0);
    assert_eq!(state.get_checked(), vec![1, 0]);
}

#[test]
fn status_and_labels_round_trip() {
    let mut state = shared(vec![1, 2]);
    assert_eq!(state.set_status(Status::Running), Status::Running);
    assert_eq!(state.get_status(), Status::Running);
    assert_eq!(state.set_algorithm("Quick Sort".to_string()), "Quick Sort");
    assert_eq!(state.get_algorithm(), "Quick Sort");
    assert!(state.get_log().is_none());
    assert_eq!(state.log("array is unsorted".to_string()), "array is unsorted");
    assert_eq!(state.get_log(), Some("array is unsorted".to_string()));
}

#[test]
fn init_algorithm_starts_paused() {
    let mut state = shared(vec![2, 1]);
    state.set_status(Status::Running);
    state.init_algorithm("Bubble Sort".to_string());
    assert_eq!(state.get_status(), Status::Paused);
    assert_eq!(state.get_algorithm(), "Bubble Sort");
}

#[test]
fn pause_point_signals_interrupt_only() {
    let mut state = shared(vec![1, 2, 3]);
    assert!(!state.pause_point());
    state.set_status(Status::Running);
    assert!(!state.pause_point());
    state.set_status(Status::Interrupted);
    assert!(state.pause_point());
}

#[test]
fn reset_array_replaces_buffer_only() {
    let mut state = shared(vec![1, 2]);
    state.set_checked(0);
    state.set_checked(1);
    state.set_last(1);
    state.increment_comparisons();
    state.reset_array(vec![9, 8, 7]);
    let snapshot = state.get();
    assert_eq!(snapshot.array, vec![9, 8, 7]);
    assert_eq!(snapshot.checked, vec![0, 1]);
    assert_eq!(snapshot.last_swapped, 1);
    assert_eq!(snapshot.comparisons, 1);
    assert_eq!(snapshot.status, Status::Paused);
}

#[test]
fn resume_moves_paused_to_running_only() {
    let mut state = shared(vec![1, 2]);
    assert_eq!(state.get_status(), Status::Paused);
    state.resume();
    assert_eq!(state.get_status(), Status::Running);
    state.resume();
    assert_eq!(state.get_status(), Status::Running);
    state.set_status(Status::Completed);
    state.resume();
    assert_eq!(state.get_status(), Status::Completed);
}
