use algorithm_tui::events::{AlgorithmEvent, ProgressEvent};

#[test]
fn progress_event_carries_run_data() {
    let event = ProgressEvent {
        name: "Bubble Sort".to_string(),
        array: vec![2, 1, 3],
        iterations: 7,
        start: 1250,
    };
    assert_eq!(event.name, "Bubble Sort");
    assert_eq!(event.array, vec![2, 1, 3]);
    assert_eq!(event.iterations, 7);
    assert_eq!(event.start, 1250);
}

#[test]
fn algorithm_event_requests_pause() {
    let event = AlgorithmEvent::Pause;
    assert!(matches!(event, AlgorithmEvent::Pause));
}
