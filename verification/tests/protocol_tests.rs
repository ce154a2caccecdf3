use fastlog::protocol::{run_worker, worker_step, Action, LoggerInput, WorkerState};

#[test]
fn payload_becomes_a_write_action() {
    let mut state = WorkerState::Running;
    let action = worker_step(&mut state, LoggerInput::LogMsg("a line".to_string()));
    match action {
        Action::Write(text) => assert_eq!(text, "a line"),
        _ => panic!("a payload must become a write"),
    }
    assert!(matches!(state, WorkerState::Running));
}

#[test]
fn flush_becomes_an_acknowledge_action() {
    let mut state = WorkerState::Running;
    let action = worker_step(&mut state, LoggerInput::Flush);
    assert!(matches!(action, Action::Acknowledge));
    assert!(matches!(state, WorkerState::Running));
}

#[test]
fn quit_stops_the_worker() {
    let mut state = WorkerState::Running;
    let action = worker_step(&mut state, LoggerInput::Quit);
    assert!(matches!(action, Action::Stop));
    assert!(matches!(state, WorkerState::Stopped));
}

#[test]
fn shutdown_after_three_payloads_writes_exactly_those_three_lines() {
    let msgs = vec![
        LoggerInput::LogMsg("one".to_string()),
        LoggerInput::LogMsg("two".to_string()),
        LoggerInput::LogMsg("three".to_string()),
        LoggerInput::Quit,
    ];
    let mut sink: Vec<String> = Vec::new();
    let (acks, state) = run_worker(msgs, &mut sink);
    assert_eq!(acks, 0);
    assert!(matches!(state, WorkerState::Stopped));
    assert_eq!(sink, vec!["one".to_string(), "two".to_string(), "three".to_string()]);
}

#[test]
fn nothing_is_consumed_after_quit() {
    let msgs = vec![
        LoggerInput::LogMsg("kept".to_string()),
        LoggerInput::Quit,
        LoggerInput::LogMsg("discarded".to_string()),
        LoggerInput::Flush,
    ];
    let mut sink: Vec<String> = Vec::new();
    let (acks, state) = run_worker(msgs, &mut sink);
    assert_eq!(acks, 0);
    assert!(matches!(state, WorkerState::Stopped));
    assert_eq!(sink, vec!["kept".to_string()]);
}

#[test]
fn one_acknowledgment_per_flush_request() {
    let msgs = vec![
        LoggerInput::Flush,
        LoggerInput::LogMsg("a".to_string()),
        LoggerInput::Flush,
        LoggerInput::Flush,
        LoggerInput::LogMsg("b".to_string()),
    ];
    let mut sink: Vec<String> = Vec::new();
    let (acks, state) = run_worker(msgs, &mut sink);
    assert_eq!(acks, 3);
    assert!(matches!(state, WorkerState::Running));
    assert_eq!(sink, vec!["a".to_string(), "b".to_string()]);
}

#[test]
fn payload_is_written_by_the_time_its_flush_is_acknowledged() {
    // The flush marker rides the same queue as the payload before it, so by
    // the time the worker acknowledges, the payload is in the sink.
    let msgs = vec![LoggerInput::LogMsg("A".to_string()), LoggerInput::Flush];
    let mut sink: Vec<String> = Vec::new();
    let (acks, _) = run_worker(msgs, &mut sink);
    assert_eq!(acks, 1);
    assert_eq!(sink, vec!["A".to_string()]);
}

#[test]
fn lines_are_appended_after_existing_sink_contents() {
    let msgs = vec![LoggerInput::LogMsg("new".to_string())];
    let mut sink: Vec<String> = vec!["old".to_string()];
    let (_, state) = run_worker(msgs, &mut sink);
    assert!(matches!(state, WorkerState::Running));
    assert_eq!(sink, vec!["old".to_string(), "new".to_string()]);
}

#[test]
fn interleaved_producers_keep_each_ones_own_order() {
    // An interleaving of two producers' payloads: each producer's own lines
    // appear in the sink in its own enqueue order.
    let msgs = vec![
        LoggerInput::LogMsg("p1-a".to_string()),
        LoggerInput::LogMsg("p2-a".to_string()),
        LoggerInput::LogMsg("p1-b".to_string()),
        LoggerInput::Flush,
        LoggerInput::LogMsg("p2-b".to_string()),
        LoggerInput::LogMsg("p1-c".to_string()),
        LoggerInput::Quit,
    ];
    let mut sink: Vec<String> = Vec::new();
    let (acks, state) = run_worker(msgs, &mut sink);
    assert_eq!(acks, 1);
    assert!(matches!(state, WorkerState::Stopped));
    assert_eq!(sink.len(), 5);
    let first: Vec<&String> = sink.iter().filter(|l| l.starts_with("p1-")).collect();
    assert_eq!(first, vec!["p1-a", "p1-b", "p1-c"]);
    let second: Vec<&String> = sink.iter().filter(|l| l.starts_with("p2-")).collect();
    assert_eq!(second, vec!["p2-a", "p2-b"]);
}
