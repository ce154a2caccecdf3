use crossbeam_channel::bounded;
use fastlog::pipeline::{acknowledge_flush, enqueue, flush, send_quit, LogError};
use fastlog::protocol::{run_worker, LoggerInput, LoggerOutput, WorkerState};

#[test]
fn enqueue_delivers_the_payload_text() {
    let (sender, receiver) = bounded::<LoggerInput>(4);
    assert_eq!(enqueue(&sender, "hello".to_string()), Ok(()));
    match receiver.recv().expect("message must arrive") {
        LoggerInput::LogMsg(text) => assert_eq!(text, "hello"),
        _ => panic!("enqueue must deliver a payload message"),
    }
}

#[test]
fn enqueue_fails_with_queue_closed_when_the_worker_side_is_gone() {
    let (sender, receiver) = bounded::<LoggerInput>(4);
    drop(receiver);
    assert_eq!(enqueue(&sender, "lost".to_string()), Err(LogError::QueueClosed));
}

#[test]
fn flush_sends_the_marker_and_waits_for_the_acknowledgment() {
    let (queue_sender, queue_receiver) = bounded::<LoggerInput>(4);
    let (notification_sender, notification_receiver) = bounded::<LoggerOutput>(1);
    // Play the worker's part up front: the acknowledgment already waits in
    // the single-slot channel, so the round-trip completes at once.
    assert_eq!(acknowledge_flush(&notification_sender), Ok(()));
    assert_eq!(flush(&queue_sender, &notification_receiver), Ok(()));
    assert!(matches!(
        queue_receiver.recv().expect("marker must arrive"),
        LoggerInput::Flush
    ));
}

#[test]
fn flush_fails_with_queue_closed_when_the_worker_side_is_gone() {
    let (queue_sender, queue_receiver) = bounded::<LoggerInput>(4);
    let (_notification_sender, notification_receiver) = bounded::<LoggerOutput>(1);
    drop(queue_receiver);
    assert_eq!(
        flush(&queue_sender, &notification_receiver),
        Err(LogError::QueueClosed)
    );
}

#[test]
fn flush_fails_with_notification_closed_when_no_acknowledgment_can_come() {
    let (queue_sender, queue_receiver) = bounded::<LoggerInput>(4);
    let (notification_sender, notification_receiver) = bounded::<LoggerOutput>(1);
    drop(notification_sender);
    let outcome = flush(&queue_sender, &notification_receiver);
    assert_eq!(outcome, Err(LogError::NotificationClosed));
    // The marker itself was still enqueued before the wait failed.
    assert!(matches!(
        queue_receiver.recv().expect("marker must arrive"),
        LoggerInput::Flush
    ));
}

#[test]
fn send_quit_delivers_the_terminal_marker() {
    let (sender, receiver) = bounded::<LoggerInput>(4);
    assert_eq!(send_quit(&sender), Ok(()));
    assert!(matches!(
        receiver.recv().expect("marker must arrive"),
        LoggerInput::Quit
    ));
}

#[test]
fn send_quit_fails_with_queue_closed_when_the_worker_side_is_gone() {
    let (sender, receiver) = bounded::<LoggerInput>(4);
    drop(receiver);
    assert_eq!(send_quit(&sender), Err(LogError::QueueClosed));
}

#[test]
fn acknowledge_flush_fails_when_the_waiting_producer_is_gone() {
    let (notification_sender, notification_receiver) = bounded::<LoggerOutput>(1);
    drop(notification_receiver);
    assert_eq!(
        acknowledge_flush(&notification_sender),
        Err(LogError::NotificationClosed)
    );
}

#[test]
fn acknowledge_flush_delivers_the_flushed_token() {
    let (notification_sender, notification_receiver) = bounded::<LoggerOutput>(1);
    assert_eq!(acknowledge_flush(&notification_sender), Ok(()));
    assert!(matches!(
        notification_receiver.recv().expect("token must arrive"),
        LoggerOutput::Flushed
    ));
}

#[test]
fn messages_travel_the_channel_to_the_worker_in_enqueue_order() {
    // Producer side through the pipeline operations, worker side through the
    // drain model: three payloads then shutdown give exactly three lines.
    let (sender, receiver) = bounded::<LoggerInput>(4);
    assert_eq!(enqueue(&sender, "one".to_string()), Ok(()));
    assert_eq!(enqueue(&sender, "two".to_string()), Ok(()));
    assert_eq!(enqueue(&sender, "three".to_string()), Ok(()));
    assert_eq!(send_quit(&sender), Ok(()));
    let mut batch: Vec<LoggerInput> = Vec::new();
    while let Ok(msg) = receiver.try_recv() {
        batch.push(msg);
    }
    assert_eq!(batch.len(), 4);
    let mut sink: Vec<String> = Vec::new();
    let (acks, state) = run_worker(batch, &mut sink);
    assert_eq!(acks, 0);
    assert!(matches!(state, WorkerState::Stopped));
    assert_eq!(sink, vec!["one".to_string(), "two".to_string(), "three".to_string()]);
}
