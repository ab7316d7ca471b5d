use seq_logger::buffer::{drain_shape, DrainShape, EventBuffer};
use seq_logger::event::{LogEvent, LogLevel};
use seq_logger::sdk::DeliveryOutcome;
use seq_logger::seq_writer::{FlushAction, FlushState, SeqLogger, SkippedBatch};

fn event(n: usize) -> LogEvent {
    LogEvent {
        level: LogLevel::Info,
        dt: 1_700_000_000_000_000 + n as i64,
        process: format!("p{}", n),
        message: format!("message {}", n),
        context: None,
    }
}

fn events(from: usize, to: usize) -> Vec<LogEvent> {
    (from..to).map(event).collect()
}

fn filled(n: usize) -> EventBuffer {
    let mut buffer = EventBuffer::new();
    for i in 0..n {
        buffer.append(event(i));
    }
    buffer
}

fn logger_with(n: usize, chunk: usize) -> SeqLogger {
    let mut logger =
        SeqLogger::from_connection_string(&format!("url=https://x;flushlogschunk={}", chunk), "svc".to_string())
            .unwrap();
    for i in 0..n {
        logger.write_log(event(i));
    }
    logger
}

#[test]
fn new_buffer_is_empty() {
    let buffer = EventBuffer::new();
    assert_eq!(buffer.len(), 0);
    assert!(buffer.is_empty());
}

#[test]
fn append_grows_the_buffer() {
    let buffer = filled(3);
    assert_eq!(buffer.len(), 3);
    assert!(!buffer.is_empty());
}

#[test]
fn draining_an_empty_buffer_gives_nothing() {
    let mut buffer = EventBuffer::new();
    assert_eq!(buffer.drain(50), None);
    assert_eq!(buffer.drain(0), None);
    assert_eq!(buffer.len(), 0);
}

#[test]
fn a_small_backlog_leaves_whole() {
    let mut buffer = filled(7);
    assert_eq!(drain_shape(7, 50), DrainShape::Whole);
    assert_eq!(buffer.drain(50), Some(events(0, 7)));
    assert!(buffer.is_empty());
    assert_eq!(buffer.drain(50), None);
}

#[test]
fn a_backlog_of_exactly_the_cap_leaves_whole() {
    let mut buffer = filled(5);
    assert_eq!(drain_shape(5, 5), DrainShape::Whole);
    assert_eq!(buffer.drain(5), Some(events(0, 5)));
    assert!(buffer.is_empty());
}

#[test]
fn a_long_backlog_loses_its_oldest() {
    let mut buffer = filled(8);
    assert_eq!(drain_shape(8, 5), DrainShape::Prefix);
    assert_eq!(buffer.drain(5), Some(events(0, 5)));
    assert_eq!(buffer.len(), 3);
    assert_eq!(buffer.drain(5), Some(events(5, 8)));
    assert!(buffer.is_empty());
}

#[test]
fn events_appended_after_a_drain_follow_the_rest() {
    let mut buffer = filled(3);
    assert_eq!(buffer.drain(2), Some(events(0, 2)));
    buffer.append(event(3));
    assert_eq!(buffer.drain(10), Some(events(2, 4)));
}

#[test]
fn a_cap_of_zero_takes_nothing_from_a_backlog() {
    let mut buffer = filled(2);
    assert_eq!(buffer.drain(0), Some(Vec::new()));
    assert_eq!(buffer.len(), 2);
}

#[test]
fn drain_shapes() {
    assert_eq!(drain_shape(0, 0), DrainShape::Empty);
    assert_eq!(drain_shape(0, 50), DrainShape::Empty);
    assert_eq!(drain_shape(1, 50), DrainShape::Whole);
    assert_eq!(drain_shape(50, 50), DrainShape::Whole);
    assert_eq!(drain_shape(51, 50), DrainShape::Prefix);
    assert_eq!(drain_shape(1, 0), DrainShape::Prefix);
}

#[test]
fn write_log_appends() {
    let mut logger = logger_with(0, 50);
    assert_eq!(logger.pending_len(), 0);
    logger.write_log(event(0));
    logger.write_log(event(1));
    assert_eq!(logger.pending_len(), 2);
    assert!(logger.start());
    assert_eq!(logger.read_log(), FlushAction::Deliver { events: events(0, 2) });
}

#[test]
fn a_new_shipper_has_no_loop() {
    let logger = logger_with(0, 50);
    assert_eq!(logger.flush_state(), FlushState::NotStarted);
    let plain = SeqLogger::new("https://x".to_string(), None, "svc".to_string());
    assert_eq!(plain.flush_state(), FlushState::NotStarted);
}

#[test]
fn nothing_is_read_before_the_loop_is_started() {
    let mut logger = logger_with(3, 2);
    assert_eq!(logger.read_log(), FlushAction::AwaitStart);
    assert_eq!(logger.flush_state(), FlushState::NotStarted);
    assert_eq!(logger.pending_len(), 3);
    assert_eq!(logger.flush_events(DeliveryOutcome::Failed), None);
    assert_eq!(logger.flush_state(), FlushState::NotStarted);
}

#[test]
fn the_first_start_starts_the_loop() {
    let mut logger = logger_with(0, 50);
    assert!(logger.start());
    assert_eq!(logger.flush_state(), FlushState::Idle);
}

#[test]
fn a_second_start_starts_nothing() {
    let mut logger = logger_with(2, 1);
    assert!(logger.start());
    assert!(!logger.start());
    assert_eq!(logger.flush_state(), FlushState::Idle);
    assert_eq!(logger.read_log(), FlushAction::Deliver { events: events(0, 1) });
    assert!(!logger.start());
    assert_eq!(logger.flush_state(), FlushState::Flushing { events_amount: 1 });
    assert_eq!(logger.read_log(), FlushAction::AwaitDelivery);
    assert_eq!(logger.pending_len(), 1);
}

#[test]
fn start_leaves_settings_and_buffer_alone() {
    let mut logger = SeqLogger::from_connection_string(
        "url=https://x;apikey=k;flushlogschunk=3;flushdelay=4",
        "svc".to_string(),
    )
    .unwrap();
    logger.write_log(event(0));
    assert!(logger.start());
    assert_eq!(logger.url, "https://x");
    assert_eq!(logger.api_key, Some("k".to_string()));
    assert_eq!(logger.max_logs_flush_chunk, 3);
    assert_eq!(logger.flush_delay, 4);
    assert_eq!(logger.app, "svc");
    assert_eq!(logger.pending_len(), 1);
}

#[test]
fn an_empty_buffer_asks_for_a_sleep() {
    let mut logger =
        SeqLogger::from_connection_string("url=https://x;flushdelay=5", "svc".to_string()).unwrap();
    assert!(logger.start());
    assert_eq!(logger.read_log(), FlushAction::Sleep { seconds: 5 });
    assert_eq!(logger.flush_state(), FlushState::Idle);
    assert_eq!(logger.read_log(), FlushAction::Sleep { seconds: 5 });
}

#[test]
fn nothing_is_read_while_a_batch_is_on_its_way() {
    let mut logger = logger_with(5, 2);
    assert!(logger.start());
    assert_eq!(logger.read_log(), FlushAction::Deliver { events: events(0, 2) });
    assert_eq!(logger.flush_state(), FlushState::Flushing { events_amount: 2 });
    assert_eq!(logger.read_log(), FlushAction::AwaitDelivery);
    assert_eq!(logger.flush_state(), FlushState::Flushing { events_amount: 2 });
    assert_eq!(logger.pending_len(), 3);
}

#[test]
fn events_written_during_a_delivery_wait_for_the_next_read() {
    let mut logger = logger_with(1, 2);
    assert!(logger.start());
    assert_eq!(logger.read_log(), FlushAction::Deliver { events: events(0, 1) });
    logger.write_log(event(1));
    assert_eq!(logger.read_log(), FlushAction::AwaitDelivery);
    assert_eq!(logger.pending_len(), 1);
    assert_eq!(logger.flush_events(DeliveryOutcome::Delivered), None);
    assert_eq!(logger.read_log(), FlushAction::Deliver { events: events(1, 2) });
}

#[test]
fn a_backlog_of_120_leaves_in_three_deliveries() {
    let mut logger = logger_with(120, 50);
    assert!(logger.start());
    let mut sizes = Vec::new();
    let mut delivered = Vec::new();
    let mut sleeps = 0;
    while sleeps == 0 {
        match logger.read_log() {
            FlushAction::Deliver { events } => {
                sizes.push(events.len());
                delivered.extend(events);
                assert_eq!(logger.flush_events(DeliveryOutcome::Delivered), None);
            }
            FlushAction::Sleep { seconds } => {
                assert_eq!(seconds, 1);
                sleeps += 1;
            }
            FlushAction::AwaitDelivery | FlushAction::AwaitStart => unreachable!(),
        }
    }
    assert_eq!(sizes, vec![50, 50, 20]);
    assert_eq!(delivered, events(0, 120));
    assert_eq!(logger.pending_len(), 0);
    assert_eq!(logger.flush_state(), FlushState::Idle);
}

#[test]
fn a_failed_batch_is_dropped() {
    let mut logger = logger_with(5, 2);
    assert!(logger.start());
    assert_eq!(logger.read_log(), FlushAction::Deliver { events: events(0, 2) });
    assert_eq!(
        logger.flush_events(DeliveryOutcome::Failed),
        Some(SkippedBatch { events_amount: 2 })
    );
    assert_eq!(logger.flush_state(), FlushState::Idle);
    assert_eq!(logger.pending_len(), 3);
    assert_eq!(logger.read_log(), FlushAction::Deliver { events: events(2, 4) });
    assert_eq!(logger.flush_events(DeliveryOutcome::Delivered), None);
    assert_eq!(logger.read_log(), FlushAction::Deliver { events: events(4, 5) });
    assert_eq!(
        logger.flush_events(DeliveryOutcome::Failed),
        Some(SkippedBatch { events_amount: 1 })
    );
    assert_eq!(logger.read_log(), FlushAction::Sleep { seconds: 1 });
    assert_eq!(logger.pending_len(), 0);
}

#[test]
fn an_outcome_without_a_batch_reports_nothing() {
    let mut logger = logger_with(0, 50);
    assert!(logger.start());
    assert_eq!(logger.flush_events(DeliveryOutcome::Failed), None);
    assert_eq!(logger.flush_state(), FlushState::Idle);
}
