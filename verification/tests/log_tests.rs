use runners::config::LoggingConfig;
use runners::log::{LogEntry, LogStreamer, LogStreamerManager};
use runners::messages::OutgoingMessage;

fn test_config() -> LoggingConfig {
    LoggingConfig {
        buffer_size: 10,
        chunk_size_bytes: 100,
        flush_interval_ms: 1000,
        enable_persistence: true,
        max_pending_logs: 1000,
    }
}

fn batch_sequences(msg: &OutgoingMessage) -> Vec<u64> {
    match msg {
        OutgoingMessage::LogBatch { logs, .. } => logs.iter().map(|l| l.sequence).collect(),
        _ => panic!("expected a log batch"),
    }
}

#[test]
fn test_log_entry_creation() {
    let entry = LogEntry::new(
        1,
        "step-1".to_string(),
        "Test log".to_string(),
        "info".to_string(),
    );

    assert_eq!(entry.sequence, 1);
    assert_eq!(entry.step_id, "step-1");
    assert_eq!(entry.content, "Test log");
    assert_eq!(entry.level, "info");
    assert!(!entry.acknowledged);
}

#[test]
fn test_streamer_sequence() {
    let mut streamer = LogStreamer::new("job-1".to_string(), test_config());

    let seq1 = streamer.add("step-1", "Log 1", "info").sequence;
    let seq2 = streamer.add("step-1", "Log 2", "info").sequence;
    let seq3 = streamer.add("step-1", "Log 3", "info").sequence;

    assert_eq!(seq1, 0);
    assert_eq!(seq2, 1);
    assert_eq!(seq3, 2);
    assert_eq!(streamer.current_sequence(), 3);
}

#[test]
fn test_streamer_acknowledgment() {
    let mut streamer = LogStreamer::new("job-1".to_string(), test_config());

    // Add some logs
    streamer.add("step-1", "Log 1", "info");
    streamer.add("step-1", "Log 2", "info");
    streamer.add("step-1", "Log 3", "info");

    assert_eq!(streamer.pending_count(), 3);

    // Acknowledge first two
    streamer.acknowledge("step-1", 1);

    assert_eq!(streamer.pending_count(), 1);
}

#[test]
fn test_chunking() {
    let config = LoggingConfig {
        buffer_size: 100,
        chunk_size_bytes: 10,
        flush_interval_ms: 1000,
        enable_persistence: true,
        max_pending_logs: 1000,
    };

    let mut streamer = LogStreamer::new("job-1".to_string(), config);

    // Add a log that needs chunking (25 bytes)
    let long_log = "1234567890123456789012345";
    streamer.add("step-1", long_log, "info");

    // Should have created 3 chunks
    assert_eq!(streamer.pending_count(), 3);
}

#[test]
fn test_manager() {
    let config = test_config();
    let mut manager = LogStreamerManager::new(config);

    let s1 = manager.get_or_create("job-1");
    let s2 = manager.get_or_create("job-2");
    let s1_again = manager.get_or_create("job-1");

    // Same job should return same streamer
    assert_eq!(s1, s1_again);
    assert_ne!(s1, s2);

    let jobs = manager.active_jobs();
    assert_eq!(jobs.len(), 2);
}

#[test]
fn test_chunk_boundary_not_chunked() {
    let config = LoggingConfig { chunk_size_bytes: 10, ..test_config() };
    let mut streamer = LogStreamer::new("job-1".to_string(), config);

    // Exactly the chunk bound: one entry, content unchanged.
    streamer.add("step-1", "1234567890", "info");
    let pending = streamer.get_pending();
    assert_eq!(pending.len(), 1);
    assert_eq!(pending[0].content, "1234567890");

    // One more character: two labelled chunks.
    streamer.add("step-1", "12345678901", "info");
    let pending = streamer.get_pending();
    assert_eq!(pending.len(), 3);
    assert_eq!(pending[1].content, "[1/2] 1234567890");
    assert_eq!(pending[2].content, "[2/2] 1");
}

#[test]
fn test_chunked_contents_and_partial_ack() {
    let config = LoggingConfig { chunk_size_bytes: 10, ..test_config() };
    let mut streamer = LogStreamer::new("job-1".to_string(), config);

    streamer.add("step-1", "1234567890123456789012345", "info");
    let pending = streamer.get_pending();
    assert_eq!(pending.len(), 3);
    assert_eq!(pending[0].sequence, 0);
    assert_eq!(pending[1].sequence, 1);
    assert_eq!(pending[2].sequence, 2);
    assert_eq!(pending[0].content, "[1/3] 1234567890");
    assert_eq!(pending[1].content, "[2/3] 1234567890");
    assert_eq!(pending[2].content, "[3/3] 12345");

    // Acknowledging the middle sequence leaves exactly one entry pending.
    streamer.acknowledge("step-1", 1);
    let pending = streamer.get_pending();
    assert_eq!(pending.len(), 1);
    assert_eq!(pending[0].content, "[3/3] 12345");
}

#[test]
fn test_buffer_threshold_flushes_with_admission() {
    let config = LoggingConfig { buffer_size: 3, ..test_config() };
    let mut streamer = LogStreamer::new("job-1".to_string(), config);

    assert!(streamer.add("step-1", "a", "info").flushed.is_empty());
    assert!(streamer.add("step-1", "b", "info").flushed.is_empty());
    assert_eq!(streamer.buffer_size(), 2);

    // The admission that reaches the threshold flushes in the same call.
    let outcome = streamer.add("step-1", "c", "info");
    assert_eq!(outcome.flushed.len(), 1);
    assert_eq!(batch_sequences(&outcome.flushed[0]), vec![0, 1, 2]);
    assert_eq!(streamer.buffer_size(), 0);
}

#[test]
fn test_cap_drops_oldest() {
    let config = LoggingConfig { max_pending_logs: 2, ..test_config() };
    let mut streamer = LogStreamer::new("job-1".to_string(), config);

    assert!(streamer.add("step-1", "a", "info").dropped.is_empty());
    assert!(streamer.add("step-1", "b", "info").dropped.is_empty());

    // The third admission finds the buffer at the hard cap and drops the
    // oldest buffered sequence.
    let outcome = streamer.add("step-1", "c", "info");
    assert_eq!(outcome.dropped, vec![0]);
    assert_eq!(streamer.buffer_size(), 2);
}

#[test]
fn test_add_flush_acknowledge_leaves_pending_empty() {
    let mut streamer = LogStreamer::new("job-1".to_string(), test_config());

    let seq = streamer.add("step-1", "payload", "info").sequence;
    let batch = streamer.flush();
    assert!(batch.is_some());
    assert_eq!(streamer.buffer_size(), 0);
    assert_eq!(streamer.pending_count(), 1);

    streamer.acknowledge("step-1", seq);
    assert_eq!(streamer.pending_count(), 0);
}

#[test]
fn test_acknowledge_is_idempotent() {
    let mut streamer = LogStreamer::new("job-1".to_string(), test_config());
    streamer.add("step-1", "Log 1", "info");
    streamer.add("step-1", "Log 2", "info");
    streamer.add("step-1", "Log 3", "info");

    streamer.acknowledge("step-1", 1);
    let after_first: Vec<u64> = streamer.get_pending().iter().map(|e| e.sequence).collect();
    streamer.acknowledge("step-1", 1);
    let after_second: Vec<u64> = streamer.get_pending().iter().map(|e| e.sequence).collect();

    assert_eq!(after_first, vec![2]);
    assert_eq!(after_first, after_second);
}

#[test]
fn test_resend_reemits_flushed_sequences() {
    let mut streamer = LogStreamer::new("job-1".to_string(), test_config());
    streamer.add("step-1", "Log 1", "info");
    streamer.add("step-1", "Log 2", "info");

    let batch = streamer.flush().expect("a non-empty buffer flushes a batch");
    let flushed = batch_sequences(&batch);

    // After the flush the batch is unacknowledged; a reconnect re-emits
    // exactly the same sequences, in order.
    let resent = streamer.resend_pending().expect("pending entries to resend");
    assert_eq!(batch_sequences(&resent), flushed);
    assert_eq!(flushed, vec![0, 1]);
}

#[test]
fn test_acknowledge_other_step_keeps_entries() {
    let mut streamer = LogStreamer::new("job-1".to_string(), test_config());
    streamer.add("step-1", "Log 1", "info");
    streamer.add("step-2", "Log 2", "info");

    streamer.acknowledge("step-1", 5);
    let remaining: Vec<String> =
        streamer.get_pending().iter().map(|e| e.step_id.clone()).collect();
    assert_eq!(remaining, vec!["step-2".to_string()]);
}

#[test]
fn test_job_level_ack_clears_across_steps() {
    let mut streamer = LogStreamer::new("job-1".to_string(), test_config());
    streamer.add("step-1", "Log 1", "info");
    streamer.add("step-2", "Log 2", "info");
    streamer.add("step-2", "Log 3", "info");

    // The job-level acknowledgement ignores step boundaries: nothing at or
    // below the acknowledged sequence stays persisted.
    streamer.acknowledge_all(1);
    let remaining: Vec<u64> = streamer.get_pending().iter().map(|e| e.sequence).collect();
    assert_eq!(remaining, vec![2]);
}

#[test]
fn test_interval_flush_gate() {
    let mut streamer = LogStreamer::new("job-1".to_string(), test_config());
    streamer.add("step-1", "Log 1", "info");

    // Immediately after the last flush stamp the interval has not passed:
    // nothing moves.
    assert!(streamer.flush_if_needed_at(i64::MIN).is_none());
    assert_eq!(streamer.buffer_size(), 1);

    // Far past the interval the flush is due and the buffer drains.
    let batch = streamer.flush_if_needed_at(i64::MAX).expect("the interval has passed");
    match batch {
        OutgoingMessage::LogBatch { logs, .. } => assert_eq!(logs.len(), 1),
        _ => panic!("expected a log batch"),
    }
    assert_eq!(streamer.buffer_size(), 0);

    // An empty buffer never flushes, however late the clock runs.
    assert!(streamer.flush_if_needed_at(i64::MAX).is_none());
}
