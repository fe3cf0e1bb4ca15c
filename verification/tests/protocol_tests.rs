use runners::config::{
    default_enable_heartbeat, default_log_buffer_size, default_log_chunk_size,
    default_max_concurrent_jobs, default_max_retries, default_reconnect_initial_delay_ms,
    default_reconnect_max_delay_ms, default_reconnect_multiplier, default_shutdown_timeout_secs,
    ControlPlaneConfig, JobConfig, LoggingConfig, RunnerConfig, WebSocketConfig,
};
use runners::executor::ExecutionResult;
use runners::job::append_step_output;
use runners::kvmap::StrMap;
use runners::log::LogStreamer;
use runners::messages::{heartbeat_message, offline_message, OutgoingMessage, SystemInfo};
use runners::session::connect_url;

fn system_info() -> SystemInfo {
    SystemInfo {
        os: "linux".to_string(),
        arch: "x86_64".to_string(),
        cpu_count: 4,
        cpu_usage_percent: 10,
        memory_total_mb: 2048,
        memory_used_mb: 1024,
        memory_usage_percent: 50,
    }
}

#[test]
fn test_connect_url_carries_identity_and_token() {
    let control_plane = ControlPlaneConfig {
        api_url: "http://localhost:8000".to_string(),
        ws_url: "ws://localhost:8001".to_string(),
        timeout_secs: 30,
        reconnect_delay_secs: 5,
    };
    let runner = RunnerConfig {
        id: "runner-1".to_string(),
        name: "r".to_string(),
        token: "SECRET-REDACTED".to_string(),
        labels: Vec::new(),
        max_concurrent_jobs: 2,
        heartbeat_interval_secs: 30,
    };
    assert_eq!(
        connect_url(&control_plane, &runner),
        "ws://localhost:8001/ws/runner/runner-1/?token=SECRET-REDACTED"
    );
}

#[test]
fn test_heartbeat_status_follows_load() {
    match heartbeat_message("runner-1", 0, system_info()) {
        OutgoingMessage::Heartbeat { runner_id, status, current_jobs, .. } => {
            assert_eq!(runner_id, "runner-1");
            assert_eq!(status, "online");
            assert_eq!(current_jobs, 0);
        }
        _ => panic!("expected a heartbeat"),
    }
    match heartbeat_message("runner-1", 2, system_info()) {
        OutgoingMessage::Heartbeat { status, .. } => assert_eq!(status, "busy"),
        _ => panic!("expected a heartbeat"),
    }
}

#[test]
fn test_offline_message_shape() {
    match offline_message("runner-1", "Graceful shutdown") {
        OutgoingMessage::RunnerOffline { runner_id, reason } => {
            assert_eq!(runner_id, "runner-1");
            assert_eq!(reason, "Graceful shutdown");
        }
        _ => panic!("expected the farewell"),
    }
}

#[test]
fn test_default_configuration_values() {
    assert_eq!(default_max_concurrent_jobs(), 2);
    assert_eq!(default_reconnect_initial_delay_ms(), 1000);
    assert_eq!(default_reconnect_max_delay_ms(), 60000);
    assert_eq!(default_reconnect_multiplier(), 20);
    assert!(default_enable_heartbeat());
    assert_eq!(default_log_buffer_size(), 100);
    assert_eq!(default_log_chunk_size(), 65536);
    assert_eq!(default_max_retries(), 3);
    assert_eq!(default_shutdown_timeout_secs(), 300);

    let ws = WebSocketConfig::default();
    assert_eq!(ws.max_reconnect_attempts, 0);
    assert_eq!(ws.heartbeat_timeout_secs, 10);

    let logging = LoggingConfig::default();
    assert_eq!(logging.flush_interval_ms, 1000);
    assert!(logging.enable_persistence);
    assert_eq!(logging.max_pending_logs, 10000);

    let job = JobConfig::default();
    assert_eq!(job.default_timeout_minutes, 360);
    assert_eq!(job.default_step_timeout_minutes, 60);
    assert_eq!(job.retry_delay_secs, 5);
}

#[test]
fn test_step_output_enters_stream_masked() {
    let mut streamer = LogStreamer::new("job-1".to_string(), LoggingConfig::default());
    let mut secrets = StrMap::new();
    secrets.insert("TOKEN".to_string(), "hunter2".to_string());

    let result = ExecutionResult {
        exit_code: 0,
        stdout: "logging in with hunter2\nok".to_string(),
        stderr: "warning: hunter2 is weak".to_string(),
        duration_ms: 5,
        timed_out: false,
    };

    let outcome = append_step_output(&mut streamer, "step-1", &result, &secrets)
        .expect("the sequence budget is ample");

    // Standard output and standard error were admitted and flushed; no
    // outbound batch carries the secret value, and nothing was dropped.
    assert!(outcome.dropped.is_empty());
    assert_eq!(outcome.batches.len(), 1);
    for msg in &outcome.batches {
        match msg {
            OutgoingMessage::LogBatch { job_id, logs } => {
                assert_eq!(job_id, "job-1");
                assert_eq!(logs.len(), 2);
                assert_eq!(logs[0].level, "info");
                assert_eq!(logs[1].level, "error");
                for entry in logs {
                    assert!(!entry.content.contains("hunter2"));
                    assert!(entry.content.contains("***"));
                }
            }
            _ => panic!("only log batches leave the pipeline"),
        }
    }
    assert_eq!(streamer.pending_count(), 2);
}
