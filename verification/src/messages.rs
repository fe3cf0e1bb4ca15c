//! The control-plane wire protocol: outbound and inbound message shapes and
//! the constructors the rest of the library uses to build outbound messages.
//! Serialization of these values is an edge concern and stays outside the
//! library; timestamps are carried as milliseconds since the epoch.

use vstd::prelude::*;

use crate::kvmap::StrMap;

verus! {

/// System information carried by heartbeats; percentages are integers.
pub struct SystemInfo {
    pub os: String,
    pub arch: String,
    pub cpu_count: usize,
    pub cpu_usage_percent: u64,
    pub memory_total_mb: u64,
    pub memory_used_mb: u64,
    pub memory_usage_percent: u64,
}

/// A log entry as it travels to the control plane.
pub struct LogEntry {
    pub step_id: String,
    pub timestamp_ms: i64,
    pub content: String,
    pub level: String,
    pub sequence: u64,
}

/// Messages sent from runner to control plane.
pub enum OutgoingMessage {
    Heartbeat { runner_id: String, status: String, current_jobs: u32, system_info: SystemInfo },
    Log {
        job_id: String,
        step_id: String,
        timestamp_ms: i64,
        content: String,
        level: String,
        sequence: Option<u64>,
    },
    LogBatch { job_id: String, logs: Vec<LogEntry> },
    StatusUpdate {
        entity_type: String,
        entity_id: String,
        status: String,
        exit_code: Option<i32>,
        outputs: StrMap,
    },
    JobComplete { job_id: String, status: String, outputs: StrMap },
    ArtifactReady {
        job_id: String,
        artifact_name: String,
        artifact_path: String,
        size_bytes: u64,
        checksum: String,
    },
    RunnerOffline { runner_id: String, reason: String },
}

/// Messages received from the control plane.
#[allow(inconsistent_fields)]
pub enum IncomingMessage {
    Connected { runner_id: String },
    HeartbeatAck { timestamp: String },
    JobAssignment { job: JobSpec },
    JobCancel { job_id: String },
    LogAck { job_id: String, last_sequence: u64 },
    Error { message: String },
    Pong { timestamp: i64 },
}

/// Job specification received from the control plane; immutable once received.
pub struct JobSpec {
    pub job_id: String,
    pub execution_id: String,
    pub name: String,
    pub steps: Vec<StepSpec>,
    pub environment: StrMap,
    pub secrets: StrMap,
    pub container: Option<ContainerSpec>,
    pub timeout_minutes: u32,
    pub workspace: WorkspaceSpec,
}

/// Step specification.
pub struct StepSpec {
    pub step_id: String,
    pub name: String,
    pub run: Option<String>,
    pub uses: Option<String>,
    pub with_inputs: StrMap,
    pub env: StrMap,
    pub working_directory: Option<String>,
    pub shell: String,
    pub continue_on_error: bool,
    pub timeout_minutes: u32,
}

/// Container specification.
pub struct ContainerSpec {
    pub image: String,
    pub env: StrMap,
    pub volumes: Vec<String>,
    pub options: Option<String>,
}

/// Workspace specification.
pub struct WorkspaceSpec {
    pub path: String,
    pub repository_url: Option<String>,
    pub commit_sha: Option<String>,
    pub branch: Option<String>,
}

/// Shell assumed when a step names none.
pub fn default_shell() -> (r: String)
    ensures
        r@ == "bash"@,
{
    "bash".to_owned()
}

/// Step timeout in minutes assumed when a step names none.
pub fn default_timeout() -> (r: u32)
    ensures
        r == 60,
{
    60
}

/// A heartbeat: `busy` while jobs run, `online` otherwise.
pub fn heartbeat_message(runner_id: &str, current_jobs: u32, system_info: SystemInfo) -> (r:
    OutgoingMessage)
    ensures
        r matches OutgoingMessage::Heartbeat {
            runner_id: rid,
            status,
            current_jobs: cj,
            system_info: si,
        } && rid@ == runner_id@ && cj == current_jobs && si == system_info && (current_jobs > 0
            ==> status@ == "busy"@) && (current_jobs == 0 ==> status@ == "online"@),
{
    OutgoingMessage::Heartbeat {
        runner_id: runner_id.to_owned(),
        status: if current_jobs > 0 {
            "busy".to_owned()
        } else {
            "online".to_owned()
        },
        current_jobs,
        system_info,
    }
}

/// A single log message, with an optional sequence number.
pub fn log_message(
    job_id: &str,
    step_id: &str,
    timestamp_ms: i64,
    content: &str,
    level: &str,
    sequence: Option<u64>,
) -> (r: OutgoingMessage)
    ensures
        r matches OutgoingMessage::Log {
            job_id: j,
            step_id: s,
            timestamp_ms: t,
            content: c,
            level: l,
            sequence: q,
        } && j@ == job_id@ && s@ == step_id@ && t == timestamp_ms && c@ == content@ && l@ == level@
            && q == sequence,
{
    OutgoingMessage::Log {
        job_id: job_id.to_owned(),
        step_id: step_id.to_owned(),
        timestamp_ms,
        content: content.to_owned(),
        level: level.to_owned(),
        sequence,
    }
}

/// A batch of log entries for one job.
pub fn log_batch_message(job_id: &str, logs: Vec<LogEntry>) -> (r: OutgoingMessage)
    ensures
        r matches OutgoingMessage::LogBatch { job_id: j, logs: l } && j@ == job_id@ && l == logs,
{
    OutgoingMessage::LogBatch { job_id: job_id.to_owned(), logs }
}

/// A status update for a job or a step.
pub fn status_update_message(
    entity_type: &str,
    entity_id: &str,
    status: &str,
    exit_code: Option<i32>,
    outputs: StrMap,
) -> (r: OutgoingMessage)
    ensures
        r matches OutgoingMessage::StatusUpdate {
            entity_type: et,
            entity_id: ei,
            status: st,
            exit_code: ec,
            outputs: o,
        } && et@ == entity_type@ && ei@ == entity_id@ && st@ == status@ && ec == exit_code && o
            == outputs,
{
    OutgoingMessage::StatusUpdate {
        entity_type: entity_type.to_owned(),
        entity_id: entity_id.to_owned(),
        status: status.to_owned(),
        exit_code,
        outputs,
    }
}

/// The farewell sent on graceful shutdown.
pub fn offline_message(runner_id: &str, reason: &str) -> (r: OutgoingMessage)
    ensures
        r matches OutgoingMessage::RunnerOffline { runner_id: rid, reason: re } && rid@
            == runner_id@ && re@ == reason@,
{
    OutgoingMessage::RunnerOffline { runner_id: runner_id.to_owned(), reason: reason.to_owned() }
}

} // verus!
