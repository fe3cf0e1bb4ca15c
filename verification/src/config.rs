//! Runner settings: the configuration domains and their default values.
//!
//! Loading from the environment or a file is I/O and lives outside the
//! library; these types carry the values the core logic consumes.
//! Ratios that the configuration exposes (the reconnect multiplier, the
//! container CPU limit) are held in integer fixed-point form: the multiplier
//! in tenths, the CPU limit in thousandths of a core.

use vstd::prelude::*;

verus! {

/// Runner identification and capabilities.
#[derive(Clone)]
pub struct RunnerConfig {
    /// Stable runner identity.
    pub id: String,
    /// Human-readable runner name.
    pub name: String,
    /// Shared secret used to authenticate against the control plane.
    pub token: String,
    /// Capability tags for job matching.
    pub labels: Vec<String>,
    /// Admission bound on concurrently running jobs.
    pub max_concurrent_jobs: usize,
    /// Heartbeat interval in seconds.
    pub heartbeat_interval_secs: u64,
}

/// Control plane connection settings.
#[derive(Clone)]
pub struct ControlPlaneConfig {
    /// HTTP API base URL.
    pub api_url: String,
    /// WebSocket base URL.
    pub ws_url: String,
    /// Connection timeout in seconds.
    pub timeout_secs: u64,
    /// Reconnection delay in seconds.
    pub reconnect_delay_secs: u64,
}

/// Executor configuration.
#[derive(Clone)]
pub struct ExecutorConfig {
    /// Enabled executor kinds, by name.
    pub enabled: Vec<String>,
    /// Container engine settings.
    pub docker: DockerConfig,
    /// Host shell settings.
    pub shell: ShellConfig,
}

/// Container engine configuration.
#[derive(Clone)]
pub struct DockerConfig {
    /// Engine socket path or address.
    pub socket: String,
    /// Default network mode for containers.
    pub network_mode: String,
    /// Memory limit in bytes (0 = unlimited).
    pub memory_limit: u64,
    /// CPU limit in thousandths of a core (0 = unlimited).
    pub cpu_limit_milli: u64,
    /// Image pull policy: `always`, `if-not-present` or `never`.
    pub pull_policy: String,
}

/// Host shell configuration.
#[derive(Clone)]
pub struct ShellConfig {
    /// Shell used when a step names no known shell.
    pub default_shell: String,
    /// Whether to remove the workspace after a job.
    pub cleanup_workspace: bool,
}

/// Workspace directory layout.
#[derive(Clone)]
pub struct WorkspaceConfig {
    /// Base path under which per-job workspaces are created.
    pub base_path: String,
    /// Artifact storage path.
    pub artifact_path: String,
    /// Cache path.
    pub cache_path: String,
}

/// Session (duplex channel) configuration.
#[derive(Clone)]
pub struct WebSocketConfig {
    /// Initial reconnect delay in milliseconds.
    pub reconnect_initial_delay_ms: u64,
    /// Maximum reconnect delay in milliseconds.
    pub reconnect_max_delay_ms: u64,
    /// Backoff multiplier in tenths (20 = grow by a factor of two).
    pub reconnect_multiplier_tenths: u64,
    /// Maximum reconnect attempts (0 = unlimited).
    pub max_reconnect_attempts: u32,
    /// Keepalive ping interval in seconds.
    pub heartbeat_interval_secs: u64,
    /// Silence span after which the connection counts as dead, in seconds.
    pub heartbeat_timeout_secs: u64,
    /// Whether the keepalive ping runs at all.
    pub enable_heartbeat: bool,
}

/// Log pipeline configuration.
#[derive(Clone)]
pub struct LoggingConfig {
    /// Buffered entries that trigger a flush.
    pub buffer_size: usize,
    /// Largest log content carried by a single entry before chunking.
    /// The bound is counted in characters here, which coincides with bytes
    /// for ASCII content; chunk boundaries never split a character.
    pub chunk_size_bytes: usize,
    /// Interval-driven flush period in milliseconds.
    pub flush_interval_ms: u64,
    /// Whether flushed entries are retained until acknowledged.
    pub enable_persistence: bool,
    /// Hard cap on buffered entries before the oldest is dropped.
    pub max_pending_logs: usize,
}

/// Job execution configuration.
#[derive(Clone)]
pub struct JobConfig {
    /// Default job timeout in minutes.
    pub default_timeout_minutes: u32,
    /// Default step timeout in minutes.
    pub default_step_timeout_minutes: u32,
    /// Maximum attempts for a failing job.
    pub max_retries: u32,
    /// Base retry delay in seconds.
    pub retry_delay_secs: u64,
    /// Graceful shutdown drain budget in seconds.
    pub shutdown_timeout_secs: u64,
}

/// The whole runner configuration.
#[derive(Clone)]
pub struct Settings {
    pub runner: RunnerConfig,
    pub control_plane: ControlPlaneConfig,
    pub executor: ExecutorConfig,
    pub workspace: WorkspaceConfig,
    pub websocket: WebSocketConfig,
    pub logging: LoggingConfig,
    pub job: JobConfig,
}

pub fn default_max_concurrent_jobs() -> (r: usize)
    ensures
        r == 2,
{
    2
}

pub fn default_heartbeat_interval() -> (r: u64)
    ensures
        r == 30,
{
    30
}

pub fn default_timeout() -> (r: u64)
    ensures
        r == 30,
{
    30
}

pub fn default_reconnect_delay() -> (r: u64)
    ensures
        r == 5,
{
    5
}

pub fn default_executors() -> (r: Vec<String>)
    ensures
        r@.len() == 1,
        r@[0]@ == "shell"@,
{
    let mut v: Vec<String> = Vec::new();
    v.push("shell".to_owned());
    v
}

pub fn default_docker_socket() -> (r: String)
    ensures
        r@ == "/var/run/docker.sock"@,
{
    "/var/run/docker.sock".to_owned()
}

pub fn default_network_mode() -> (r: String)
    ensures
        r@ == "bridge"@,
{
    "bridge".to_owned()
}

pub fn default_pull_policy() -> (r: String)
    ensures
        r@ == "if-not-present"@,
{
    "if-not-present".to_owned()
}

pub fn default_shell() -> (r: String)
    ensures
        r@ == "bash"@,
{
    "bash".to_owned()
}

pub fn default_workspace_path() -> (r: String)
    ensures
        r@ == "/tmp/muelsyse/workspaces"@,
{
    "/tmp/muelsyse/workspaces".to_owned()
}

pub fn default_artifact_path() -> (r: String)
    ensures
        r@ == "/tmp/muelsyse/artifacts"@,
{
    "/tmp/muelsyse/artifacts".to_owned()
}

pub fn default_cache_path() -> (r: String)
    ensures
        r@ == "/tmp/muelsyse/cache"@,
{
    "/tmp/muelsyse/cache".to_owned()
}

pub fn default_reconnect_initial_delay_ms() -> (r: u64)
    ensures
        r == 1000,
{
    1000
}

pub fn default_reconnect_max_delay_ms() -> (r: u64)
    ensures
        r == 60000,
{
    60000
}

/// Default backoff multiplier, in tenths: a factor of two.
pub fn default_reconnect_multiplier() -> (r: u64)
    ensures
        r == 20,
{
    20
}

pub fn default_heartbeat_interval_secs() -> (r: u64)
    ensures
        r == 30,
{
    30
}

pub fn default_heartbeat_timeout_secs() -> (r: u64)
    ensures
        r == 10,
{
    10
}

pub fn default_enable_heartbeat() -> (r: bool)
    ensures
        r,
{
    true
}

pub fn default_log_buffer_size() -> (r: usize)
    ensures
        r == 100,
{
    100
}

pub fn default_log_chunk_size() -> (r: usize)
    ensures
        r == 65536,
{
    65536
}

pub fn default_log_flush_interval_ms() -> (r: u64)
    ensures
        r == 1000,
{
    1000
}

pub fn default_enable_log_persistence() -> (r: bool)
    ensures
        r,
{
    true
}

pub fn default_max_pending_logs() -> (r: usize)
    ensures
        r == 10000,
{
    10000
}

pub fn default_job_timeout_minutes() -> (r: u32)
    ensures
        r == 360,
{
    360
}

pub fn default_step_timeout_minutes() -> (r: u32)
    ensures
        r == 60,
{
    60
}

pub fn default_max_retries() -> (r: u32)
    ensures
        r == 3,
{
    3
}

pub fn default_retry_delay_secs() -> (r: u64)
    ensures
        r == 5,
{
    5
}

pub fn default_shutdown_timeout_secs() -> (r: u64)
    ensures
        r == 300,
{
    300
}

impl Default for WebSocketConfig {
    fn default() -> (r: Self)
        ensures
            r.reconnect_initial_delay_ms == 1000,
            r.reconnect_max_delay_ms == 60000,
            r.reconnect_multiplier_tenths == 20,
            r.max_reconnect_attempts == 0,
            r.heartbeat_interval_secs == 30,
            r.heartbeat_timeout_secs == 10,
            r.enable_heartbeat,
    {
        WebSocketConfig {
            reconnect_initial_delay_ms: default_reconnect_initial_delay_ms(),
            reconnect_max_delay_ms: default_reconnect_max_delay_ms(),
            reconnect_multiplier_tenths: default_reconnect_multiplier(),
            max_reconnect_attempts: 0,
            heartbeat_interval_secs: default_heartbeat_interval_secs(),
            heartbeat_timeout_secs: default_heartbeat_timeout_secs(),
            enable_heartbeat: default_enable_heartbeat(),
        }
    }
}

impl Default for LoggingConfig {
    fn default() -> (r: Self)
        ensures
            r.buffer_size == 100,
            r.chunk_size_bytes == 65536,
            r.flush_interval_ms == 1000,
            r.enable_persistence,
            r.max_pending_logs == 10000,
    {
        LoggingConfig {
            buffer_size: default_log_buffer_size(),
            chunk_size_bytes: default_log_chunk_size(),
            flush_interval_ms: default_log_flush_interval_ms(),
            enable_persistence: default_enable_log_persistence(),
            max_pending_logs: default_max_pending_logs(),
        }
    }
}

impl Default for JobConfig {
    fn default() -> (r: Self)
        ensures
            r.default_timeout_minutes == 360,
            r.default_step_timeout_minutes == 60,
            r.max_retries == 3,
            r.retry_delay_secs == 5,
            r.shutdown_timeout_secs == 300,
    {
        JobConfig {
            default_timeout_minutes: default_job_timeout_minutes(),
            default_step_timeout_minutes: default_step_timeout_minutes(),
            max_retries: default_max_retries(),
            retry_delay_secs: default_retry_delay_secs(),
            shutdown_timeout_secs: default_shutdown_timeout_secs(),
        }
    }
}

impl Default for DockerConfig {
    fn default() -> (r: Self)
        ensures
            r.socket@ == "/var/run/docker.sock"@,
            r.network_mode@ == "bridge"@,
            r.memory_limit == 0,
            r.cpu_limit_milli == 0,
            r.pull_policy@ == "if-not-present"@,
    {
        DockerConfig {
            socket: default_docker_socket(),
            network_mode: default_network_mode(),
            memory_limit: 0,
            cpu_limit_milli: 0,
            pull_policy: default_pull_policy(),
        }
    }
}

impl Default for ShellConfig {
    fn default() -> (r: Self)
        ensures
            r.default_shell@ == "bash"@,
            !r.cleanup_workspace,
    {
        ShellConfig { default_shell: default_shell(), cleanup_workspace: false }
    }
}

} // verus!
