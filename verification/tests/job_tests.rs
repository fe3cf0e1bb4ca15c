use runners::config::{
    ControlPlaneConfig, ExecutorConfig, JobConfig, LoggingConfig, RunnerConfig, Settings,
    WebSocketConfig, WorkspaceConfig,
};
use runners::executor::ExecutionResult;
use runners::job::{
    classify_outcome, drain_decision, failure_message, job_timeout_ms, retry_delay_secs,
    step_plan, step_proceeds, step_status_of, workspace_path, DrainStep, JobContext, JobRunner,
    JobStatus, RetryConfig, RunnerAction, StepLoopOutcome, StepPlan, StepStatus,
};
use runners::kvmap::StrMap;
use runners::messages::{IncomingMessage, JobSpec, OutgoingMessage, StepSpec, WorkspaceSpec};
use runners::outputs::parse_outputs;

fn settings_with_capacity(max_concurrent_jobs: usize) -> Settings {
    Settings {
        runner: RunnerConfig {
            id: "runner-1".to_string(),
            name: "test-runner".to_string(),
            token: "token".to_string(),
            labels: Vec::new(),
            max_concurrent_jobs,
            heartbeat_interval_secs: 30,
        },
        control_plane: ControlPlaneConfig {
            api_url: "http://localhost:8000".to_string(),
            ws_url: "ws://localhost:8001".to_string(),
            timeout_secs: 30,
            reconnect_delay_secs: 5,
        },
        executor: ExecutorConfig {
            enabled: vec!["shell".to_string()],
            docker: Default::default(),
            shell: Default::default(),
        },
        workspace: WorkspaceConfig {
            base_path: "/tmp/muelsyse/workspaces".to_string(),
            artifact_path: "/tmp/muelsyse/artifacts".to_string(),
            cache_path: "/tmp/muelsyse/cache".to_string(),
        },
        websocket: Default::default(),
        logging: Default::default(),
        job: Default::default(),
    }
}

fn job_with_id(job_id: &str) -> JobSpec {
    JobSpec {
        job_id: job_id.to_string(),
        execution_id: "exec-1".to_string(),
        name: "job".to_string(),
        steps: Vec::new(),
        environment: StrMap::new(),
        secrets: StrMap::new(),
        container: None,
        timeout_minutes: 0,
        workspace: WorkspaceSpec {
            path: "w".to_string(),
            repository_url: None,
            commit_sha: None,
            branch: None,
        },
    }
}

fn shell_step(step_id: &str, continue_on_error: bool) -> StepSpec {
    StepSpec {
        step_id: step_id.to_string(),
        name: step_id.to_string(),
        run: Some("echo hello".to_string()),
        uses: None,
        with_inputs: StrMap::new(),
        env: StrMap::new(),
        working_directory: None,
        shell: "bash".to_string(),
        continue_on_error,
        timeout_minutes: 1,
    }
}

fn result_with_exit(exit_code: i32) -> ExecutionResult {
    ExecutionResult {
        exit_code,
        stdout: String::new(),
        stderr: String::new(),
        duration_ms: 10,
        timed_out: false,
    }
}

#[test]
fn test_parse_outputs() {
    let stdout = r#"
Hello World
::set-output name=result::success
::set-output name=count::42
BUILD_ID=123
"#;

    let outputs = parse_outputs(stdout);
    assert_eq!(outputs.get("result").map(|s| s.as_str()), Some("success"));
    assert_eq!(outputs.get("count").map(|s| s.as_str()), Some("42"));
    assert_eq!(outputs.get("BUILD_ID").map(|s| s.as_str()), Some("123"));
}

#[test]
fn test_job_status_display() {
    assert_eq!(JobStatus::Running.to_string(), "running");
    assert_eq!(JobStatus::Success.to_string(), "success");
    assert_eq!(JobStatus::Failed.to_string(), "failed");
    assert_eq!(JobStatus::Timeout.to_string(), "timeout");
    assert_eq!(JobStatus::Cancelled.to_string(), "cancelled");
}

#[test]
fn test_retry_config_from_job_config() {
    let job_config = JobConfig {
        default_timeout_minutes: 60,
        default_step_timeout_minutes: 10,
        max_retries: 5,
        retry_delay_secs: 10,
        shutdown_timeout_secs: 300,
    };

    let retry_config = RetryConfig::from(&job_config);
    assert_eq!(retry_config.max_attempts, 5);
    assert_eq!(retry_config.delay_secs, 10);
}

#[test]
fn test_job_context_cancellation() {
    let mut ctx = JobContext::new("test-job".to_string());

    assert!(!ctx.is_cancelled());

    ctx.cancel();

    assert!(ctx.is_cancelled());
}

#[test]
fn test_capacity_reject() {
    let mut runner = JobRunner::new(settings_with_capacity(1));

    // First assignment is admitted and started.
    let actions = runner.handle_message(IncomingMessage::JobAssignment { job: job_with_id("A") });
    assert_eq!(actions.len(), 1);
    match &actions[0] {
        RunnerAction::StartJob(job) => assert_eq!(job.job_id, "A"),
        _ => panic!("the first assignment must start"),
    }
    assert_eq!(runner.current_job_count(), 1);
    assert!(runner.is_at_capacity());

    // The second assignment is rejected with the capacity reason.
    let actions = runner.handle_message(IncomingMessage::JobAssignment { job: job_with_id("B") });
    assert_eq!(actions.len(), 1);
    match &actions[0] {
        RunnerAction::Send(OutgoingMessage::StatusUpdate {
            entity_type,
            entity_id,
            status,
            exit_code,
            outputs,
        }) => {
            assert_eq!(entity_type, "job");
            assert_eq!(entity_id, "B");
            assert_eq!(status, "rejected");
            assert!(exit_code.is_none());
            assert_eq!(outputs.get("reason").map(|s| s.as_str()), Some("runner_at_capacity"));
        }
        _ => panic!("the second assignment must be rejected"),
    }
    assert_eq!(runner.current_job_count(), 1);

    // Finishing the job frees the slot exactly once.
    runner.job_finished("A");
    assert_eq!(runner.current_job_count(), 0);
    assert!(!runner.is_at_capacity());
}

#[test]
fn test_cancel_request_marks_context() {
    let mut runner = JobRunner::new(settings_with_capacity(2));
    runner.handle_message(IncomingMessage::JobAssignment { job: job_with_id("A") });
    assert!(!runner.is_job_cancelled("A"));

    let actions = runner.handle_message(IncomingMessage::JobCancel { job_id: "A".to_string() });
    assert!(actions.is_empty());
    assert!(runner.is_job_cancelled("A"));
    assert!(!runner.is_job_cancelled("B"));
}

#[test]
fn test_cancelled_step_loop_stops_before_next_step() {
    let mut job = job_with_id("A");
    job.steps.push(shell_step("s1", false));
    job.steps.push(shell_step("s2", false));
    let config = JobConfig::default();
    let jt = job_timeout_ms(&job, &config);

    // Mid-job cancellation: the next step is not started and the job is
    // classified cancelled.
    match step_plan(&job, 1, 1000, jt, true, &config) {
        StepPlan::CancelledOut => {}
        _ => panic!("cancellation must stop the loop"),
    }
    let (status, _) = classify_outcome(StepLoopOutcome::Cancelled, true);
    assert_eq!(status, JobStatus::Cancelled);
}

#[test]
fn test_continue_on_error_advances_loop() {
    let step = shell_step("s1", true);
    let result = result_with_exit(2);

    // The step is marked failed but the loop advances.
    assert_eq!(step_status_of(&result), StepStatus::Failed);
    assert!(step_proceeds(&step, &result));

    // Without continue-on-error the failure propagates.
    let strict = shell_step("s2", false);
    assert!(!step_proceeds(&strict, &result));
    assert!(step_proceeds(&strict, &result_with_exit(0)));
}

#[test]
fn test_step_timeout_budget() {
    let mut job = job_with_id("A");
    job.steps.push(shell_step("s1", false));
    let config = JobConfig::default();
    let jt = job_timeout_ms(&job, &config);
    assert_eq!(jt, 360 * 60000);

    // The step budget is its own timeout, clipped to what remains of the
    // job budget.
    match step_plan(&job, 0, 0, jt, false, &config) {
        StepPlan::Run(budget) => assert_eq!(budget, 60 * 60000),
        _ => panic!("the first step must run"),
    }
    match step_plan(&job, 0, jt - 1000, jt, false, &config) {
        StepPlan::Run(budget) => assert_eq!(budget, 1000),
        _ => panic!("the step must run under the remaining budget"),
    }
    match step_plan(&job, 0, jt + 1, jt, false, &config) {
        StepPlan::JobTimedOut => {}
        _ => panic!("past the job budget the loop times out"),
    }
    match step_plan(&job, 1, 0, jt, false, &config) {
        StepPlan::Done => {}
        _ => panic!("past the last step the job is done"),
    }
}

#[test]
fn test_classify_step_failure() {
    let (status, outputs) =
        classify_outcome(StepLoopOutcome::StepFailed("boom".to_string()), false);
    assert_eq!(status, JobStatus::Failed);
    assert_eq!(outputs.get("error").map(|s| s.as_str()), Some("boom"));

    let (status, _) = classify_outcome(StepLoopOutcome::TimedOut, false);
    assert_eq!(status, JobStatus::Timeout);
}

#[test]
fn test_retry_backoff_delays() {
    let config = RetryConfig { max_attempts: 3, delay_secs: 5, backoff_multiplier: 2 };
    assert_eq!(retry_delay_secs(&config, 0), 5);
    assert_eq!(retry_delay_secs(&config, 1), 10);
    assert_eq!(retry_delay_secs(&config, 2), 20);
}

#[test]
fn test_failure_message_format() {
    assert_eq!(failure_message(3, "boom"), "Failed after 3 attempts: boom");
}

#[test]
fn test_drain_decision_steps() {
    match drain_decision(0, 0, 300) {
        DrainStep::AllDone => {}
        _ => panic!("no jobs means the drain is done"),
    }
    match drain_decision(2, 100, 300) {
        DrainStep::KeepWaiting => {}
        _ => panic!("within the budget the drain waits"),
    }
    match drain_decision(2, 301, 300) {
        DrainStep::CancelRemaining => {}
        _ => panic!("past the budget the rest is cancelled"),
    }
}

#[test]
fn test_workspace_path_layout() {
    assert_eq!(workspace_path("/tmp/muelsyse/workspaces", "job-1"), "/tmp/muelsyse/workspaces/job-1");
}

#[test]
fn test_parse_outputs_ignores_spaced_keys() {
    let outputs = parse_outputs("note: this = that\nGOOD=1\n::bad=skip");
    assert!(outputs.get("note: this").is_none());
    assert_eq!(outputs.get("GOOD").map(|s| s.as_str()), Some("1"));
    assert!(outputs.get("::bad").is_none());
}

#[test]
fn test_parse_outputs_later_value_wins() {
    let outputs = parse_outputs("K=1\nK=2");
    assert_eq!(outputs.get("K").map(|s| s.as_str()), Some("2"));
}

#[test]
fn test_log_ack_message_reaches_streamer() {
    let mut runner = JobRunner::new(settings_with_capacity(2));
    let result = ExecutionResult {
        exit_code: 0,
        stdout: "hello".to_string(),
        stderr: String::new(),
        duration_ms: 1,
        timed_out: false,
    };
    runner
        .append_job_output("A", "step-1", &result, &StrMap::new())
        .expect("the sequence budget is ample");

    let mut streamer = runner.log_manager.remove("A").expect("the job has a streamer");
    assert_eq!(streamer.pending_count(), 1);
    runner.log_manager.adopt(streamer);

    let actions =
        runner.handle_message(IncomingMessage::LogAck { job_id: "A".to_string(), last_sequence: 0 });
    assert!(actions.is_empty());

    let streamer = runner.log_manager.remove("A").expect("the job has a streamer");
    assert_eq!(streamer.pending_count(), 0);
}

#[test]
fn test_successful_shell_step_reports_outputs() {
    let step = shell_step("s1", false);
    let result = ExecutionResult {
        exit_code: 0,
        stdout: "hello\n::set-output name=k::v".to_string(),
        stderr: String::new(),
        duration_ms: 3,
        timed_out: false,
    };

    let (status, msg, outs) = runners::job::step_terminal_update(&step, &result);
    assert_eq!(status, StepStatus::Success);
    assert_eq!(outs.get("k").map(|s| s.as_str()), Some("v"));
    match msg {
        OutgoingMessage::StatusUpdate { entity_type, entity_id, status, exit_code, outputs } => {
            assert_eq!(entity_type, "step");
            assert_eq!(entity_id, "s1");
            assert_eq!(status, "success");
            assert_eq!(exit_code, Some(0));
            assert_eq!(outputs.get("k").map(|s| s.as_str()), Some("v"));
        }
        _ => panic!("expected a status update"),
    }

    // The job terminal status carries the merged outputs.
    let (job_status, job_outputs) = classify_outcome(StepLoopOutcome::Completed(outs), false);
    assert_eq!(job_status, JobStatus::Success);
    assert_eq!(job_outputs.get("k").map(|s| s.as_str()), Some("v"));
}

#[test]
fn test_step_timeout_classification() {
    // A step killed at ~1s reports exit code -1 and terminal timeout; the
    // job without continue-on-error does not advance.
    let t = runners::executor::timeout_result(1000);
    assert_eq!(t.exit_code, -1);
    assert_eq!(step_status_of(&t), StepStatus::Timeout);
    let strict = shell_step("s1", false);
    assert!(!step_proceeds(&strict, &t));
}

#[test]
fn test_uses_step_is_skipped() {
    let mut job = job_with_id("A");
    let mut action = shell_step("s1", false);
    action.run = None;
    action.uses = Some("actions/checkout@v4".to_string());
    job.steps.push(action);
    job.steps.push(shell_step("s2", false));
    let config = JobConfig::default();
    let jt = job_timeout_ms(&job, &config);

    // The action-reference step is skipped, not run with an empty command;
    // the following shell step still runs.
    match step_plan(&job, 0, 0, jt, false, &config) {
        StepPlan::Skip => {}
        _ => panic!("an action-reference step must be skipped"),
    }
    match step_plan(&job, 1, 0, jt, false, &config) {
        StepPlan::Run(_) => {}
        _ => panic!("a shell step must run"),
    }
    assert_eq!(StepStatus::Skipped.to_string(), "skipped");
}

#[test]
fn test_append_refused_only_on_sequence_overflow() {
    let mut runner = JobRunner::new(settings_with_capacity(2));
    let result = ExecutionResult {
        exit_code: 0,
        stdout: "line".to_string(),
        stderr: String::new(),
        duration_ms: 1,
        timed_out: false,
    };

    // Within the budget the admission is owed, and the batches carry the
    // flushed content.
    let outcome = runner
        .append_job_output("A", "step-1", &result, &StrMap::new())
        .expect("the sequence budget is ample");
    assert!(outcome.dropped.is_empty());
    assert_eq!(outcome.batches.len(), 1);
}
