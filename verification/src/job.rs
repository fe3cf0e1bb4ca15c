//! The job lifecycle engine: admission against the capacity bound, per-job
//! cancellation, step sequencing under the hierarchical timeouts, retry with
//! backoff, outcome classification and status reporting. Executors and the
//! session do the I/O outside the library; every decision they act on is
//! taken here.

use vstd::prelude::*;

use crate::config::{JobConfig, Settings};
use crate::executor::{ExecutionContext, ExecutionResult, ExecutorType, ContainerOptions};
use crate::kvmap::StrMap;
use crate::log::{has_streamer, streamer_index, LogStreamer, LogStreamerManager, chunk_count};
use crate::messages::{
    IncomingMessage, JobSpec, OutgoingMessage, StepSpec, status_update_message,
};
use crate::outputs::parse_outputs;
use crate::secrets::mask_secrets;
use crate::strutil::{concat_str, str_eq, u64_to_string, dec_rep};

verus! {

/// Job execution status.
#[derive(Clone, Copy, PartialEq, Eq, Structural, Debug)]
pub enum JobStatus {
    Pending,
    Running,
    Success,
    Failed,
    Timeout,
    Cancelled,
}

impl JobStatus {
    /// The wire name of the status.
    pub fn to_string(&self) -> (r: String)
        ensures
            *self is Pending ==> r@ == "pending"@,
            *self is Running ==> r@ == "running"@,
            *self is Success ==> r@ == "success"@,
            *self is Failed ==> r@ == "failed"@,
            *self is Timeout ==> r@ == "timeout"@,
            *self is Cancelled ==> r@ == "cancelled"@,
    {
        match self {
            JobStatus::Pending => "pending".to_owned(),
            JobStatus::Running => "running".to_owned(),
            JobStatus::Success => "success".to_owned(),
            JobStatus::Failed => "failed".to_owned(),
            JobStatus::Timeout => "timeout".to_owned(),
            JobStatus::Cancelled => "cancelled".to_owned(),
        }
    }

    /// Whether no further status transition is emitted after this one.
    pub fn is_terminal(&self) -> (r: bool)
        ensures
            r == (*self is Success || *self is Failed || *self is Timeout || *self is Cancelled),
    {
        match self {
            JobStatus::Success => true,
            JobStatus::Failed => true,
            JobStatus::Timeout => true,
            JobStatus::Cancelled => true,
            _ => false,
        }
    }
}

/// Step execution status.
#[derive(Clone, Copy, PartialEq, Eq, Structural, Debug)]
pub enum StepStatus {
    Pending,
    Running,
    Success,
    Failed,
    Timeout,
    Skipped,
}

impl StepStatus {
    /// The wire name of the status.
    pub fn to_string(&self) -> (r: String)
        ensures
            *self is Pending ==> r@ == "pending"@,
            *self is Running ==> r@ == "running"@,
            *self is Success ==> r@ == "success"@,
            *self is Failed ==> r@ == "failed"@,
            *self is Timeout ==> r@ == "timeout"@,
            *self is Skipped ==> r@ == "skipped"@,
    {
        match self {
            StepStatus::Pending => "pending".to_owned(),
            StepStatus::Running => "running".to_owned(),
            StepStatus::Success => "success".to_owned(),
            StepStatus::Failed => "failed".to_owned(),
            StepStatus::Timeout => "timeout".to_owned(),
            StepStatus::Skipped => "skipped".to_owned(),
        }
    }
}

/// Per-job cancellation handle: the flag only ever rises, and every
/// cancelled job is observed as cancelled by all later checks.
pub struct JobContext {
    pub job_id: String,
    pub cancelled: bool,
}

impl JobContext {
    pub fn new(job_id: String) -> (r: Self)
        ensures
            r.job_id == job_id,
            !r.cancelled,
    {
        JobContext { job_id, cancelled: false }
    }

    /// Raise the cancellation flag; it never falls again.
    pub fn cancel(&mut self)
        ensures
            final(self).cancelled,
            final(self).job_id == old(self).job_id,
    {
        self.cancelled = true;
    }

    /// Observe the flag.
    pub fn is_cancelled(&self) -> (r: bool)
        ensures
            r == self.cancelled,
    {
        self.cancelled
    }
}

/// Retry configuration for job execution.
pub struct RetryConfig {
    pub max_attempts: u32,
    pub delay_secs: u64,
    /// Backoff factor between attempts.
    pub backoff_multiplier: u64,
}

impl Default for RetryConfig {
    fn default() -> (r: Self)
        ensures
            r.max_attempts == 3,
            r.delay_secs == 5,
            r.backoff_multiplier == 2,
    {
        RetryConfig { max_attempts: 3, delay_secs: 5, backoff_multiplier: 2 }
    }
}

impl RetryConfig {
    /// The retry settings the job configuration prescribes.
    pub fn from(config: &JobConfig) -> (r: Self)
        ensures
            r.max_attempts == config.max_retries,
            r.delay_secs == config.retry_delay_secs,
            r.backoff_multiplier == 2,
    {
        RetryConfig {
            max_attempts: config.max_retries,
            delay_secs: config.retry_delay_secs,
            backoff_multiplier: 2,
        }
    }
}

/// `b^e`, as the backoff grows between attempts.
pub open spec fn pow_nat(b: nat, e: nat) -> nat
    decreases e,
{
    if e == 0 {
        1
    } else {
        b * pow_nat(b, (e - 1) as nat)
    }
}

/// The delay before the next attempt: the base delay grown by the backoff
/// factor once per completed attempt, saturated at the integer bound.
pub fn retry_delay_secs(config: &RetryConfig, attempts_done: u32) -> (r: u64)
    ensures
        ({
            let exact = config.delay_secs * pow_nat(config.backoff_multiplier as nat, attempts_done as nat);
            r == if exact <= u64::MAX {
                exact
            } else {
                u64::MAX as int
            }
        }),
{
    let mut r: u64 = config.delay_secs;
    let mut k: u32 = 0;
    proof {
        assert(config.delay_secs * pow_nat(config.backoff_multiplier as nat, 0) == config.delay_secs)
            by (nonlinear_arith);
    }
    while k < attempts_done
        invariant
            k <= attempts_done,
            ({
                let exact = config.delay_secs * pow_nat(config.backoff_multiplier as nat, k as nat);
                r == if exact <= u64::MAX {
                    exact
                } else {
                    u64::MAX as int
                }
            }),
        decreases attempts_done - k,
    {
        let ghost exact_k = config.delay_secs * pow_nat(config.backoff_multiplier as nat, k as nat);
        let ghost exact_k1 = config.delay_secs * pow_nat(
            config.backoff_multiplier as nat,
            (k + 1) as nat,
        );
        proof {
            assert(pow_nat(config.backoff_multiplier as nat, (k + 1) as nat) == (
            config.backoff_multiplier as nat) * pow_nat(config.backoff_multiplier as nat, k as nat));
            assert(exact_k1 == exact_k * config.backoff_multiplier) by (nonlinear_arith)
                requires
                    exact_k == config.delay_secs * pow_nat(
                        config.backoff_multiplier as nat,
                        k as nat,
                    ),
                    exact_k1 == config.delay_secs * ((config.backoff_multiplier as nat) * pow_nat(
                        config.backoff_multiplier as nat,
                        k as nat,
                    )),
            ;
        }
        let next = match r.checked_mul(config.backoff_multiplier) {
            Some(x) => x,
            None => u64::MAX,
        };
        proof {
            if exact_k <= u64::MAX {
                assert(r == exact_k);
                if exact_k * config.backoff_multiplier > u64::MAX {
                    assert(next == u64::MAX);
                } else {
                    assert(next == exact_k1);
                }
            } else {
                assert(r == u64::MAX);
                if config.backoff_multiplier == 0 {
                    assert(exact_k1 == 0) by (nonlinear_arith)
                        requires
                            exact_k1 == exact_k * 0,
                    ;
                    assert(next == 0);
                } else {
                    assert(exact_k1 >= exact_k) by (nonlinear_arith)
                        requires
                            exact_k1 == exact_k * config.backoff_multiplier,
                            config.backoff_multiplier >= 1,
                            exact_k >= 0,
                    ;
                    assert((u64::MAX as int) * (config.backoff_multiplier as int) >= u64::MAX)
                        by (nonlinear_arith)
                        requires
                            config.backoff_multiplier >= 1,
                    ;
                    assert(next == u64::MAX);
                }
            }
        }
        r = next;
        k = k + 1;
    }
    r
}

/// The job-level timeout in milliseconds: the larger of the job's own
/// timeout and the configured default.
pub fn job_timeout_ms(job: &JobSpec, config: &JobConfig) -> (r: u64)
    ensures
        r == 60000 * (if job.timeout_minutes >= config.default_timeout_minutes {
            job.timeout_minutes
        } else {
            config.default_timeout_minutes
        }),
{
    let minutes: u32 = if job.timeout_minutes >= config.default_timeout_minutes {
        job.timeout_minutes
    } else {
        config.default_timeout_minutes
    };
    (minutes as u64) * 60000
}

/// What the step loop does next.
pub enum StepPlan {
    /// All steps are done: the job succeeded.
    Done,
    /// The job-level timeout has elapsed.
    JobTimedOut,
    /// Cancellation was observed between steps.
    CancelledOut,
    /// The step names an action reference and no command: it is skipped
    /// with terminal status `skipped`, and the loop advances.
    Skip,
    /// Run the step under this wall-clock budget in milliseconds.
    Run(u64),
}

/// Whether a step is an action-reference step the core does not interpret:
/// it carries `uses` and no command to run.
pub open spec fn is_uses_step(step: StepSpec) -> bool {
    step.uses is Some && step.run is None
}

/// Decide the next move of the step loop: finish after the last step, stop
/// on job timeout or on cancellation, skip an action-reference step, else
/// run the next step under the smaller of its own timeout and what remains
/// of the job budget.
pub fn step_plan(
    job: &JobSpec,
    index: usize,
    elapsed_ms: u64,
    job_timeout_ms: u64,
    cancelled: bool,
    config: &JobConfig,
) -> (r: StepPlan)
    ensures
        index >= job.steps@.len() ==> r is Done,
        index < job.steps@.len() && elapsed_ms > job_timeout_ms ==> r is JobTimedOut,
        index < job.steps@.len() && elapsed_ms <= job_timeout_ms && cancelled ==> r is CancelledOut,
        index < job.steps@.len() && elapsed_ms <= job_timeout_ms && !cancelled && is_uses_step(
            job.steps@[index as int],
        ) ==> r is Skip,
        index < job.steps@.len() && elapsed_ms <= job_timeout_ms && !cancelled && !is_uses_step(
            job.steps@[index as int],
        ) ==> r == StepPlan::Run(
            ({
                let own = 60000 * (
                if job.steps@[index as int].timeout_minutes >= config.default_step_timeout_minutes {
                    job.steps@[index as int].timeout_minutes as int
                } else {
                    config.default_step_timeout_minutes as int
                });
                let remaining = job_timeout_ms - elapsed_ms;
                (if own <= remaining {
                    own
                } else {
                    remaining
                }) as u64
            }),
        ),
{
    if index >= job.steps.len() {
        return StepPlan::Done;
    }
    if elapsed_ms > job_timeout_ms {
        return StepPlan::JobTimedOut;
    }
    if cancelled {
        return StepPlan::CancelledOut;
    }
    let step = &job.steps[index];
    if step.uses.is_some() && step.run.is_none() {
        return StepPlan::Skip;
    }
    let minutes: u32 = if step.timeout_minutes >= config.default_step_timeout_minutes {
        step.timeout_minutes
    } else {
        config.default_step_timeout_minutes
    };
    let own: u64 = (minutes as u64) * 60000;
    let remaining: u64 = job_timeout_ms - elapsed_ms;
    StepPlan::Run(
        if own <= remaining {
            own
        } else {
            remaining
        },
    )
}

/// The environment one step runs under: the job environment, the step's
/// additions, and the secrets, later sources winning on key collision.
pub fn step_environment(job: &JobSpec, step: &StepSpec) -> (r: StrMap)
    requires
        job.environment.wf(),
        step.env.wf(),
        job.secrets.wf(),
    ensures
        r.wf(),
        r@ == job.environment@.union_prefer_right(step.env@).union_prefer_right(job.secrets@),
{
    let mut env = job.environment.duplicate();
    env.extend_from(&step.env);
    env.extend_from(&job.secrets);
    env
}

/// The resolved working directory: the workspace, or the step's directory
/// under it.
pub fn resolve_working_directory(workspace: &str, step: &StepSpec) -> (r: String)
    ensures
        r@ == match step.working_directory {
            Some(wd) => workspace@ + "/"@ + wd@,
            None => workspace@,
        },
{
    match &step.working_directory {
        Some(wd) => {
            let mut s = concat_str(workspace, "/");
            s.append(wd.as_str());
            s
        },
        None => workspace.to_owned(),
    }
}

/// The per-job workspace directory under the configured base path.
pub fn workspace_path(base_path: &str, job_id: &str) -> (r: String)
    ensures
        r@ == base_path@ + "/"@ + job_id@,
{
    let mut s = concat_str(base_path, "/");
    s.append(job_id);
    s
}

/// The executor a job calls for: the container executor exactly when the
/// job carries a container specification.
pub fn choose_executor(job: &JobSpec) -> (r: ExecutorType)
    ensures
        job.container is Some ==> r is Docker,
        job.container is None ==> r is Shell,
{
    match &job.container {
        Some(_) => ExecutorType::Docker,
        None => ExecutorType::Shell,
    }
}

/// The execution context of one step: the resolved command, the merged
/// environment, the resolved working directory and the effective timeout.
pub fn build_step_context(
    job: &JobSpec,
    step: &StepSpec,
    workspace: &str,
    step_timeout_ms: u64,
) -> (r: ExecutionContext)
    requires
        job.environment.wf(),
        step.env.wf(),
        job.secrets.wf(),
    ensures
        r.job_id == job.job_id,
        r.step_id == step.step_id,
        r.command@ == match step.run {
            Some(c) => c@,
            None => Seq::<char>::empty(),
        },
        r.shell == step.shell,
        r.working_directory@ == match step.working_directory {
            Some(wd) => workspace@ + "/"@ + wd@,
            None => workspace@,
        },
        r.environment.wf(),
        r.environment@ == job.environment@.union_prefer_right(step.env@).union_prefer_right(
            job.secrets@,
        ),
        r.timeout_ms == step_timeout_ms,
        ({
            match job.container {
                Some(c) => r.container_image matches Some(img) && img@ == c.image@,
                None => r.container_image is None,
            }
        }),
        r.container_options is None,
{
    let command = match &step.run {
        Some(c) => c.clone(),
        None => String::new(),
    };
    let container_image = match &job.container {
        Some(c) => Some(c.image.clone()),
        None => None,
    };
    ExecutionContext {
        job_id: job.job_id.clone(),
        step_id: step.step_id.clone(),
        command,
        shell: step.shell.clone(),
        working_directory: resolve_working_directory(workspace, step),
        environment: step_environment(job, step),
        timeout_ms: step_timeout_ms,
        container_image,
        container_options: None::<ContainerOptions>,
    }
}

/// The terminal status of a step from its execution result: timeout wins,
/// then success, else failure.
pub fn step_status_of(result: &ExecutionResult) -> (r: StepStatus)
    ensures
        result.timed_out ==> r is Timeout,
        !result.timed_out && result.exit_code == 0 ==> r is Success,
        !result.timed_out && result.exit_code != 0 ==> r is Failed,
{
    if result.timed_out {
        StepStatus::Timeout
    } else if result.success() {
        StepStatus::Success
    } else {
        StepStatus::Failed
    }
}

/// Whether the step loop advances past this result: always on success, and
/// on failure exactly when the step continues on error — the step is still
/// marked failed, but the job progresses.
pub fn step_proceeds(step: &StepSpec, result: &ExecutionResult) -> (r: bool)
    ensures
        r == (result.exit_code == 0 && !result.timed_out || step.continue_on_error),
        step.continue_on_error ==> r,
{
    result.success() || step.continue_on_error
}

/// The admission records that one step's masked output appends to the
/// job's history: the standard-output chunks at `info`, then the
/// standard-error chunks at `error`, empty captures skipped.
pub open spec fn output_admitted(
    pre: LogStreamer,
    post: LogStreamer,
    step: Seq<char>,
    m_out: Seq<char>,
    m_err: Seq<char>,
    ts1: i64,
    ts2: i64,
) -> bool {
    let size = pre.spec_config().chunk_size_bytes as nat;
    let n1: nat = if m_out.len() > 0 {
        chunk_count(m_out.len(), size)
    } else {
        0
    };
    post.history() == pre.history() + (if m_out.len() > 0 {
        crate::log::added_models(pre.spec_counter(), step, m_out, "info"@, size, ts1)
    } else {
        Seq::empty()
    }) + (if m_err.len() > 0 {
        crate::log::added_models((pre.spec_counter() + n1) as u64, step, m_err, "error"@, size, ts2)
    } else {
        Seq::empty()
    })
}

/// What one step's captured output left behind: the batch messages to
/// send, in order, and the sequences dropped at the hard cap, for the
/// runtime warning.
pub struct StepLogOutcome {
    pub batches: Vec<OutgoingMessage>,
    pub dropped: Vec<u64>,
}

/// How a streamer evolves when one step's masked output is appended to it:
/// refused exactly when the sequence budget is blown (then nothing moves);
/// otherwise the counter advances by the chunk counts, the buffer ends
/// flushed, and the history extends with the masked captures' records.
pub open spec fn step_output_appended(
    pre: LogStreamer,
    post: LogStreamer,
    step: Seq<char>,
    m_out: Seq<char>,
    m_err: Seq<char>,
    appended: bool,
) -> bool {
    let size = pre.spec_config().chunk_size_bytes as nat;
    let n1: nat = if m_out.len() > 0 {
        chunk_count(m_out.len(), size)
    } else {
        0
    };
    let n2: nat = if m_err.len() > 0 {
        chunk_count(m_err.len(), size)
    } else {
        0
    };
    &&& (appended <==> pre.spec_counter() + m_out.len() + m_err.len() + 2 <= u64::MAX)
    &&& (!appended ==> post == pre)
    &&& post.spec_job_id() == pre.spec_job_id()
    &&& post.spec_config() == pre.spec_config()
    &&& post.acks() == pre.acks()
    &&& (appended ==> post.spec_counter() == pre.spec_counter() + n1 + n2
        && post.buffer_model().len() == 0 && exists|ts1: i64, ts2: i64|
        #[trigger] output_admitted(pre, post, step, m_out, m_err, ts1, ts2))
}

/// Mask the secrets out of a step's captured output and admit it to the log
/// stream: standard output at `info`, standard error at `error`, empty
/// captures skipped, followed by a flush. Hands back every batch message
/// the admissions and the flush produced, in order, and the sequences
/// dropped at the hard cap; refuses exactly when the job's sequence
/// counter would overflow.
pub fn append_step_output(
    streamer: &mut LogStreamer,
    step_id: &str,
    result: &ExecutionResult,
    secrets: &StrMap,
) -> (r: Option<StepLogOutcome>)
    requires
        old(streamer).wf(),
    ensures
        final(streamer).wf(),
        r is None ==> *final(streamer) == *old(streamer),
        ({
            let secs = crate::secrets::secret_values(secrets.pairs());
            let m_out = crate::secrets::masked_all(result.stdout@, secs);
            let m_err = crate::secrets::masked_all(result.stderr@, secs);
            step_output_appended(
                *old(streamer),
                *final(streamer),
                step_id@,
                m_out,
                m_err,
                r is Some,
            )
        }),
        r matches Some(o) ==> (forall|k: int|
            0 <= k < o.dropped@.len() ==> (#[trigger] o.dropped@[k]) < final(streamer)
                .spec_counter()),
{
    let ghost pre = *old(streamer);
    let masked_stdout = mask_secrets(result.stdout.as_str(), secrets);
    let masked_stderr = mask_secrets(result.stderr.as_str(), secrets);

    let out_chars = masked_stdout.as_str().unicode_len();
    let err_chars = masked_stderr.as_str().unicode_len();
    let counter = streamer.current_sequence();

    // Each admission takes at most one sequence per character plus one.
    let budget_ok = (counter as u128) + (out_chars as u128) + (err_chars as u128) + 2
        <= u64::MAX as u128;
    if !budget_ok {
        return None;
    }
    proof {
        crate::log::lemma_wf_config(streamer);
        crate::log::lemma_held_entries_match_history(streamer);
        crate::log::lemma_sequences_dense(streamer);
        lemma_chunk_count_le(masked_stdout@.len(), pre.spec_config().chunk_size_bytes as nat);
        lemma_chunk_count_le(masked_stderr@.len(), pre.spec_config().chunk_size_bytes as nat);
    }

    let ghost size = pre.spec_config().chunk_size_bytes as nat;
    let ghost flush_at = pre.spec_config().buffer_size as nat;
    let ghost drop_at = pre.spec_config().max_pending_logs as nat;
    let ghost m_out = masked_stdout@;
    let ghost m_err = masked_stderr@;
    let ghost n1: nat = if m_out.len() > 0 {
        chunk_count(m_out.len(), size)
    } else {
        0
    };
    let ghost mut out_ts: i64 = 0;
    let mut msgs: Vec<OutgoingMessage> = Vec::new();
    let mut drops: Vec<u64> = Vec::new();
    if masked_stdout.as_str().unicode_len() > 0 {
        let mut outcome = streamer.add(step_id, masked_stdout.as_str(), "info");
        proof {
            let ts = choose|ts: i64|
                crate::log::add_rel(pre, *streamer, outcome, step_id@, m_out, "info"@, ts);
            out_ts = ts;
            let added = crate::log::added_models(
                pre.spec_counter(),
                step_id@,
                m_out,
                "info"@,
                size,
                ts,
            );
            assert(forall|i: int|
                0 <= i < added.len() ==> (#[trigger] added[i]).sequence == pre.spec_counter() + i);
            crate::log::lemma_fold_dropped_bounded(
                pre.buffer_model(),
                added,
                pre.spec_counter() as nat,
                flush_at,
                drop_at,
            );
            assert(forall|k: int|
                0 <= k < outcome.dropped@.len() ==> (#[trigger] outcome.dropped@[k])
                    < pre.spec_counter() + n1);
        }
        msgs.append(&mut outcome.flushed);
        drops.append(&mut outcome.dropped);
    }
    proof {
        assert(streamer.history() == pre.history() + (if m_out.len() > 0 {
            crate::log::added_models(pre.spec_counter(), step_id@, m_out, "info"@, size, out_ts)
        } else {
            Seq::<crate::log::EntryModel>::empty()
        })) by {
            if m_out.len() == 0 {
                assert(pre.history() + Seq::<crate::log::EntryModel>::empty() =~= pre.history());
            }
        }
        assert(streamer.spec_counter() == pre.spec_counter() + n1);
        assert(forall|k: int|
            0 <= k < drops@.len() ==> (#[trigger] drops@[k]) < pre.spec_counter() + n1);
    }
    let ghost mid = *streamer;
    let ghost drops_mid = drops@;
    let ghost mut err_ts: i64 = 0;
    if masked_stderr.as_str().unicode_len() > 0 {
        proof {
            crate::log::lemma_held_entries_match_history(streamer);
            crate::log::lemma_sequences_dense(streamer);
            lemma_chunk_count_le(masked_stderr@.len(), streamer.spec_config().chunk_size_bytes as nat);
        }
        let mut outcome = streamer.add(step_id, masked_stderr.as_str(), "error");
        proof {
            let ts = choose|ts: i64|
                crate::log::add_rel(mid, *streamer, outcome, step_id@, m_err, "error"@, ts);
            err_ts = ts;
            let added = crate::log::added_models(
                mid.spec_counter(),
                step_id@,
                m_err,
                "error"@,
                size,
                ts,
            );
            assert(forall|i: int|
                0 <= i < added.len() ==> (#[trigger] added[i]).sequence == mid.spec_counter() + i);
            crate::log::lemma_fold_dropped_bounded(
                mid.buffer_model(),
                added,
                mid.spec_counter() as nat,
                flush_at,
                drop_at,
            );
            assert(forall|k: int|
                0 <= k < outcome.dropped@.len() ==> (#[trigger] outcome.dropped@[k])
                    < streamer.spec_counter());
        }
        drops.append(&mut outcome.dropped);
        msgs.append(&mut outcome.flushed);
    }
    proof {
        let tail = if m_err.len() > 0 {
            crate::log::added_models(mid.spec_counter(), step_id@, m_err, "error"@, size, err_ts)
        } else {
            Seq::<crate::log::EntryModel>::empty()
        };
        assert(streamer.history() =~= mid.history() + tail);
        assert(forall|k: int|
            0 <= k < drops@.len() ==> (#[trigger] drops@[k]) < streamer.spec_counter());
    }
    match streamer.flush() {
        Some(m) => {
            msgs.push(m);
        },
        None => {},
    }
    proof {
        let part1 = if m_out.len() > 0 {
            crate::log::added_models(pre.spec_counter(), step_id@, m_out, "info"@, size, out_ts)
        } else {
            Seq::<crate::log::EntryModel>::empty()
        };
        let part2 = if m_err.len() > 0 {
            crate::log::added_models(
                (pre.spec_counter() + n1) as u64,
                step_id@,
                m_err,
                "error"@,
                size,
                err_ts,
            )
        } else {
            Seq::<crate::log::EntryModel>::empty()
        };
        assert(streamer.history() =~= pre.history() + part1 + part2);
        assert(output_admitted(pre, *streamer, step_id@, m_out, m_err, out_ts, err_ts));
    }
    Some(StepLogOutcome { batches: msgs, dropped: drops })
}

/// A chunked admission takes at most one sequence per character, plus one.
proof fn lemma_chunk_count_le(len: nat, size: nat)
    requires
        size >= 1,
    ensures
        chunk_count(len, size) <= len + 1,
{
    if len > size {
        assert((len - 1) as int / size as int <= len - 1) by (nonlinear_arith)
            requires
                size >= 1,
                len >= 1,
        ;
    }
}

/// The terminal status update of a step, carrying its exit code and parsed
/// outputs.
pub fn step_terminal_update(step: &StepSpec, result: &ExecutionResult) -> (r: (
    StepStatus,
    OutgoingMessage,
    StrMap,
))
    ensures
        ({
            let (status, msg, outs) = r;
            &&& (result.timed_out ==> status is Timeout)
            &&& (!result.timed_out && result.exit_code == 0 ==> status is Success)
            &&& (!result.timed_out && result.exit_code != 0 ==> status is Failed)
            &&& outs.wf()
            &&& outs@ == crate::outputs::parse_outputs_model(result.stdout@)
            &&& (msg matches OutgoingMessage::StatusUpdate {
                entity_type,
                entity_id,
                status: st,
                exit_code,
                outputs,
            } && entity_type@ == "step"@ && entity_id@ == step.step_id@ && exit_code == Some(
                result.exit_code,
            ) && outputs@ == outs@ && (status is Timeout ==> st@ == "timeout"@) && (status
                is Success ==> st@ == "success"@) && (status is Failed ==> st@ == "failed"@))
        }),
{
    let status = step_status_of(result);
    let outs = parse_outputs(result.stdout.as_str());
    let status_name = status.to_string();
    let msg = status_update_message(
        "step",
        step.step_id.as_str(),
        status_name.as_str(),
        Some(result.exit_code),
        outs.duplicate(),
    );
    (status, msg, outs)
}

/// How a finished step loop is classified.
pub enum StepLoopOutcome {
    /// Every step completed successfully; the merged outputs follow.
    Completed(StrMap),
    /// The job-level timeout elapsed.
    TimedOut,
    /// Cancellation was observed.
    Cancelled,
    /// A step failure propagated, with its message.
    StepFailed(String),
}

/// Classify the job's terminal status: success only when every step
/// completed; cancellation wins over any failure; a timeout is terminal
/// `timeout`; anything else is a failure carrying its error.
pub fn classify_outcome(outcome: StepLoopOutcome, cancelled: bool) -> (r: (JobStatus, StrMap))
    requires
        outcome matches StepLoopOutcome::Completed(m) ==> m.wf(),
    ensures
        ({
            let (status, outs) = r;
            &&& (outcome matches StepLoopOutcome::Completed(m) ==> status is Success && outs@
                == m@)
            &&& (!(outcome is Completed) && cancelled ==> status is Cancelled)
            &&& (outcome is TimedOut && !cancelled ==> status is Timeout)
            &&& (outcome is Cancelled && !cancelled ==> status is Cancelled)
            &&& (outcome matches StepLoopOutcome::StepFailed(e) ==> (!cancelled ==> status
                is Failed && outs@.contains_key("error"@) && outs@["error"@] == e@))
            &&& outs.wf()
        }),
{
    match outcome {
        StepLoopOutcome::Completed(outputs) => (JobStatus::Success, outputs),
        StepLoopOutcome::TimedOut => {
            if cancelled {
                (JobStatus::Cancelled, StrMap::new())
            } else {
                (JobStatus::Timeout, StrMap::new())
            }
        },
        StepLoopOutcome::Cancelled => (JobStatus::Cancelled, StrMap::new()),
        StepLoopOutcome::StepFailed(e) => {
            if cancelled {
                (JobStatus::Cancelled, StrMap::new())
            } else {
                let mut outs = StrMap::new();
                outs.insert("error".to_owned(), e);
                (JobStatus::Failed, outs)
            }
        },
    }
}

/// The error recorded when every attempt failed:
/// `Failed after N attempts: <last error>`.
pub fn failure_message(attempts: u32, last_error: &str) -> (r: String)
    ensures
        r@ == "Failed after "@ + dec_rep(attempts as nat) + " attempts: "@ + last_error@,
{
    let mut s = concat_str("Failed after ", u64_to_string(attempts as u64).as_str());
    s.append(" attempts: ");
    s.append(last_error);
    s
}

/// Whether some context belongs to `job`.
pub open spec fn has_context(cs: Seq<JobContext>, job: Seq<char>) -> bool {
    exists|i: int| 0 <= i < cs.len() && (#[trigger] cs[i]).job_id@ == job
}

/// The index of the context belonging to `job`, when one exists.
pub open spec fn context_index(cs: Seq<JobContext>, job: Seq<char>) -> int {
    choose|i: int| 0 <= i < cs.len() && (#[trigger] cs[i]).job_id@ == job
}

/// What the supervisor must do for a handled message.
pub enum RunnerAction {
    /// Send this message to the control plane.
    Send(OutgoingMessage),
    /// Spawn the execution of this accepted job.
    StartJob(JobSpec),
}

/// The runner's job-engine state: the admission counter, the cancellation
/// contexts of running jobs, and the log streamers.
pub struct JobRunner {
    settings: Settings,
    current_jobs: u32,
    job_contexts: Vec<JobContext>,
    /// The per-job log streamers.
    pub log_manager: LogStreamerManager,
}

impl JobRunner {
    /// The configuration the runner was started with.
    pub closed spec fn spec_settings(&self) -> Settings {
        self.settings
    }

    /// How many jobs are admitted and not yet finished.
    pub closed spec fn spec_current_jobs(&self) -> u32 {
        self.current_jobs
    }

    /// The cancellation contexts of the admitted jobs, in admission order.
    pub closed spec fn contexts(&self) -> Seq<JobContext> {
        self.job_contexts@
    }

    /// The log streamer manager.
    pub closed spec fn spec_log_manager(&self) -> LogStreamerManager {
        self.log_manager
    }

    /// Whether the runner is at its admission bound.
    pub open spec fn spec_at_capacity(&self) -> bool {
        self.spec_current_jobs() as int >= self.spec_settings().runner.max_concurrent_jobs as int
    }

    /// Well-formed: the counter counts the contexts, never exceeds the
    /// admission bound, each job has one context, and the log manager is
    /// sound.
    pub closed spec fn wf(&self) -> bool {
        &&& self.current_jobs as int == self.job_contexts@.len()
        &&& self.current_jobs as int <= self.settings.runner.max_concurrent_jobs as int
        &&& self.settings.runner.max_concurrent_jobs <= u32::MAX
        &&& forall|i: int, j: int|
            0 <= i < j < self.job_contexts@.len() ==> (#[trigger] self.job_contexts@[i]).job_id@
                != (#[trigger] self.job_contexts@[j]).job_id@
        &&& self.log_manager.wf()
        &&& self.log_manager.spec_config() == self.settings.logging
    }

    pub fn new(settings: Settings) -> (r: Self)
        requires
            settings.logging.chunk_size_bytes >= 1,
            settings.logging.buffer_size >= 1,
            settings.logging.max_pending_logs >= 1,
            settings.runner.max_concurrent_jobs <= u32::MAX,
        ensures
            r.wf(),
            r.spec_current_jobs() == 0,
            r.contexts().len() == 0,
            r.spec_settings() == settings,
    {
        let log_manager = LogStreamerManager::new(logging_copy(&settings));
        JobRunner { settings, current_jobs: 0, job_contexts: Vec::new(), log_manager }
    }

    /// The number of admitted jobs.
    pub fn current_job_count(&self) -> (r: u32)
        ensures
            r == self.spec_current_jobs(),
    {
        self.current_jobs
    }

    /// Whether admission would refuse the next job.
    pub fn is_at_capacity(&self) -> (r: bool)
        ensures
            r == self.spec_at_capacity(),
    {
        self.current_jobs as usize >= self.settings.runner.max_concurrent_jobs
    }

    /// The index of the running job's context, if any.
    fn context_position(&self, job_id: &str) -> (r: Option<usize>)
        ensures
            match r {
                Some(i) => i < self.contexts().len() && self.contexts()[i as int].job_id@
                    == job_id@,
                None => !has_context(self.contexts(), job_id@),
            },
    {
        let mut i: usize = 0;
        while i < self.job_contexts.len()
            invariant
                i <= self.job_contexts@.len(),
                forall|j: int| 0 <= j < i ==> (#[trigger] self.job_contexts@[j]).job_id@ != job_id@,
            decreases self.job_contexts@.len() - i,
        {
            if str_eq(self.job_contexts[i].job_id.as_str(), job_id) {
                return Some(i);
            }
            i = i + 1;
        }
        None
    }

    /// Dispatch one inbound message. A job assignment is admitted against
    /// the capacity bound: over it, the job is rejected with reason
    /// `runner_at_capacity` and nothing changes; under it, the counter
    /// rises, a fresh cancellation context is registered and the job is
    /// started (an assignment repeating a running job's identity starts it
    /// on a fresh context without raising the counter again). A cancel
    /// request raises the matching context's flag. A log acknowledgement
    /// reaches the job's streamer. Everything else is informational.
    pub fn handle_message(&mut self, message: IncomingMessage) -> (actions: Vec<RunnerAction>)
        requires
            old(self).wf(),
        ensures
            final(self).wf(),
            final(self).spec_settings() == old(self).spec_settings(),
            ({
                match message {
                    IncomingMessage::JobAssignment { job } => {
                        if old(self).spec_at_capacity() {
                            &&& final(self).spec_current_jobs() == old(self).spec_current_jobs()
                            &&& final(self).contexts() == old(self).contexts()
                            &&& actions@.len() == 1
                            &&& (actions@[0] matches RunnerAction::Send(m) && (m
                                matches OutgoingMessage::StatusUpdate {
                                entity_type,
                                entity_id,
                                status,
                                exit_code,
                                outputs,
                            } && entity_type@ == "job"@ && entity_id@ == job.job_id@ && status@
                                == "rejected"@ && exit_code is None && outputs@.contains_key(
                                "reason"@,
                            ) && outputs@["reason"@] == "runner_at_capacity"@))
                        } else {
                            &&& (!has_context(old(self).contexts(), job.job_id@) ==> final(self)
                                .spec_current_jobs() == old(self).spec_current_jobs() + 1)
                            &&& has_context(final(self).contexts(), job.job_id@)
                            &&& actions@.len() == 1
                            &&& (actions@[0] matches RunnerAction::StartJob(j) && j == job)
                        }
                    },
                    IncomingMessage::JobCancel { job_id } => {
                        &&& actions@.len() == 0
                        &&& final(self).spec_current_jobs() == old(self).spec_current_jobs()
                        &&& final(self).contexts().len() == old(self).contexts().len()
                        &&& ({
                            let cs1 = final(self).contexts();
                            let cs0 = old(self).contexts();
                            if has_context(cs0, job_id@) {
                                let idx = context_index(cs0, job_id@);
                                cs1[idx].cancelled && cs1[idx].job_id@ == job_id@ && (forall|
                                    i: int,
                                | 0 <= i < cs0.len() && i != idx ==> cs1[i] == cs0[i])
                            } else {
                                cs1 == cs0
                            }
                        })
                    },
                    IncomingMessage::LogAck { job_id, last_sequence } => {
                        &&& actions@.len() == 0
                        &&& final(self).spec_current_jobs() == old(self).spec_current_jobs()
                        &&& final(self).contexts() == old(self).contexts()
                        &&& has_streamer(final(self).spec_log_manager().streamers_model(), job_id@)
                        &&& ({
                            let ss1 = final(self).spec_log_manager().streamers_model();
                            let idx = streamer_index(ss1, job_id@);
                            forall|t: int|
                                0 <= t < ss1[idx].pending_model().len() ==> (#[trigger] ss1[idx].pending_model()[t]).sequence
                                    > last_sequence
                        })
                    },
                    _ => {
                        &&& actions@.len() == 0
                        &&& *final(self) == *old(self)
                    },
                }
            }),
    {
        let mut actions: Vec<RunnerAction> = Vec::new();
        match message {
            IncomingMessage::JobAssignment { job } => {
                if self.current_jobs as usize >= self.settings.runner.max_concurrent_jobs {
                    let mut outputs = StrMap::new();
                    outputs.insert("reason".to_owned(), "runner_at_capacity".to_owned());
                    let msg = status_update_message(
                        "job",
                        job.job_id.as_str(),
                        "rejected",
                        None,
                        outputs,
                    );
                    actions.push(RunnerAction::Send(msg));
                } else {
                    let ghost cs0 = self.job_contexts@;
                    match self.context_position(job.job_id.as_str()) {
                        Some(i) => {
                            let ctx = JobContext::new(job.job_id.clone());
                            let _ = self.job_contexts.remove(i);
                            self.job_contexts.insert(i, ctx);
                            proof {
                                assert(self.job_contexts@ =~= cs0.update(
                                    i as int,
                                    self.job_contexts@[i as int],
                                ));
                                assert(self.job_contexts@[i as int].job_id@ == job.job_id@);
                                assert(has_context(self.job_contexts@, job.job_id@));
                                assert forall|a: int, b: int|
                                    0 <= a < b < self.job_contexts@.len() implies (
                                #[trigger] self.job_contexts@[a]).job_id@ != (
                                #[trigger] self.job_contexts@[b]).job_id@ by {
                                    assert(self.job_contexts@[a].job_id@ == cs0[a].job_id@);
                                    assert(self.job_contexts@[b].job_id@ == cs0[b].job_id@);
                                }
                            }
                        },
                        None => {
                            self.current_jobs = self.current_jobs + 1;
                            let ctx = JobContext::new(job.job_id.clone());
                            self.job_contexts.push(ctx);
                            proof {
                                assert(forall|i: int|
                                    0 <= i < cs0.len() ==> #[trigger] self.job_contexts@[i]
                                        == cs0[i]);
                                assert(self.job_contexts@[cs0.len() as int].job_id@
                                    == job.job_id@);
                                assert(has_context(self.job_contexts@, job.job_id@));
                            }
                        },
                    }
                    actions.push(RunnerAction::StartJob(job));
                }
            },
            IncomingMessage::JobCancel { job_id } => {
                self.cancel_job(job_id.as_str());
            },
            IncomingMessage::LogAck { job_id, last_sequence } => {
                self.log_manager.acknowledge_message(job_id.as_str(), last_sequence);
            },
            IncomingMessage::Connected { .. } => {},
            IncomingMessage::HeartbeatAck { .. } => {},
            IncomingMessage::Error { .. } => {},
            IncomingMessage::Pong { .. } => {},
        }
        actions
    }

    /// Raise the cancellation flag of the job's context, if it runs.
    pub fn cancel_job(&mut self, job_id: &str)
        requires
            old(self).wf(),
        ensures
            final(self).wf(),
            final(self).spec_settings() == old(self).spec_settings(),
            final(self).spec_current_jobs() == old(self).spec_current_jobs(),
            final(self).contexts().len() == old(self).contexts().len(),
            final(self).spec_log_manager() == old(self).spec_log_manager(),
            ({
                let cs1 = final(self).contexts();
                let cs0 = old(self).contexts();
                if has_context(cs0, job_id@) {
                    let idx = context_index(cs0, job_id@);
                    cs1[idx].cancelled && cs1[idx].job_id@ == job_id@ && (forall|i: int|
                        0 <= i < cs0.len() && i != idx ==> cs1[i] == cs0[i])
                } else {
                    cs1 == cs0
                }
            }),
    {
        let ghost cs0 = self.job_contexts@;
        match self.context_position(job_id) {
            Some(i) => {
                let mut ctx = self.job_contexts.remove(i);
                ctx.cancel();
                self.job_contexts.insert(i, ctx);
                proof {
                    assert(self.job_contexts@ =~= cs0.update(
                        i as int,
                        self.job_contexts@[i as int],
                    ));
                    assert(cs0[i as int].job_id@ == job_id@);
                    assert(has_context(cs0, job_id@));
                    let idx = context_index(cs0, job_id@);
                    assert(0 <= idx < cs0.len() && cs0[idx].job_id@ == job_id@);
                    assert(idx == i as int);
                    assert forall|a: int, b: int|
                        0 <= a < b < self.job_contexts@.len() implies (
                    #[trigger] self.job_contexts@[a]).job_id@ != (
                    #[trigger] self.job_contexts@[b]).job_id@ by {
                        assert(self.job_contexts@[a].job_id@ == cs0[a].job_id@);
                        assert(self.job_contexts@[b].job_id@ == cs0[b].job_id@);
                    }
                }
            },
            None => {},
        }
    }

    /// Mask and admit a step's captured output on the job's log streamer,
    /// creating the streamer first when none exists, and hand back the
    /// batches to send and the sequences dropped at the hard cap. The job's
    /// streamer evolves exactly as `append_step_output` says; every other
    /// streamer stands. Refused exactly when the job's sequence counter
    /// would overflow.
    pub fn append_job_output(
        &mut self,
        job_id: &str,
        step_id: &str,
        result: &ExecutionResult,
        secrets: &StrMap,
    ) -> (r: Option<StepLogOutcome>)
        requires
            old(self).wf(),
        ensures
            final(self).wf(),
            final(self).spec_settings() == old(self).spec_settings(),
            final(self).spec_current_jobs() == old(self).spec_current_jobs(),
            final(self).contexts() == old(self).contexts(),
            has_streamer(final(self).spec_log_manager().streamers_model(), job_id@),
            ({
                let ss0 = old(self).spec_log_manager().streamers_model();
                let ss1 = final(self).spec_log_manager().streamers_model();
                let secs = crate::secrets::secret_values(secrets.pairs());
                let m_out = crate::secrets::masked_all(result.stdout@, secs);
                let m_err = crate::secrets::masked_all(result.stderr@, secs);
                let idx1 = streamer_index(ss1, job_id@);
                let post = ss1[idx1];
                &&& (r matches Some(o) ==> (forall|k: int|
                    0 <= k < o.dropped@.len() ==> (#[trigger] o.dropped@[k])
                        < post.spec_counter()))
                &&& (if has_streamer(ss0, job_id@) {
                    let idx0 = streamer_index(ss0, job_id@);
                    &&& ss1.len() == ss0.len()
                    &&& idx1 == idx0
                    &&& (forall|k: int| 0 <= k < ss1.len() && k != idx1 ==> ss1[k] == ss0[k])
                    &&& step_output_appended(
                        ss0[idx0],
                        post,
                        step_id@,
                        m_out,
                        m_err,
                        r is Some,
                    )
                } else {
                    &&& ss1.len() == ss0.len() + 1
                    &&& idx1 == ss1.len() - 1
                    &&& (forall|k: int| 0 <= k < ss0.len() ==> ss1[k] == ss0[k])
                    &&& exists|start: LogStreamer|
                        #[trigger] crate::log::fresh_streamer(
                            start,
                            job_id@,
                            old(self).spec_settings().logging,
                        ) && step_output_appended(
                            start,
                            post,
                            step_id@,
                            m_out,
                            m_err,
                            r is Some,
                        )
                })
            }),
    {
        let ghost ss0 = self.log_manager.streamers_model();
        let idx = self.log_manager.get_or_create(job_id);
        proof {
            self.log_manager.lemma_streamer_wf(job_id@);
            self.log_manager.lemma_unique_jobs();
        }
        let ghost ss_mid = self.log_manager.streamers_model();
        let mut streamer = match self.log_manager.remove(job_id) {
            Some(s) => s,
            None => {
                proof {
                    assert(false);
                }
                return None;
            },
        };
        let ghost start = streamer;
        proof {
            assert(streamer_index(ss_mid, job_id@) == idx as int) by {
                let j = streamer_index(ss_mid, job_id@);
                assert(0 <= j < ss_mid.len() && ss_mid[j].spec_job_id() == job_id@);
                assert(ss_mid[idx as int].spec_job_id() == job_id@);
            }
        }
        let r = append_step_output(&mut streamer, step_id, result, secrets);
        self.log_manager.reinsert(idx, streamer);
        proof {
            let ss1 = self.log_manager.streamers_model();
            assert(ss1 =~= ss_mid.update(idx as int, ss1[idx as int]));
            assert(ss1[idx as int].spec_job_id() == job_id@);
            assert(has_streamer(ss1, job_id@));
            self.log_manager.lemma_unique_jobs();
            assert(streamer_index(ss1, job_id@) == idx as int) by {
                let j = streamer_index(ss1, job_id@);
                assert(0 <= j < ss1.len() && ss1[j].spec_job_id() == job_id@);
            }
            if has_streamer(ss0, job_id@) {
                let idx0 = streamer_index(ss0, job_id@);
                assert(0 <= idx0 < ss0.len() && ss0[idx0].spec_job_id() == job_id@);
                assert(ss_mid == ss0);
                assert(idx0 == idx as int);
            } else {
                assert(ss_mid == ss0.push(start));
                assert(idx as int == ss0.len());
                assert(crate::log::fresh_streamer(
                    start,
                    job_id@,
                    self.settings.logging,
                ));
            }
        }
        r
    }

    /// Whether the job's context is flagged cancelled; false for a job
    /// that is not running.
    pub fn is_job_cancelled(&self, job_id: &str) -> (r: bool)
        requires
            self.wf(),
        ensures
            r == (has_context(self.contexts(), job_id@) && self.contexts()[context_index(
                self.contexts(),
                job_id@,
            )].cancelled),
    {
        match self.context_position(job_id) {
            Some(i) => {
                proof {
                    assert(self.contexts()[i as int].job_id@ == job_id@);
                    assert(has_context(self.contexts(), job_id@));
                    let idx = context_index(self.contexts(), job_id@);
                    assert(0 <= idx < self.contexts().len() && self.contexts()[idx].job_id@
                        == job_id@);
                    assert(idx == i as int);
                }
                self.job_contexts[i].cancelled
            },
            None => false,
        }
    }

    /// Raise every running job's cancellation flag, as the drain budget
    /// runs out.
    pub fn cancel_all_jobs(&mut self)
        requires
            old(self).wf(),
        ensures
            final(self).wf(),
            final(self).spec_settings() == old(self).spec_settings(),
            final(self).spec_current_jobs() == old(self).spec_current_jobs(),
            final(self).contexts().len() == old(self).contexts().len(),
            forall|i: int|
                0 <= i < final(self).contexts().len() ==> (#[trigger] final(self).contexts()[i])
                    .cancelled && final(self).contexts()[i].job_id == old(self).contexts()[i].job_id,
    {
        let ghost cs0 = self.job_contexts@;
        let mut i: usize = 0;
        while i < self.job_contexts.len()
            invariant
                old(self).wf(),
                i <= cs0.len(),
                cs0 == old(self).job_contexts@,
                self.settings == old(self).settings,
                self.current_jobs == old(self).current_jobs,
                self.log_manager == old(self).log_manager,
                self.job_contexts@.len() == cs0.len(),
                forall|j: int|
                    0 <= j < cs0.len() ==> (#[trigger] self.job_contexts@[j]).job_id
                        == cs0[j].job_id,
                forall|j: int| i <= j < cs0.len() ==> #[trigger] self.job_contexts@[j] == cs0[j],
                forall|j: int| 0 <= j < i ==> (#[trigger] self.job_contexts@[j]).cancelled,
            decreases cs0.len() - i,
        {
            let ghost before = self.job_contexts@;
            let mut ctx = self.job_contexts.remove(i);
            ctx.cancel();
            self.job_contexts.insert(i, ctx);
            proof {
                assert(self.job_contexts@ =~= before.update(i as int, self.job_contexts@[i as int]));
            }
            i = i + 1;
        }
        proof {
            assert forall|a: int, b: int|
                0 <= a < b < self.job_contexts@.len() implies (
            #[trigger] self.job_contexts@[a]).job_id@ != (
            #[trigger] self.job_contexts@[b]).job_id@ by {
                assert(self.job_contexts@[a].job_id == cs0[a].job_id);
                assert(self.job_contexts@[b].job_id == cs0[b].job_id);
            }
        }
    }

    /// A job reached its terminal status: drop its context and free its
    /// admission slot — exactly once per admitted job.
    pub fn job_finished(&mut self, job_id: &str)
        requires
            old(self).wf(),
        ensures
            final(self).wf(),
            final(self).spec_settings() == old(self).spec_settings(),
            has_context(old(self).contexts(), job_id@) ==> final(self).spec_current_jobs() == old(
                self,
            ).spec_current_jobs() - 1 && final(self).contexts() == old(self).contexts().remove(
                context_index(old(self).contexts(), job_id@),
            ),
            !has_context(old(self).contexts(), job_id@) ==> *final(self) == *old(self),
            !has_context(final(self).contexts(), job_id@),
    {
        let ghost cs0 = self.job_contexts@;
        match self.context_position(job_id) {
            Some(i) => {
                self.job_contexts.remove(i);
                self.current_jobs = self.current_jobs - 1;
                proof {
                    assert(cs0[i as int].job_id@ == job_id@);
                    assert(has_context(cs0, job_id@));
                    let idx = context_index(cs0, job_id@);
                    assert(0 <= idx < cs0.len() && cs0[idx].job_id@ == job_id@);
                    assert(idx == i as int);
                    assert forall|a: int, b: int|
                        0 <= a < b < self.job_contexts@.len() implies (
                    #[trigger] self.job_contexts@[a]).job_id@ != (
                    #[trigger] self.job_contexts@[b]).job_id@ by {
                        if b < i as int {
                            assert(self.job_contexts@[a] == cs0[a]);
                            assert(self.job_contexts@[b] == cs0[b]);
                        } else if a < i as int {
                            assert(self.job_contexts@[a] == cs0[a]);
                            assert(self.job_contexts@[b] == cs0[b + 1]);
                        } else {
                            assert(self.job_contexts@[a] == cs0[a + 1]);
                            assert(self.job_contexts@[b] == cs0[b + 1]);
                        }
                    }
                    assert forall|a: int|
                        0 <= a < self.job_contexts@.len() implies (
                    #[trigger] self.job_contexts@[a]).job_id@ != job_id@ by {
                        if a < i as int {
                            assert(self.job_contexts@[a] == cs0[a]);
                        } else {
                            assert(self.job_contexts@[a] == cs0[a + 1]);
                        }
                    }
                }
            },
            None => {},
        }
    }
}

/// A copy of the logging configuration.
fn logging_copy(settings: &Settings) -> (r: crate::config::LoggingConfig)
    ensures
        r == settings.logging,
{
    crate::config::LoggingConfig {
        buffer_size: settings.logging.buffer_size,
        chunk_size_bytes: settings.logging.chunk_size_bytes,
        flush_interval_ms: settings.logging.flush_interval_ms,
        enable_persistence: settings.logging.enable_persistence,
        max_pending_logs: settings.logging.max_pending_logs,
    }
}

/// The admission bound is never exceeded: however the runner is driven,
/// the number of running jobs stays within the configured capacity.
pub proof fn lemma_capacity_respected(r: &JobRunner)
    requires
        r.wf(),
    ensures
        r.spec_current_jobs() as int <= r.spec_settings().runner.max_concurrent_jobs as int,
        r.spec_current_jobs() as int == r.contexts().len(),
{
}

/// What the graceful-shutdown drain does next.
pub enum DrainStep {
    /// No job is running: shutdown completes.
    AllDone,
    /// The drain budget is exhausted: cancel what remains.
    CancelRemaining,
    /// Keep waiting.
    KeepWaiting,
}

/// Decide the drain move: done at zero jobs, cancel past the budget, else
/// wait.
pub fn drain_decision(job_count: u32, elapsed_secs: u64, shutdown_timeout_secs: u64) -> (r:
    DrainStep)
    ensures
        job_count == 0 ==> r is AllDone,
        job_count > 0 && elapsed_secs > shutdown_timeout_secs ==> r is CancelRemaining,
        job_count > 0 && elapsed_secs <= shutdown_timeout_secs ==> r is KeepWaiting,
{
    if job_count == 0 {
        DrainStep::AllDone
    } else if elapsed_secs > shutdown_timeout_secs {
        DrainStep::CancelRemaining
    } else {
        DrainStep::KeepWaiting
    }
}

} // verus!
