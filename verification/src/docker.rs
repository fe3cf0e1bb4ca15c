//! Container executor decision logic: the pull policy, the container name,
//! the container configuration built for the engine, and how a wait outcome
//! becomes an execution result. The engine calls themselves are I/O and
//! happen outside the library; the values prepared here are handed over
//! unchanged.

use vstd::prelude::*;

use crate::config::DockerConfig;
use crate::executor::{ExecutionContext, ExecutionResult};
use crate::strutil::{concat_str, str_eq, string_views};

verus! {

/// Whether the engine socket setting is a filesystem path (as opposed to an
/// address resolved by the engine client's defaults).
pub fn docker_socket_is_path(socket: &str) -> (r: bool)
    ensures
        r == (socket@.len() >= 7 && socket@.subrange(0, 7) == "unix://"@ || socket@.len() > 0
            && socket@[0] == '/'),
{
    let n = socket.unicode_len();
    if n == 0 {
        return false;
    }
    if socket.get_char(0) == '/' {
        return true;
    }
    if n < 7 {
        proof {
            reveal_strlit("unix://");
        }
        return false;
    }
    let prefix = socket.substring_char(0, 7);
    let r = str_eq(prefix, "unix://");
    proof {
        assert(prefix@ == socket@.subrange(0, 7));
    }
    r
}

/// Whether the image must be pulled before the run: never under `never`,
/// only when absent under `if-not-present`, always otherwise.
pub fn pull_decision(pull_policy: &str, image_present: bool) -> (r: bool)
    ensures
        pull_policy@ == "never"@ ==> !r,
        pull_policy@ == "if-not-present"@ ==> r == !image_present,
        pull_policy@ != "never"@ && pull_policy@ != "if-not-present"@ ==> r,
{
    proof {
        reveal_strlit("never");
        reveal_strlit("if-not-present");
        assert("never"@.len() == 5);
        assert("if-not-present"@.len() == 14);
    }
    if str_eq(pull_policy, "never") {
        false
    } else if str_eq(pull_policy, "if-not-present") {
        !image_present
    } else {
        true
    }
}

/// The unique name a step's container runs under, so that assignments are
/// externally discoverable.
pub fn container_name(job_id: &str, step_id: &str) -> (r: String)
    ensures
        r@ == "muelsyse-"@ + job_id@ + "-"@ + step_id@,
{
    let mut s = concat_str("muelsyse-", job_id);
    s.append("-");
    s.append(step_id);
    s
}

/// The container configuration handed to the engine, as plain values.
pub struct ContainerConfig {
    /// Image to run.
    pub image: String,
    /// Environment as `KEY=VALUE` lines.
    pub env_lines: Vec<String>,
    /// Command: shell, flag, command line.
    pub cmd: Vec<String>,
    /// Working directory inside the container.
    pub working_dir: String,
    /// Bind mounts as `host:container` lines.
    pub binds: Vec<String>,
    /// Network mode.
    pub network_mode: String,
    /// Memory limit in bytes, when bounded.
    pub memory_limit: Option<u64>,
    /// CPU period, set together with the quota.
    pub cpu_period: Option<u64>,
    /// CPU quota against the period.
    pub cpu_quota: Option<u64>,
    /// Security options.
    pub security_opt: Vec<String>,
}

/// The `KEY=VALUE` environment lines of the pairs.
pub open spec fn env_lines_of(pairs: Seq<(String, String)>) -> Seq<Seq<char>> {
    pairs.map_values(|p: (String, String)| p.0@ + "="@ + p.1@)
}

proof fn lemma_string_views_push(s: Seq<String>, x: String)
    ensures
        string_views(s.push(x)) =~= string_views(s).push(x@),
{
    assert forall|i: int| 0 <= i < s.len() + 1 implies string_views(s.push(x))[i] == string_views(
        s,
    ).push(x@)[i] by {
        if i < s.len() {
            assert(s.push(x)[i] == s[i]);
        } else {
            assert(s.push(x)[i] == x);
        }
    }
}

proof fn lemma_env_lines_step(pairs: Seq<(String, String)>, i: int)
    requires
        0 <= i < pairs.len(),
    ensures
        env_lines_of(pairs.subrange(0, i + 1)) =~= env_lines_of(pairs.subrange(0, i)).push(
            pairs[i].0@ + "="@ + pairs[i].1@,
        ),
{
    let pre = pairs.subrange(0, i);
    let post = pairs.subrange(0, i + 1);
    assert forall|t: int| 0 <= t < post.len() implies env_lines_of(post)[t] == env_lines_of(
        pre,
    ).push(pairs[i].0@ + "="@ + pairs[i].1@)[t] by {
        if t < i {
            assert(post[t] == pairs[t] && pre[t] == pairs[t]);
        } else {
            assert(post[t] == pairs[i]);
        }
    }
}

/// Build the configuration for a step's container: merged environment, the
/// step command under the step's shell, the workspace bound to
/// `/workspace`, resource limits from the options and then the engine
/// configuration, and privilege escalation disabled.
pub fn build_container_config(ctx: &ExecutionContext, config: &DockerConfig) -> (r: ContainerConfig)
    ensures
        r.image@ == match ctx.container_image {
            Some(img) => img@,
            None => "alpine:latest"@,
        },
        ({
            let base = env_lines_of(ctx.environment.pairs());
            match ctx.container_options {
                Some(opts) => string_views(r.env_lines@) == base + env_lines_of(
                    opts.env.pairs(),
                ),
                None => string_views(r.env_lines@) == base,
            }
        }),
        r.cmd@.len() == 3 && r.cmd@[0]@ == ctx.shell@ && r.cmd@[1]@ == "-c"@ && r.cmd@[2]@
            == ctx.command@,
        r.working_dir@ == "/workspace"@,
        r.binds@.len() >= 1 && r.binds@[0]@ == ctx.working_directory@ + ":/workspace"@,
        ({
            match ctx.container_options {
                Some(opts) => r.binds@.len() == 1 + opts.volumes@.len() && forall|i: int|
                    0 <= i < opts.volumes@.len() ==> (#[trigger] r.binds@[i + 1])@
                        == opts.volumes@[i]@,
                None => r.binds@.len() == 1,
            }
        }),
        r.network_mode@ == match ctx.container_options {
            Some(opts) => match opts.network_mode {
                Some(nm) => nm@,
                None => config.network_mode@,
            },
            None => config.network_mode@,
        },
        r.memory_limit == if config.memory_limit > 0 {
            Some(config.memory_limit)
        } else {
            match ctx.container_options {
                Some(opts) => opts.memory_limit,
                None => None::<u64>,
            }
        },
        ({
            let opt_cpu = match ctx.container_options {
                Some(opts) => opts.cpu_limit_milli,
                None => None::<u64>,
            };
            let milli: Option<u64> = if config.cpu_limit_milli > 0 {
                Some(config.cpu_limit_milli)
            } else {
                opt_cpu
            };
            match milli {
                Some(m) => r.cpu_period == Some(100000u64) && r.cpu_quota == Some(
                    if m * 100 <= u64::MAX {
                        (m * 100) as u64
                    } else {
                        u64::MAX
                    },
                ),
                None => r.cpu_period is None && r.cpu_quota is None,
            }
        }),
        r.security_opt@.len() == 1 && r.security_opt@[0]@ == "no-new-privileges:true"@,
{
    let image = match &ctx.container_image {
        Some(img) => img.clone(),
        None => "alpine:latest".to_owned(),
    };

    let mut env_lines: Vec<String> = Vec::new();
    let n = ctx.environment.pair_count();
    let mut i: usize = 0;
    while i < n
        invariant
            i <= n,
            n == ctx.environment.pairs().len(),
            string_views(env_lines@) =~= env_lines_of(
                ctx.environment.pairs().subrange(0, i as int),
            ),
        decreases n - i,
    {
        let (k, v) = ctx.environment.pair_at(i);
        let mut line = concat_str(k.as_str(), "=");
        line.append(v.as_str());
        proof {
            lemma_string_views_push(env_lines@, line);
            lemma_env_lines_step(ctx.environment.pairs(), i as int);
        }
        env_lines.push(line);
        i = i + 1;
    }
    proof {
        assert(ctx.environment.pairs().subrange(0, n as int) =~= ctx.environment.pairs());
    }

    let mut binds: Vec<String> = Vec::new();
    let mut first_bind = concat_str(ctx.working_directory.as_str(), ":/workspace");
    binds.push(first_bind);

    let mut network_mode = network_copy(config);
    let mut memory_limit: Option<u64> = None;
    let mut cpu_milli: Option<u64> = None;

    match &ctx.container_options {
        Some(opts) => {
            let m = opts.env.pair_count();
            let ghost base = env_lines_of(ctx.environment.pairs());
            let mut j: usize = 0;
            while j < m
                invariant
                    j <= m,
                    m == opts.env.pairs().len(),
                    base == env_lines_of(ctx.environment.pairs()),
                    string_views(env_lines@) =~= base + env_lines_of(
                        opts.env.pairs().subrange(0, j as int),
                    ),
                decreases m - j,
            {
                let (k, v) = opts.env.pair_at(j);
                let mut line = concat_str(k.as_str(), "=");
                line.append(v.as_str());
                proof {
                    lemma_string_views_push(env_lines@, line);
                    lemma_env_lines_step(opts.env.pairs(), j as int);
                }
                env_lines.push(line);
                proof {
                    assert(string_views(env_lines@) =~= base + env_lines_of(
                        opts.env.pairs().subrange(0, j + 1 as int),
                    ));
                }
                j = j + 1;
            }
            proof {
                assert(opts.env.pairs().subrange(0, m as int) =~= opts.env.pairs());
            }

            let vn = opts.volumes.len();
            let mut t: usize = 0;
            while t < vn
                invariant
                    t <= vn,
                    vn == opts.volumes@.len(),
                    binds@.len() == 1 + t,
                    binds@[0]@ == ctx.working_directory@ + ":/workspace"@,
                    forall|q: int|
                        0 <= q < t ==> (#[trigger] binds@[q + 1])@ == opts.volumes@[q]@,
                decreases vn - t,
            {
                binds.push(opts.volumes[t].clone());
                t = t + 1;
            }

            memory_limit = match opts.memory_limit {
                Some(b) => Some(b),
                None => None,
            };
            cpu_milli = match opts.cpu_limit_milli {
                Some(c) => Some(c),
                None => None,
            };
            match &opts.network_mode {
                Some(nm) => {
                    network_mode = nm.clone();
                },
                None => {},
            }
        },
        None => {},
    }

    if config.memory_limit > 0 {
        memory_limit = Some(config.memory_limit);
    }
    if config.cpu_limit_milli > 0 {
        cpu_milli = Some(config.cpu_limit_milli);
    }

    let (cpu_period, cpu_quota): (Option<u64>, Option<u64>) = match cpu_milli {
        Some(m) => {
            let q: u128 = (m as u128) * 100;
            let quota: u64 = if q > u64::MAX as u128 {
                u64::MAX
            } else {
                q as u64
            };
            proof {
                assert((m as int) * 100 <= (u64::MAX as int) * 100) by (nonlinear_arith)
                    requires
                        m <= u64::MAX,
                ;
            }
            (Some(100000u64), Some(quota))
        },
        None => (None, None),
    };

    let mut security_opt: Vec<String> = Vec::new();
    security_opt.push("no-new-privileges:true".to_owned());

    let mut cmd: Vec<String> = Vec::new();
    cmd.push(ctx.shell.clone());
    cmd.push("-c".to_owned());
    cmd.push(ctx.command.clone());

    ContainerConfig {
        image,
        env_lines,
        cmd,
        working_dir: "/workspace".to_owned(),
        binds,
        network_mode,
        memory_limit,
        cpu_period,
        cpu_quota,
        security_opt,
    }
}

/// A copy of the configured default network mode.
fn network_copy(config: &DockerConfig) -> (r: String)
    ensures
        r@ == config.network_mode@,
{
    config.network_mode.clone()
}

/// The result of a container run that exited on its own: the engine's
/// status code truncated to an exit code, with the captured streams.
pub fn container_completed_result(
    status_code: i64,
    stdout: String,
    stderr: String,
    duration_ms: u64,
) -> (r: ExecutionResult)
    ensures
        r.exit_code == status_code as i32,
        r.stdout == stdout,
        r.stderr == stderr,
        r.duration_ms == duration_ms,
        !r.timed_out,
{
    ExecutionResult {
        exit_code: #[verifier::truncate] (status_code as i32),
        stdout,
        stderr,
        duration_ms,
        timed_out: false,
    }
}

/// The result of a container run stopped at its timeout: exit code -1, a
/// human-readable sentinel on standard error, captured output kept.
pub fn container_timeout_result(stdout: String, duration_ms: u64) -> (r: ExecutionResult)
    ensures
        r.exit_code == -1,
        r.stdout == stdout,
        r.stderr@ == "Container execution timed out"@,
        r.duration_ms == duration_ms,
        r.timed_out,
{
    ExecutionResult {
        exit_code: -1,
        stdout,
        stderr: "Container execution timed out".to_owned(),
        duration_ms,
        timed_out: true,
    }
}

} // verus!
