//! Executor types and the host-shell executor's decision logic. Spawning
//! processes and draining their pipes is I/O and happens outside the
//! library; what is decided here is which shell runs, and how captured
//! output and exit status become an execution result.

use vstd::prelude::*;

use crate::config::ShellConfig;
use crate::kvmap::StrMap;
use crate::strutil::{joined_lines, join_lines, str_eq};

verus! {

/// Type of executor.
#[derive(Clone, Copy, PartialEq, Eq, Structural, Debug)]
pub enum ExecutorType {
    Shell,
    Docker,
}

/// The character's code with an ASCII capital folded to lowercase.
pub open spec fn lower_char_int(c: char) -> int {
    if 65 <= c as int <= 90 {
        c as int + 32
    } else {
        c as int
    }
}

/// Equality up to ASCII case.
pub open spec fn eq_ignore_ascii_case(a: Seq<char>, b: Seq<char>) -> bool {
    a.len() == b.len() && forall|i: int|
        0 <= i < a.len() ==> lower_char_int(#[trigger] a[i]) == lower_char_int(b[i])
}

/// Whether two strings are equal up to ASCII case.
fn str_eq_ignore_ascii_case(a: &str, b: &str) -> (r: bool)
    ensures
        r == eq_ignore_ascii_case(a@, b@),
{
    let na = a.unicode_len();
    let nb = b.unicode_len();
    if na != nb {
        return false;
    }
    let mut i: usize = 0;
    while i < na
        invariant
            i <= na,
            na == a@.len(),
            na == b@.len(),
            forall|t: int| 0 <= t < i ==> lower_char_int(#[trigger] a@[t]) == lower_char_int(b@[t]),
        decreases na - i,
    {
        let ca = a.get_char(i);
        let cb = b.get_char(i);
        let la: u32 = if ca >= 'A' && ca <= 'Z' {
            ca as u32 + 32
        } else {
            ca as u32
        };
        let lb: u32 = if cb >= 'A' && cb <= 'Z' {
            cb as u32 + 32
        } else {
            cb as u32
        };
        if la != lb {
            proof {
                assert(lower_char_int(a@[i as int]) != lower_char_int(b@[i as int]));
            }
            return false;
        }
        i = i + 1;
    }
    true
}

impl ExecutorType {
    /// The executor named by a string, compared without regard to ASCII
    /// case; nothing for an unknown name.
    pub fn from_str(s: &str) -> (r: Option<Self>)
        ensures
            eq_ignore_ascii_case(s@, "shell"@) ==> r == Some(ExecutorType::Shell),
            eq_ignore_ascii_case(s@, "docker"@) ==> r == Some(ExecutorType::Docker),
            !eq_ignore_ascii_case(s@, "shell"@) && !eq_ignore_ascii_case(s@, "docker"@) ==> r
                is None,
    {
        proof {
            reveal_strlit("shell");
            reveal_strlit("docker");
            assert("shell"@.len() == 5);
            assert("docker"@.len() == 6);
        }
        if str_eq_ignore_ascii_case(s, "shell") {
            Some(ExecutorType::Shell)
        } else if str_eq_ignore_ascii_case(s, "docker") {
            Some(ExecutorType::Docker)
        } else {
            None
        }
    }
}

/// Container execution options attached to a context.
pub struct ContainerOptions {
    /// Extra environment entries for the container.
    pub env: StrMap,
    /// Extra bind mounts.
    pub volumes: Vec<String>,
    /// Network mode override.
    pub network_mode: Option<String>,
    /// Memory limit in bytes.
    pub memory_limit: Option<u64>,
    /// CPU limit in thousandths of a core.
    pub cpu_limit_milli: Option<u64>,
}

/// Context for one command execution, derived per step and consumed once.
pub struct ExecutionContext {
    /// Job the step belongs to.
    pub job_id: String,
    /// Step being executed.
    pub step_id: String,
    /// Command to execute; empty when the step names none.
    pub command: String,
    /// Shell selector (bash, sh, ...).
    pub shell: String,
    /// Resolved working directory.
    pub working_directory: String,
    /// Merged environment.
    pub environment: StrMap,
    /// Execution timeout in milliseconds.
    pub timeout_ms: u64,
    /// Container image, for the container executor.
    pub container_image: Option<String>,
    /// Container options.
    pub container_options: Option<ContainerOptions>,
}

/// Result of one command execution. A timeout or a nonzero exit is expected
/// data, not an error.
pub struct ExecutionResult {
    /// Exit code; -1 stands for timeout or abnormal termination.
    pub exit_code: i32,
    /// Captured standard output.
    pub stdout: String,
    /// Captured standard error.
    pub stderr: String,
    /// Wall-clock duration in milliseconds.
    pub duration_ms: u64,
    /// Whether the command was killed on timeout.
    pub timed_out: bool,
}

impl ExecutionResult {
    /// Success is exactly a zero exit without a timeout.
    pub fn success(&self) -> (r: bool)
        ensures
            r == (self.exit_code == 0 && !self.timed_out),
    {
        self.exit_code == 0 && !self.timed_out
    }
}

/// The shell binary and flag a step's shell name selects; unknown names
/// fall back to bash.
pub open spec fn shell_lookup(s: Seq<char>) -> (Seq<char>, Seq<char>) {
    if s == "bash"@ {
        ("bash"@, "-c"@)
    } else if s == "sh"@ {
        ("sh"@, "-c"@)
    } else if s == "zsh"@ {
        ("zsh"@, "-c"@)
    } else if s == "fish"@ {
        ("fish"@, "-c"@)
    } else if s == "pwsh"@ || s == "powershell"@ {
        ("pwsh"@, "-Command"@)
    } else if s == "cmd"@ {
        ("cmd"@, "/C"@)
    } else {
        ("bash"@, "-c"@)
    }
}

/// Shell executor that runs commands directly on the host.
pub struct ShellExecutor {
    pub config: ShellConfig,
}

impl ShellExecutor {
    pub fn new(config: ShellConfig) -> (r: Self)
        ensures
            r.config == config,
    {
        ShellExecutor { config }
    }

    /// Resolve the shell binary and flag for a step's shell name.
    pub fn get_shell_command(&self, shell: &str) -> (r: (&str, &str))
        ensures
            r.0@ == shell_lookup(shell@).0,
            r.1@ == shell_lookup(shell@).1,
    {
        if str_eq(shell, "bash") {
            ("bash", "-c")
        } else if str_eq(shell, "sh") {
            ("sh", "-c")
        } else if str_eq(shell, "zsh") {
            ("zsh", "-c")
        } else if str_eq(shell, "fish") {
            ("fish", "-c")
        } else if str_eq(shell, "pwsh") || str_eq(shell, "powershell") {
            ("pwsh", "-Command")
        } else if str_eq(shell, "cmd") {
            ("cmd", "/C")
        } else {
            ("bash", "-c")
        }
    }
}

/// The result of a run that finished on its own: captured lines joined with
/// newlines, the exit code as reported, -1 when the process died without
/// one.
pub fn completed_result(
    exit_code: Option<i32>,
    stdout_lines: &Vec<String>,
    stderr_lines: &Vec<String>,
    duration_ms: u64,
) -> (r: ExecutionResult)
    ensures
        r.exit_code == match exit_code {
            Some(c) => c,
            None => -1i32,
        },
        r.stdout@ == joined_lines(stdout_lines@.map_values(|l: String| l@)),
        r.stderr@ == joined_lines(stderr_lines@.map_values(|l: String| l@)),
        r.duration_ms == duration_ms,
        !r.timed_out,
{
    ExecutionResult {
        exit_code: match exit_code {
            Some(c) => c,
            None => -1,
        },
        stdout: join_lines(stdout_lines),
        stderr: join_lines(stderr_lines),
        duration_ms,
        timed_out: false,
    }
}

/// The result of a run killed at its timeout: exit code -1, a human-readable
/// sentinel on standard error, and the timeout flag set.
pub fn timeout_result(duration_ms: u64) -> (r: ExecutionResult)
    ensures
        r.exit_code == -1,
        r.stdout@ == Seq::<char>::empty(),
        r.stderr@ == "Command timed out"@,
        r.duration_ms == duration_ms,
        r.timed_out,
{
    ExecutionResult {
        exit_code: -1,
        stdout: String::new(),
        stderr: "Command timed out".to_owned(),
        duration_ms,
        timed_out: true,
    }
}

} // verus!
