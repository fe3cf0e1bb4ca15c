use runners::artifact::ArtifactUploader;
use runners::config::{DockerConfig, ShellConfig};
use runners::docker::{build_container_config, container_name, docker_socket_is_path, pull_decision};
use runners::executor::{
    completed_result, timeout_result, ExecutionContext, ExecutorType, ShellExecutor,
};
use runners::kvmap::StrMap;
use runners::memory_percent;
use runners::secrets::{mask_secret, mask_secrets};
use runners::session::ping_payload;
use runners::strutil::u64_to_string;

fn shell_executor() -> ShellExecutor {
    ShellExecutor::new(ShellConfig { default_shell: "bash".to_string(), cleanup_workspace: false })
}

#[test]
fn test_shell_lookup_table() {
    let ex = shell_executor();
    assert_eq!(ex.get_shell_command("bash"), ("bash", "-c"));
    assert_eq!(ex.get_shell_command("sh"), ("sh", "-c"));
    assert_eq!(ex.get_shell_command("zsh"), ("zsh", "-c"));
    assert_eq!(ex.get_shell_command("fish"), ("fish", "-c"));
    assert_eq!(ex.get_shell_command("pwsh"), ("pwsh", "-Command"));
    assert_eq!(ex.get_shell_command("powershell"), ("pwsh", "-Command"));
    assert_eq!(ex.get_shell_command("cmd"), ("cmd", "/C"));
    assert_eq!(ex.get_shell_command("mystery"), ("bash", "-c"));
}

#[test]
fn test_executor_type_from_str() {
    assert_eq!(ExecutorType::from_str("shell"), Some(ExecutorType::Shell));
    assert_eq!(ExecutorType::from_str("SHELL"), Some(ExecutorType::Shell));
    assert_eq!(ExecutorType::from_str("Docker"), Some(ExecutorType::Docker));
    assert_eq!(ExecutorType::from_str("other"), None);
}

#[test]
fn test_completed_and_timeout_results() {
    let out = vec!["one".to_string(), "two".to_string()];
    let err: Vec<String> = Vec::new();
    let done = completed_result(Some(0), &out, &err, 25);
    assert_eq!(done.exit_code, 0);
    assert_eq!(done.stdout, "one\ntwo");
    assert_eq!(done.stderr, "");
    assert!(!done.timed_out);
    assert!(done.success());

    let dead = completed_result(None, &err, &err, 25);
    assert_eq!(dead.exit_code, -1);
    assert!(!dead.success());

    // A step killed at its budget reports the timeout sentinel.
    let t = timeout_result(1000);
    assert_eq!(t.exit_code, -1);
    assert!(t.timed_out);
    assert_eq!(t.stderr, "Command timed out");
    assert!(!t.success());
}

#[test]
fn test_pull_policy_decisions() {
    assert!(!pull_decision("never", false));
    assert!(!pull_decision("if-not-present", true));
    assert!(pull_decision("if-not-present", false));
    assert!(pull_decision("always", true));
}

#[test]
fn test_docker_socket_kinds() {
    assert!(docker_socket_is_path("/var/run/docker.sock"));
    assert!(docker_socket_is_path("unix:///var/run/docker.sock"));
    assert!(!docker_socket_is_path("tcp://127.0.0.1:2375"));
    assert!(!docker_socket_is_path(""));
}

#[test]
fn test_container_naming() {
    assert_eq!(container_name("job-1", "step-2"), "muelsyse-job-1-step-2");
}

#[test]
fn test_container_config_shape() {
    let mut environment = StrMap::new();
    environment.insert("HOME".to_string(), "/root".to_string());
    let ctx = ExecutionContext {
        job_id: "j".to_string(),
        step_id: "s".to_string(),
        command: "echo hi".to_string(),
        shell: "bash".to_string(),
        working_directory: "/tmp/ws".to_string(),
        environment,
        timeout_ms: 1000,
        container_image: Some("alpine:3.19".to_string()),
        container_options: None,
    };
    let config = DockerConfig {
        socket: "/var/run/docker.sock".to_string(),
        network_mode: "bridge".to_string(),
        memory_limit: 0,
        cpu_limit_milli: 1500,
        pull_policy: "if-not-present".to_string(),
    };
    let built = build_container_config(&ctx, &config);
    assert_eq!(built.image, "alpine:3.19");
    assert_eq!(built.env_lines, vec!["HOME=/root".to_string()]);
    assert_eq!(
        built.cmd,
        vec!["bash".to_string(), "-c".to_string(), "echo hi".to_string()]
    );
    assert_eq!(built.working_dir, "/workspace");
    assert_eq!(built.binds, vec!["/tmp/ws:/workspace".to_string()]);
    assert_eq!(built.network_mode, "bridge");
    assert_eq!(built.memory_limit, None);
    assert_eq!(built.cpu_period, Some(100000));
    assert_eq!(built.cpu_quota, Some(150000));
    assert_eq!(built.security_opt, vec!["no-new-privileges:true".to_string()]);
}

#[test]
fn test_checksum_of_known_bytes() {
    let data = b"hello".to_vec();
    assert_eq!(
        ArtifactUploader::calculate_checksum(&data),
        "2cf24dba5fb0a30e26e83b2ac5b9e29e1b161e5c1fa7425e73043362938b9824"
    );
}

#[test]
fn test_mask_single_secret() {
    assert_eq!(mask_secret("a SECRET b", "SECRET"), "a *** b");
    assert_eq!(mask_secret("SECRETSECRET", "SECRET"), "******");
    assert_eq!(mask_secret("nothing here", "SECRET"), "nothing here");
    // An empty secret masks nothing.
    assert_eq!(mask_secret("abc", ""), "abc");
}

#[test]
fn test_mask_secrets_from_map() {
    let mut secrets = StrMap::new();
    secrets.insert("API_KEY".to_string(), "hunter2".to_string());
    secrets.insert("TOKEN".to_string(), "t0ps3cret".to_string());
    let masked = mask_secrets("key=hunter2 token=t0ps3cret done", &secrets);
    assert!(!masked.contains("hunter2"));
    assert!(!masked.contains("t0ps3cret"));
    assert_eq!(masked, "key=*** token=*** done");
}

#[test]
fn test_memory_percent_values() {
    assert_eq!(memory_percent(0, 0), 0);
    assert_eq!(memory_percent(1, 2), 50);
    assert_eq!(memory_percent(3, 4), 75);
}

#[test]
fn test_decimal_rendering() {
    assert_eq!(u64_to_string(0), "0");
    assert_eq!(u64_to_string(42), "42");
    assert_eq!(u64_to_string(1009), "1009");
}

#[test]
fn test_ping_payload_big_endian() {
    let payload = ping_payload(1);
    assert_eq!(payload, vec![0, 0, 0, 0, 0, 0, 0, 1]);
    let payload = ping_payload(0x0102030405060708);
    assert_eq!(payload, vec![1, 2, 3, 4, 5, 6, 7, 8]);
}
