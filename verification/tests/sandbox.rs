//! Sandboxed code execution.

use skadoosh::json::{parse_json, Json};
use skadoosh::sandbox::{
    build_subprocess_argv, clamp_to_hard_limits, code_exec_tool_definition, fmt_limit,
    format_result, parse_code_exec_args, parse_language, scrub_env, temp_dir_name, ulimit_prefix,
    wait_with_timeout, ChildState, CodeLanguage, DockerImages, HardLimits, HostProbes,
    ResourceLimits, SandboxExecutor, SandboxMode, WaitStep, CODE_EXEC_TOOL_NAME,
};

fn probes(unshare: bool, docker: bool) -> HostProbes {
    HostProbes { unshare, docker }
}

#[test]
fn parse_language_accepts_aliases() {
    assert_eq!(parse_language("python"), Some(CodeLanguage::Python));
    assert_eq!(parse_language("Python3"), Some(CodeLanguage::Python));
    assert_eq!(parse_language("sh"), Some(CodeLanguage::Shell));
    assert_eq!(parse_language("BASH"), Some(CodeLanguage::Shell));
    assert_eq!(parse_language("binary"), Some(CodeLanguage::Binary));
    assert_eq!(parse_language("exec"), Some(CodeLanguage::Binary));
    assert_eq!(parse_language("rust"), None);
}

#[test]
fn parse_code_exec_args_defaults_language_to_python() {
    let (lang, code, args) = parse_code_exec_args(r#"{"code":"print(1)"}"#).expect("parses");
    assert_eq!(lang, CodeLanguage::Python);
    assert_eq!(code, "print(1)");
    assert!(args.is_empty());
}

#[test]
fn parse_code_exec_args_reads_binary_args_and_command_alias() {
    let (lang, code, args) = parse_code_exec_args(
        r#"{"language":"binary","command":"/bin/ls","args":["-la","/work"]}"#,
    )
    .expect("parses");
    assert_eq!(lang, CodeLanguage::Binary);
    assert_eq!(code, "/bin/ls");
    assert_eq!(args, vec!["-la".to_string(), "/work".to_string()]);
}

#[test]
fn parse_code_exec_args_rejects_unknown_language() {
    assert!(parse_code_exec_args(r#"{"language":"rust","code":"x"}"#).is_err());
}

#[test]
fn unknown_languages_are_named() {
    let err = parse_code_exec_args(r#"{"language":"rust","code":"x"}"#).unwrap_err();
    assert_eq!(
        err.message(),
        "code_exec: unknown language 'rust' (expected one of: python, shell, binary)"
    );
}

#[test]
fn build_subprocess_argv_python_passes_code_as_positional() {
    let limits = ResourceLimits {
        cpu_secs: 30,
        as_kb: 1_048_576,
        nofile: 256,
    };
    let argv = build_subprocess_argv(
        false,
        limits,
        CodeLanguage::Python,
        "print('hi')",
        &Vec::new(),
    );
    // bash -c <script> skadoosh <code>
    assert_eq!(argv[0], "bash");
    assert_eq!(argv[1], "-c");
    let script = &argv[2];
    assert!(script.contains("ulimit -t 30"), "script: {script}");
    assert!(script.contains("ulimit -v 1048576"), "script: {script}");
    assert!(script.contains("ulimit -n 256"), "script: {script}");
    assert!(
        script.contains("exec python3 -c \"$1\""),
        "script: {script}"
    );
    assert_eq!(argv[3], "skadoosh"); // $0
    assert_eq!(argv[4], "print('hi')"); // $1 = code
}

#[test]
fn build_subprocess_argv_prepends_unshare_when_isolated() {
    let argv = build_subprocess_argv(
        true,
        ResourceLimits {
            cpu_secs: 5,
            as_kb: 0,
            nofile: 0,
        },
        CodeLanguage::Shell,
        "echo hi",
        &Vec::new(),
    );
    assert_eq!(argv[0], "unshare");
    assert_eq!(argv[1], "-n");
    assert_eq!(argv[2], "bash");
    let script = &argv[4];
    assert!(script.contains("ulimit -t 5"), "script: {script}");
    assert!(script.contains("ulimit -v unlimited"), "script: {script}");
    assert!(script.contains("ulimit -n unlimited"), "script: {script}");
    assert!(script.contains("exec bash -c \"$1\""), "script: {script}");
    assert_eq!(argv[5], "skadoosh");
    assert_eq!(argv[6], "echo hi");
}

#[test]
fn build_subprocess_argv_binary_passes_path_and_args_positionally() {
    let argv = build_subprocess_argv(
        false,
        ResourceLimits {
            cpu_secs: 0,
            as_kb: 0,
            nofile: 0,
        },
        CodeLanguage::Binary,
        "/bin/echo",
        &vec!["hello".to_string(), "world".to_string()],
    );
    let script = &argv[2];
    assert!(script.contains("exec \"$@\""), "script: {script}");
    assert_eq!(argv[3], "skadoosh");
    assert_eq!(argv[4], "/bin/echo");
    assert_eq!(argv[5], "hello");
    assert_eq!(argv[6], "world");
}

#[test]
fn fmt_limit_zero_is_unlimited() {
    assert_eq!(fmt_limit(0), "unlimited");
    assert_eq!(fmt_limit(42), "42");
}

fn text_of(v: Option<&Json>) -> String {
    match v {
        Some(Json::Text(s)) => s.clone(),
        _ => panic!("no text"),
    }
}

fn entry(v: Option<&Json>, i: usize) -> &Json {
    match v {
        Some(Json::List(list)) => &list[i],
        _ => panic!("no list"),
    }
}

#[test]
fn code_exec_tool_definition_has_expected_shape() {
    let tool = code_exec_tool_definition();
    assert_eq!(tool.function.name, CODE_EXEC_TOOL_NAME);
    let params = parse_json(&tool.function.parameters).unwrap();
    assert_eq!(text_of(params.get("type")), "object");
    let properties = params.get("properties").unwrap();
    let language = properties.get("language").unwrap();
    assert_eq!(text_of(Some(entry(language.get("enum"), 0))), "python");
    let code = properties.get("code").unwrap();
    assert_eq!(text_of(code.get("type")), "string");
    assert_eq!(text_of(Some(entry(params.get("required"), 0))), "language");
    assert_eq!(text_of(Some(entry(params.get("required"), 1))), "code");
}

#[test]
fn new_clamps_limits_and_probes_unshare() {
    // Construction must not panic and must surface a probed unshare flag.
    let exec = SandboxExecutor::new(2, SandboxMode::Subprocess, probes(false, false));
    assert_eq!(exec.timeout_secs(), 2);
    assert_eq!(exec.mode(), SandboxMode::Subprocess);
    // In an unprivileged sandbox unshare is unavailable; just check it ran.
    let _ = exec.unshare_available();
}

#[test]
fn limits_are_clamped_to_the_hard_ones() {
    let hard = HardLimits {
        cpu_secs: Some(10),
        as_bytes: Some(2048),
        nofile: None,
        infinity: u64::MAX,
    };
    let mut limits = ResourceLimits {
        cpu_secs: 30,
        as_kb: 1_048_576,
        nofile: 256,
    };
    clamp_to_hard_limits(&mut limits, &hard);
    assert_eq!(
        limits,
        ResourceLimits {
            cpu_secs: 10,
            as_kb: 2,
            nofile: 256
        }
    );
    // A request for no limit becomes the hard limit.
    let mut limits = ResourceLimits {
        cpu_secs: 0,
        as_kb: 0,
        nofile: 0,
    };
    clamp_to_hard_limits(&mut limits, &hard);
    assert_eq!(
        limits,
        ResourceLimits {
            cpu_secs: 10,
            as_kb: 2,
            nofile: 0
        }
    );
    let open = HardLimits {
        cpu_secs: Some(u64::MAX),
        as_bytes: Some(u64::MAX),
        nofile: Some(u64::MAX),
        infinity: u64::MAX,
    };
    let exec = SandboxExecutor::with_hard_limits(
        7,
        SandboxMode::Subprocess,
        probes(true, false),
        &open,
    );
    assert_eq!(
        exec.limits,
        ResourceLimits {
            cpu_secs: 7,
            as_kb: 1_048_576,
            nofile: 256
        }
    );
}

#[test]
fn the_hard_limits_of_this_process_never_raise_a_request() {
    let exec = SandboxExecutor::new(2, SandboxMode::Subprocess, probes(true, false));
    assert!(exec.limits.cpu_secs <= 2);
    assert!(exec.limits.as_kb <= 1_048_576);
    assert!(exec.limits.nofile <= 256);
}

#[test]
fn the_script_sets_every_limit() {
    let limits = ResourceLimits {
        cpu_secs: 1,
        as_kb: 2,
        nofile: 0,
    };
    assert_eq!(
        ulimit_prefix(limits),
        "ulimit -t 1; ulimit -v 2; ulimit -n unlimited"
    );
}

#[test]
fn results_are_reported_as_json() {
    assert_eq!(
        format_result(&b"hi\n".to_vec(), &Vec::new(), Some(0), false),
        r#"{"stdout":"hi\n","stderr":"","exit_code":0,"timed_out":false}"#
    );
    assert_eq!(
        format_result(&Vec::new(), &b"\"".to_vec(), None, true),
        r#"{"stdout":"","stderr":"\"","exit_code":124,"timed_out":true}"#
    );
    assert_eq!(
        format_result(&Vec::new(), &Vec::new(), None, false),
        r#"{"stdout":"","stderr":"","exit_code":null,"timed_out":false}"#
    );
}

#[test]
fn a_natural_exit_comes_before_the_deadline() {
    assert_eq!(wait_with_timeout(ChildState::Exited, 9, 5), WaitStep::Stop);
    assert_eq!(wait_with_timeout(ChildState::Running, 5, 5), WaitStep::Kill);
    assert_eq!(wait_with_timeout(ChildState::Running, 4, 5), WaitStep::Poll);
    assert_eq!(wait_with_timeout(ChildState::Running, 99, 0), WaitStep::Poll);
    assert_eq!(wait_with_timeout(ChildState::Unknown, 0, 5), WaitStep::Stop);
}

#[test]
fn guests_see_a_scrubbed_environment() {
    let env = scrub_env(Some("/bin"), None, Some("/p"), "/work");
    assert_eq!(
        env,
        vec![
            ("PATH".to_string(), "/bin".to_string()),
            ("HOME".to_string(), "/p".to_string()),
            ("TMPDIR".to_string(), "/work".to_string()),
        ]
    );
    assert_eq!(temp_dir_name(7, 1, 42), "skadoosh-sandbox-7-1-42");
}

#[test]
fn subprocess_runs_stand_under_timeout() {
    let exec = SandboxExecutor::new(3, SandboxMode::Subprocess, probes(true, false))
        .with_network_isolated(true);
    let argv = exec.run_subprocess(CodeLanguage::Shell, "ls", &Vec::new());
    assert_eq!(
        argv[..6],
        [
            "timeout".to_string(),
            "--kill-after".to_string(),
            "5".to_string(),
            "3".to_string(),
            "unshare".to_string(),
            "-n".to_string()
        ]
    );
    let open = exec.with_network_isolated(false);
    assert_eq!(open.run_subprocess(CodeLanguage::Shell, "ls", &Vec::new())[4], "bash");
    assert_eq!(open.watchdog_secs(), 3);
    assert!(open
        .finish(&Vec::new(), &Vec::new(), None, true)
        .ends_with("\"timed_out\":true}"));
}

#[test]
fn docker_runs_need_a_daemon() {
    let bare = SandboxExecutor::new(3, SandboxMode::Docker, probes(false, false));
    let err = bare
        .run_docker("/w", CodeLanguage::Python, "1", &Vec::new())
        .unwrap_err();
    assert_eq!(
        err.message(),
        "code_exec: Docker sandbox requested but the Docker daemon is not available"
    );
    let exec = SandboxExecutor::new(3, SandboxMode::Docker, probes(false, true))
        .with_docker_images(DockerImages::default());
    let argv = exec
        .run_docker("/w", CodeLanguage::Python, "1", &Vec::new())
        .unwrap();
    assert_eq!(argv[0], "timeout");
    assert!(argv.contains(&"--network".to_string()));
    let n = argv.len();
    assert_eq!(
        argv[n - 4..],
        [
            "python:3-slim".to_string(),
            "python3".to_string(),
            "-c".to_string(),
            "1".to_string()
        ]
    );
    assert_eq!(exec.watchdog_secs(), 33);
}
