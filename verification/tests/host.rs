use macland_core::adapter::{AdapterManifest, BuildSystem};
use macland_core::conformance::parse_status;
use macland_core::env_map::EnvMap;
use macland_core::host::{
    decimal_of, host_status_from, is_failure_status, is_success_status, launch_artifacts,
    launch_outcome, launch_request, resolve_binary, smoke_after_grace, smoke_on_exit,
    smoke_on_status, smoke_timeout_message, HostSessionMode, SmokeStep,
};
use macland_core::runner::EnvProbe;

fn fixture(entrypoint: &[&str]) -> AdapterManifest {
    let mut env = EnvMap::new();
    env.insert("MACLAND_MODE".to_string(), "1".to_string());
    AdapterManifest {
        id: "fixture".to_string(),
        repo: "https://example.com".to_string(),
        rev: "main".to_string(),
        build_system: BuildSystem::Custom,
        configure: Vec::new(),
        build: vec!["/usr/bin/true".to_string()],
        test: Vec::new(),
        entrypoint: entrypoint.iter().map(|s| s.to_string()).collect(),
        env,
        sdk_features: vec!["metal-fast-path".to_string()],
        protocol_expectations: vec!["xdg-shell".to_string()],
        patch_policy: "prefer-none".to_string(),
    }
}

fn no_probe() -> EnvProbe {
    EnvProbe { inherited: EnvMap::new(), workspace_root: None, existing: Vec::new() }
}

#[test]
fn creates_launch_request_file() {
    let manifest = fixture(&["bin/demo", "--flag"]);
    let request = launch_request(
        &manifest,
        "/tmp/demo",
        HostSessionMode::WindowedDebug,
        "/tmp/demo/status.txt",
        &no_probe(),
    )
    .unwrap();
    assert_eq!(request.compositor_executable, Some("/tmp/demo/bin/demo".to_string()));
    assert_eq!(request.compositor_arguments, vec!["--flag".to_string()]);
    assert_eq!(request.environment.get("MACLAND_MODE"), Some(&"1".to_string()));
    assert_eq!(
        request.permission_hints,
        vec!["accessibility".to_string(), "inputMonitoring".to_string()]
    );
    assert_eq!(request.working_directory, Some("/tmp/demo".to_string()));
    assert_eq!(request.status_file, Some("/tmp/demo/status.txt".to_string()));
    assert!(request.auto_exit_after_child);
    assert_eq!(request.mode, HostSessionMode::WindowedDebug);
}

#[test]
fn empty_entrypoint_is_an_error() {
    let manifest = fixture(&[]);
    let err = launch_request(&manifest, "/src", HostSessionMode::Fullscreen, "/s", &no_probe())
        .unwrap_err();
    assert_eq!(err, "entrypoint is empty");
}

#[test]
fn resolves_binaries() {
    assert_eq!(resolve_binary("/src", "weston"), "weston");
    assert_eq!(resolve_binary("/src", "/usr/bin/true"), "/usr/bin/true");
    assert_eq!(resolve_binary("/src", "./build/labwc"), "/src/./build/labwc");
    let artifacts = launch_artifacts("/ws/repos/x/artifacts");
    assert_eq!(artifacts.request_path, "/ws/repos/x/artifacts/host-launch.json");
    assert_eq!(artifacts.status_path, "/ws/repos/x/artifacts/host-status.txt");
}

#[test]
fn success_and_failure_statuses() {
    for s in ["host_started", "child_started", "child_exit:0"] {
        assert!(is_success_status(s));
        assert!(!is_failure_status(s));
    }
    for s in ["child_failed:test", "child_exit:1", ""] {
        assert!(!is_success_status(s));
        assert!(is_failure_status(s));
    }
}

#[test]
fn reads_status_file() {
    assert_eq!(host_status_from(Some("child_started"), "ignored"), Some("child_started".to_string()));
    assert_eq!(host_status_from(None, "host_started\n  child_exit:0  \n\n   \n"), Some("child_exit:0".to_string()));
    assert_eq!(host_status_from(None, "\n \n"), None);
}

#[test]
fn launch_outcomes() {
    assert_eq!(launch_outcome(true, "exit status: 0", Some("child_exit:0"), "/s"), Ok(()));
    assert_eq!(
        launch_outcome(true, "exit status: 0", None, "/s"),
        Err("host exited without writing status file /s".to_string())
    );
    assert_eq!(
        launch_outcome(true, "exit status: 0", Some("child_failed:test"), "/s"),
        Err("host reported status child_failed:test".to_string())
    );
    assert_eq!(
        launch_outcome(false, "exit status: 1", Some("child_exit:0"), "/s"),
        Err("host exited with status exit status: 1".to_string())
    );
}

#[test]
fn smoke_launch_steps() {
    assert_eq!(smoke_on_status(Some("child_started")), SmokeStep::AwaitGrace);
    assert_eq!(smoke_on_status(Some("host_started")), SmokeStep::Continue);
    assert_eq!(smoke_on_status(None), SmokeStep::Continue);
    assert_eq!(
        smoke_on_status(Some("child_failed:boom")),
        SmokeStep::Fail("host reported status child_failed:boom".to_string())
    );
    assert_eq!(smoke_after_grace(Some("child_started")), Ok(()));
    assert_eq!(smoke_after_grace(None), Ok(()));
    assert_eq!(
        smoke_after_grace(Some("child_exit:3")),
        Err("host reported status child_exit:3".to_string())
    );
    assert_eq!(
        smoke_on_exit(false, "signal: 9", None, "/s"),
        Err("host reported status host exited with status signal: 9".to_string())
    );
    assert_eq!(smoke_on_exit(true, "exit status: 0", Some("child_exit:0"), "/s"), Ok(()));
    assert_eq!(
        smoke_timeout_message(5000),
        "host did not report child startup within 5000 ms"
    );
    assert_eq!(decimal_of(0), vec!['0']);
    assert_eq!(decimal_of(1234), vec!['1', '2', '3', '4']);
}

#[test]
fn conformance_status_reports() {
    let report = parse_status(None, "host_started\nchild_started\nchild_exit:0\n", "/s");
    assert!(report.passed());
    assert_eq!(report.status_file, "/s");
    let report = parse_status(Some("child_started"), "child_exit:0", "/s");
    assert!(report.child_started);
    assert!(!report.child_exited_successfully);
    assert!(!report.passed());
}
