use macland_core::adapter::{AdapterManifest, BuildSystem};
use macland_core::env_map::EnvMap;
use macland_core::report::SupportTier;
use macland_core::runner::{
    action_record, command_failure, effective_env, inspect_manifest, join_path, probed_paths,
    split_command, CommandPlan, EnvProbe,
};

fn sample() -> AdapterManifest {
    AdapterManifest {
        id: "sample".to_string(),
        repo: "https://example.com".to_string(),
        rev: "main".to_string(),
        build_system: BuildSystem::Cargo,
        configure: vec!["cargo".to_string(), "fetch".to_string()],
        build: vec!["cargo".to_string(), "build".to_string()],
        test: vec!["cargo".to_string(), "test".to_string()],
        entrypoint: vec!["cargo".to_string(), "run".to_string()],
        env: EnvMap::new(),
        sdk_features: vec!["metal-fast-path".to_string()],
        protocol_expectations: vec!["xdg-shell".to_string()],
        patch_policy: "prefer-none".to_string(),
    }
}

/// A machine with Homebrew under `/opt/homebrew` and nothing inherited.
fn homebrew_probe() -> EnvProbe {
    EnvProbe {
        inherited: EnvMap::new(),
        workspace_root: None,
        existing: vec![
            "/opt/homebrew".to_string(),
            "/opt/homebrew/lib/pkgconfig".to_string(),
            "/opt/homebrew/include".to_string(),
            "/opt/homebrew/lib".to_string(),
            "/opt/homebrew/bin".to_string(),
        ],
    }
}

fn merged(key: &str) -> String {
    let env = effective_env(&EnvMap::new(), &homebrew_probe());
    env.get(key).cloned().unwrap()
}

#[test]
fn plans_commands() {
    let manifest = sample();
    let plan = CommandPlan::for_manifest(&manifest);
    assert_eq!(plan.build, vec!["cargo".to_string(), "build".to_string()]);

    let report = inspect_manifest(&manifest);
    assert!(report.buildable);
}

#[test]
fn inspect_needs_build_and_entrypoint() {
    let mut manifest = sample();
    let report = inspect_manifest(&manifest);
    assert_eq!(report.tier, SupportTier::Tier1);
    assert!(!report.upstream_tests_pass && !report.conformance_pass && !report.fullscreen_run_pass);
    manifest.entrypoint.clear();
    let report = inspect_manifest(&manifest);
    assert!(!report.buildable);
    assert_eq!(report.tier, SupportTier::Experimental);
}

#[test]
fn upstream_test_hints() {
    assert_eq!(CommandPlan::upstream_test_hint(BuildSystem::Meson), "meson test");
    assert_eq!(CommandPlan::upstream_test_hint(BuildSystem::CMake), "ctest");
    assert_eq!(CommandPlan::upstream_test_hint(BuildSystem::Cargo), "cargo test");
    assert_eq!(CommandPlan::upstream_test_hint(BuildSystem::Make), "make test");
    assert_eq!(CommandPlan::upstream_test_hint(BuildSystem::Autotools), "make test");
    assert_eq!(CommandPlan::upstream_test_hint(BuildSystem::Custom), "adapter-defined");
}

#[test]
fn augments_pkg_config_path_with_homebrew_roots() {
    let merged = merged("PKG_CONFIG_PATH");
    assert!(merged.contains("/opt/homebrew/lib/pkgconfig"));
}

#[test]
fn augments_cmake_prefix_path_with_homebrew_roots() {
    let merged = merged("CMAKE_PREFIX_PATH");
    assert!(merged.contains("/opt/homebrew"));
}

#[test]
fn augments_include_and_library_paths_with_homebrew_roots() {
    let headers = merged("CPATH");
    let library = merged("LIBRARY_PATH");
    assert!(headers.contains("/opt/homebrew/include"));
    assert!(library.contains("/opt/homebrew/lib"));
}

#[test]
fn augments_path_with_homebrew_bin() {
    let merged = merged("PATH");
    assert!(merged.contains("/opt/homebrew/bin"));
}

#[test]
fn augments_linker_flags_with_managed_rt() {
    let merged = merged("LDFLAGS");
    assert!(merged.contains("-lrt"));
}

#[test]
fn merges_in_candidate_then_inherited_then_manifest_order() {
    let mut inherited = EnvMap::new();
    inherited.insert("PATH".to_string(), "/usr/bin:/bin".to_string());
    inherited.insert("LDFLAGS".to_string(), "-L/x  -ly".to_string());
    let probe = EnvProbe {
        inherited,
        workspace_root: Some("/ws".to_string()),
        existing: vec!["/ws/.macland/sysroot/bin".to_string(), "/usr/local/bin".to_string()],
    };
    let mut own = EnvMap::new();
    own.insert("PATH".to_string(), "/mine".to_string());
    own.insert("OTHER".to_string(), "kept".to_string());
    let env = effective_env(&own, &probe);
    assert_eq!(
        env.get("PATH"),
        Some(&"/ws/.macland/sysroot/bin:/usr/local/bin:/usr/bin:/bin:/mine".to_string())
    );
    assert_eq!(env.get("LDFLAGS"), Some(&"-lrt -L/x -ly".to_string()));
    assert_eq!(env.get("OTHER"), Some(&"kept".to_string()));
    assert_eq!(env.get("CFLAGS"), None);
    assert_eq!(env.get("PKG_CONFIG_PATH"), None);
}

#[test]
fn cflags_also_set_cxxflags() {
    let mut own = EnvMap::new();
    own.insert("CFLAGS".to_string(), "-O2".to_string());
    let probe = EnvProbe { inherited: EnvMap::new(), workspace_root: None, existing: vec![] };
    let env = effective_env(&own, &probe);
    assert_eq!(env.get("CFLAGS"), Some(&"-O2".to_string()));
    assert_eq!(env.get("CXXFLAGS"), Some(&"-O2".to_string()));
}

#[test]
fn joins_paths_as_path_join_does() {
    assert_eq!(join_path("/a", "b"), "/a/b");
    assert_eq!(join_path("/a/", "b"), "/a/b");
    assert_eq!(join_path("", "b"), "b");
    assert_eq!(join_path("/a", "/b"), "/b");
}

#[test]
fn probes_workspace_and_homebrew_locations() {
    let without = probed_paths(None);
    assert!(without.contains(&"/opt/homebrew/lib/pkgconfig".to_string()));
    assert!(!without.iter().any(|p| p.contains(".macland")));
    let with = probed_paths(Some("/ws"));
    assert!(with.contains(&"/ws/.macland/sysroot/lib".to_string()));
    assert!(with.contains(&"/opt/homebrew/bin".to_string()));
}

fn words(items: &[&str]) -> Vec<String> {
    items.iter().map(|s| s.to_string()).collect()
}

#[test]
fn splits_command_lines() {
    assert_eq!(split_command(&vec![]), Err("empty command".to_string()));
    assert_eq!(
        split_command(&words(&["meson", "setup", "build"])),
        Ok(("meson".to_string(), words(&["setup", "build"])))
    );
    assert_eq!(split_command(&words(&["./run"])), Ok(("./run".to_string(), vec![])));
}

#[test]
fn describes_failed_commands() {
    assert_eq!(
        command_failure(&words(&["make", "-j4", "check"]), "exit status: 2"),
        "command `make -j4 check` failed with status exit status: 2"
    );
    assert_eq!(command_failure(&words(&["ninja"]), "signal: 9"), "command `ninja` failed with status signal: 9");
}

#[test]
fn records_outcome_of_actions() {
    let command = words(&["cargo", "test"]);
    let ok = action_record("test", &command, &Ok(()));
    assert_eq!(ok.action, "test");
    assert!(ok.success);
    assert_eq!(ok.command, command);
    let failed = action_record("build", &command, &Err("boom".to_string()));
    assert_eq!(failed.action, "build");
    assert!(!failed.success);
    assert_eq!(failed.command, command);
}
