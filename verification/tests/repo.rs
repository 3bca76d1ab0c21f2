use macland_core::adapter::{AdapterManifest, BuildSystem};
use macland_core::repo::{
    choose_manifest, is_uninitialized_manifest, patch_action, patch_files, repo_spec_from,
    should_seed, PatchAction, RepoSpec, RepoWorkspace,
};

#[test]
fn template_includes_repo_identity() {
    let spec = RepoSpec::new(
        "weston",
        "https://example.com/weston.git",
        Some("14.0".to_string()),
    );
    let template = RepoWorkspace::adapter_template(&spec);
    assert!(template.contains("id = \"weston\""));
    assert!(template.contains("rev = \"14.0\""));
}

#[test]
fn template_reads_back_as_uninitialized_manifest() {
    let spec = RepoSpec::new("labwc", "https://example.com/labwc.git", None);
    let template = RepoWorkspace::adapter_template(&spec);
    let manifest = AdapterManifest::from_toml(&template).unwrap();
    assert_eq!(manifest.id, "labwc");
    assert_eq!(manifest.repo, "https://example.com/labwc.git");
    assert_eq!(manifest.rev, "main");
    assert_eq!(manifest.build_system, BuildSystem::Custom);
    assert_eq!(manifest.patch_policy, "prefer-none");
    assert!(is_uninitialized_manifest(&manifest));
}

#[test]
fn workspace_paths() {
    let workspace = RepoWorkspace::new("/ws");
    let spec = RepoSpec::new("labwc", "https://example.com/labwc.git", None);
    assert_eq!(workspace.root(), "/ws");
    assert_eq!(workspace.repo_root(&spec), "/ws/repos/labwc");
    assert_eq!(workspace.source_root(&spec), "/ws/repos/labwc/source");
    assert_eq!(workspace.artifacts_root(&spec), "/ws/repos/labwc/artifacts");
    assert_eq!(workspace.override_root(&spec), "/ws/overrides/labwc");
    assert_eq!(workspace.override_manifest_path(&spec), "/ws/overrides/labwc/macland.toml");
    assert_eq!(workspace.override_patches_root(&spec), "/ws/overrides/labwc/patches");
    let trailing = RepoWorkspace::new("/ws/");
    assert_eq!(trailing.repo_root(&spec), "/ws/repos/labwc");
}

#[test]
fn repo_spec_reads_back_trimmed() {
    let spec = repo_spec_from("cagebreak", "https://example.com/cagebreak.git\n", Some(" main \n"));
    assert_eq!(
        spec,
        RepoSpec::new("cagebreak", "https://example.com/cagebreak.git", Some("main".to_string()))
    );
    let no_rev = repo_spec_from("x", "u", None);
    assert_eq!(no_rev.rev, None);
}

#[test]
fn chooses_override_only_for_uninitialized_manifest() {
    let spec = RepoSpec::new("weston", "https://example.com/weston.git", None);
    let template = RepoWorkspace::adapter_template(&spec);
    assert_eq!(choose_manifest(Some(&template), true), Ok(None));
    let kept = choose_manifest(Some(&template), false).unwrap().unwrap();
    assert_eq!(kept.id, "weston");
    assert_eq!(choose_manifest(None, true), Ok(None));
    assert_eq!(choose_manifest(Some("garbage"), true), Err("invalid line: garbage".to_string()));
    let real = template.replace("entrypoint = []", "entrypoint = [\"./build/frontend/weston\"]");
    let chosen = choose_manifest(Some(&real), true).unwrap().unwrap();
    assert_eq!(chosen.entrypoint, vec!["./build/frontend/weston".to_string()]);
}

#[test]
fn seeds_when_missing_or_asked_over_template() {
    let spec = RepoSpec::new("weston", "https://example.com/weston.git", None);
    let template = RepoWorkspace::adapter_template(&spec);
    assert!(should_seed(None, false));
    assert!(!should_seed(Some(&template), false));
    assert!(should_seed(Some(&template), true));
    assert!(!should_seed(Some("garbage"), true));
}

#[test]
fn patch_actions() {
    assert_eq!(patch_action(true, true), PatchAction::Skip);
    assert_eq!(patch_action(true, false), PatchAction::Skip);
    assert_eq!(patch_action(false, true), PatchAction::Apply);
    assert_eq!(patch_action(false, false), PatchAction::Fail);
}

#[test]
fn patch_files_are_sorted_patches() {
    let names = vec![
        "0002-b.patch".to_string(),
        "README".to_string(),
        "0001-a.patch".to_string(),
        ".patch".to_string(),
        "x.diff".to_string(),
    ];
    assert_eq!(
        patch_files(&names),
        vec!["0001-a.patch".to_string(), "0002-b.patch".to_string()]
    );
}

#[test]
fn repo_spec_round_trips() {
    let spec = RepoSpec::new(
        "cagebreak",
        "https://example.com/cagebreak.git",
        Some("main".to_string()),
    );
    let loaded = repo_spec_from("cagebreak", &spec.url, spec.rev.as_deref());
    assert_eq!(loaded, spec);
}

#[test]
fn loads_override_manifest_when_repo_manifest_is_uninitialized() {
    let spec = RepoSpec::new("weston", "https://example.com/weston.git", None);
    let template = RepoWorkspace::adapter_template(&spec);
    let override_text = r#"
                id = "weston"
                repo = "https://example.com/weston.git"
                rev = "main"
                build_system = "meson"
                configure = ["meson", "setup", "build"]
                build = ["meson", "compile", "-C", "build"]
                test = ["meson", "test", "-C", "build"]
                entrypoint = ["./build/frontend/weston"]
                sdk_features = ["metal-fast-path"]
                protocol_expectations = ["xdg-shell"]
                patch_policy = "prefer-none"
                "#;
    assert_eq!(choose_manifest(Some(&template), true), Ok(None));
    let manifest = AdapterManifest::from_toml(override_text).unwrap();
    assert_eq!(manifest.build_system, BuildSystem::Meson);
    assert_eq!(manifest.entrypoint, vec!["./build/frontend/weston".to_string()]);
}

#[test]
fn template_reads_back_texts_beyond_ascii() {
    let spec = RepoSpec::new(
        "café \"dev\" \\ build",
        "file:///home/ü/repo, with = sign",
        Some("v1.0\r\t#tag".to_string()),
    );
    let template = RepoWorkspace::adapter_template(&spec);
    let manifest = AdapterManifest::from_toml(&template).unwrap();
    assert_eq!(manifest.id, "café \"dev\" \\ build");
    assert_eq!(manifest.repo, "file:///home/ü/repo, with = sign");
    assert_eq!(manifest.rev, "v1.0\r\t#tag");
    assert_eq!(manifest.build_system, BuildSystem::Custom);
    assert!(manifest.configure.is_empty());
    assert!(manifest.env.is_empty());
    assert_eq!(manifest.patch_policy, "prefer-none");
    assert!(is_uninitialized_manifest(&manifest));
}
