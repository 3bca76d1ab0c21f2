use macland_core::adapter::{AdapterManifest, BuildSystem};
use macland_core::cli::{
    detect_wlroots_series, has_flag, infer_repo_id, inspect_repo, needs_autodetect,
    redirect_wrap_contents, redirect_wraps_to_write, repo_add_rev, run_mode, select_wlroots_ref, swiftpm_candidates,
    test_selection, wrap_redirects,
};
use macland_core::env_map::EnvMap;
use macland_core::host::HostSessionMode;
use macland_core::report::SupportTier;

fn args(items: &[&str]) -> Vec<String> {
    items.iter().map(|s| s.to_string()).collect()
}

#[test]
fn detects_wlroots_series_from_dependency_name() {
    assert_eq!(
        detect_wlroots_series("wlroots = dependency('wlroots-0.20', fallback: 'wlroots')"),
        Some("0.20".to_string())
    );
}

#[test]
fn detects_wlroots_series_from_version_constraint() {
    assert_eq!(
        detect_wlroots_series("wlroots_version = ['>=0.19.0', '<0.20.0']"),
        Some("0.19".to_string())
    );
}

#[test]
fn no_wlroots_series_without_marker_or_digits() {
    assert_eq!(detect_wlroots_series("project('x')"), None);
    assert_eq!(detect_wlroots_series("dependency('wlroots-0.x') '>=0.18'"), Some("0.18".to_string()));
}

#[test]
fn selects_newest_matching_tag() {
    let output = "abc\trefs/tags/0.19.0\nabd\trefs/tags/0.19.2\nabe\trefs/tags/0.20.0\nbad-line\n";
    assert_eq!(select_wlroots_ref(output, "0.19"), Ok("0.19.2".to_string()));
    assert_eq!(select_wlroots_ref(output, "0.20"), Ok("0.20.0".to_string()));
    assert_eq!(
        select_wlroots_ref(output, "0.21"),
        Err("no wlroots tag found for 0.21".to_string())
    );
}

#[test]
fn infers_repo_ids_from_urls() {
    assert_eq!(infer_repo_id("https://github.com/labwc/labwc.git"), "labwc");
    assert_eq!(infer_repo_id("https://example.com/weston"), "weston");
    assert_eq!(infer_repo_id("git@host:group/sway.tar.gz"), "sway.tar");
    assert_eq!(infer_repo_id("/"), "repo");
    assert_eq!(infer_repo_id("a/.."), "repo");
    assert_eq!(infer_repo_id("dir/.hidden"), ".hidden");
    assert_eq!(infer_repo_id("trailing/name/"), "name");
}

#[test]
fn wrap_redirects_point_into_wlroots() {
    let wraps = wrap_redirects();
    assert_eq!(wraps.len(), 4);
    assert_eq!(wraps[0], ("wayland.wrap", "wlroots/subprojects/wayland.wrap"));
    assert_eq!(
        redirect_wrap_contents("wlroots/subprojects/wayland.wrap"),
        "[wrap-redirect]\nfilename = wlroots/subprojects/wayland.wrap\n"
    );
}

#[test]
fn template_manifest_needs_autodetect() {
    let mut manifest = AdapterManifest {
        id: "x".to_string(),
        repo: "r".to_string(),
        rev: "main".to_string(),
        build_system: BuildSystem::Custom,
        configure: vec!["ignored".to_string()],
        build: Vec::new(),
        test: Vec::new(),
        entrypoint: Vec::new(),
        env: EnvMap::new(),
        sdk_features: Vec::new(),
        protocol_expectations: Vec::new(),
        patch_policy: "prefer-none".to_string(),
    };
    assert!(needs_autodetect(&manifest));
    manifest.build = args(&["make"]);
    assert!(!needs_autodetect(&manifest));
    let report = inspect_repo(&manifest, false, true, true, true);
    assert!(!report.buildable);
    assert!(report.upstream_tests_pass);
    assert_eq!(report.tier, SupportTier::Tier1);
    let report = inspect_repo(&manifest, true, false, true, false);
    assert!(report.buildable);
    assert_eq!(report.tier, SupportTier::Experimental);
}

#[test]
fn reads_command_flags() {
    let a = args(&["test", "--conformance"]);
    assert!(has_flag(&a, "--conformance"));
    assert_eq!(test_selection(&a), (false, true));
    assert_eq!(test_selection(&args(&["test", "--upstream"])), (true, false));
    assert_eq!(test_selection(&args(&["test"])), (true, true));
    assert_eq!(test_selection(&args(&["test", "--upstream", "--conformance"])), (true, true));
    assert_eq!(run_mode(&args(&["run", "--fullscreen"])), HostSessionMode::Fullscreen);
    assert_eq!(run_mode(&args(&["run", "--windowed-debug"])), HostSessionMode::WindowedDebug);
    assert_eq!(repo_add_rev(&args(&["add", "url", "--rev", "main"])), Some("main".to_string()));
    assert_eq!(repo_add_rev(&args(&["add", "url", "--rev"])), None);
    assert_eq!(repo_add_rev(&args(&["add", "url"])), None);
}

#[test]
fn swiftpm_products_are_tried_in_order() {
    assert_eq!(
        swiftpm_candidates("/ws", "macland-host"),
        args(&["/ws/.build/debug/macland-host", "/ws/.build/arm64-apple-macosx/debug/macland-host"])
    );
}

#[test]
fn writes_missing_redirect_wraps_only_with_wlroots() {
    let present = args(&[
        "wlroots/subprojects/wayland.wrap",
        "libdrm.wrap",
        "wlroots/subprojects/libdrm.wrap",
        "wlroots/subprojects/libliftoff.wrap",
    ]);
    assert!(redirect_wraps_to_write(false, &present).is_empty());
    assert_eq!(
        redirect_wraps_to_write(true, &present),
        vec![
            (
                "wayland.wrap".to_string(),
                "[wrap-redirect]\nfilename = wlroots/subprojects/wayland.wrap\n".to_string()
            ),
            (
                "libliftoff.wrap".to_string(),
                "[wrap-redirect]\nfilename = wlroots/subprojects/libliftoff.wrap\n".to_string()
            ),
        ]
    );
    assert!(redirect_wraps_to_write(true, &vec![]).is_empty());
}
