use macland_core::adapter::{AdapterManifest, BuildSystem};
use macland_core::backend::BackendCapabilities;
use macland_core::env_map::EnvMap;
use macland_core::shim::{assess_manifest, detect_family, CompositorFamily};

fn manifest(id: &str, repo: &str, sdk: &[&str], protocols: &[&str]) -> AdapterManifest {
    AdapterManifest {
        id: id.to_string(),
        repo: repo.to_string(),
        rev: "main".to_string(),
        build_system: BuildSystem::Meson,
        configure: Vec::new(),
        build: Vec::new(),
        test: Vec::new(),
        entrypoint: Vec::new(),
        env: EnvMap::new(),
        sdk_features: sdk.iter().map(|value| value.to_string()).collect(),
        protocol_expectations: protocols.iter().map(|value| value.to_string()).collect(),
        patch_policy: "prefer-none".to_string(),
    }
}

#[test]
fn detects_wlroots_family() {
    let manifest = manifest(
        "labwc",
        "https://github.com/labwc/labwc.git",
        &["metal-fast-path"],
        &["xdg-shell", "layer-shell"],
    );
    assert_eq!(detect_family(&manifest), CompositorFamily::Wlroots);
}

#[test]
fn assesses_missing_requirements() {
    let manifest = manifest(
        "weston",
        "https://gitlab.freedesktop.org/wayland/weston.git",
        &["metal-fast-path"],
        &["xdg-shell"],
    );
    let assessment = assess_manifest(&manifest, &BackendCapabilities::macos_defaults());
    assert_eq!(assessment.family, CompositorFamily::Weston);
    assert_eq!(assessment.missing_sdk_features, vec!["seat-v1".to_string()]);
    assert!(!assessment.ready);
}

#[test]
fn custom_family_is_ready_by_default() {
    let manifest = manifest("demo", "https://example.com/demo", &[], &[]);
    let assessment = assess_manifest(&manifest, &BackendCapabilities::macos_defaults());
    assert_eq!(assessment.family, CompositorFamily::Custom);
    assert!(assessment.ready);
}

#[test]
fn family_detection_is_case_blind_and_uses_layer_shell() {
    assert_eq!(detect_family(&manifest("x", "https://example.com/SWAY", &[], &[])), CompositorFamily::Wlroots);
    assert_eq!(detect_family(&manifest("LibWeston-demo", "r", &[], &[])), CompositorFamily::Weston);
    assert_eq!(detect_family(&manifest("x", "r", &[], &["layer-shell"])), CompositorFamily::Wlroots);
    assert_eq!(detect_family(&manifest("x", "r", &[], &["xdg-shell"])), CompositorFamily::Custom);
}

#[test]
fn wlroots_needs_backend_flags() {
    let manifest = manifest(
        "sway",
        "https://github.com/swaywm/sway.git",
        &["metal-fast-path", "seat-v1", "event-queue-v1"],
        &["xdg-shell", "layer-shell"],
    );
    let defaults = BackendCapabilities::macos_defaults();
    let assessment = assess_manifest(&manifest, &defaults);
    assert!(assessment.missing_sdk_features.is_empty());
    assert!(assessment.missing_protocols.is_empty());
    assert_eq!(
        assessment.missing_backend_flags,
        vec!["c-abi".to_string(), "event-queue".to_string()]
    );
    assert!(!assessment.ready);
    let mut full = defaults.clone();
    full.supports_c_abi = true;
    full.supports_event_queue = true;
    let assessment = assess_manifest(&manifest, &full);
    assert!(assessment.ready);
    assert_eq!(assessment.summary(), "ready");
}
