use macland_core::adapter::BuildSystem;
use macland_core::detect::{
    apply_known_overrides, autodetect_manifest, cargo_manifest, read_cargo_package_name,
    read_meson_project_name, SourceLayout,
};

fn layout() -> SourceLayout {
    SourceLayout {
        has_cargo_toml: false,
        cargo_toml: None,
        has_meson_build: false,
        meson_build: None,
        has_cmake_lists: false,
        has_makefile: false,
    }
}

fn strings(items: &[&str]) -> Vec<String> {
    items.iter().map(|s| s.to_string()).collect()
}

#[test]
fn detects_cargo_repo() {
    let mut l = layout();
    l.has_cargo_toml = true;
    l.cargo_toml = Some("[package]\nname = \"demo-compositor\"\nversion = \"0.1.0\"\n".to_string());
    let manifest = autodetect_manifest("demo", "https://example.com", "main", &l).unwrap();
    assert_eq!(manifest.build_system, BuildSystem::Cargo);
    assert_eq!(
        manifest.entrypoint,
        vec![
            "cargo".to_string(),
            "run".to_string(),
            "--bin".to_string(),
            "demo-compositor".to_string()
        ]
    );
}

#[test]
fn detects_meson_repo() {
    let mut l = layout();
    l.has_meson_build = true;
    l.meson_build = Some("project('meson-compositor', 'c')\n".to_string());
    let manifest = autodetect_manifest("demo", "https://example.com", "main", &l).unwrap();
    assert_eq!(manifest.build_system, BuildSystem::Meson);
    assert_eq!(manifest.entrypoint, vec!["./build/meson-compositor".to_string()]);
}

#[test]
fn applies_hyprland_overrides() {
    let mut l = layout();
    l.has_cmake_lists = true;
    let manifest =
        autodetect_manifest("Hyprland", "https://github.com/hyprwm/Hyprland.git", "main", &l).unwrap();
    assert!(manifest.configure.iter().any(|value| value == "-DNO_XWAYLAND=ON"));
    assert!(manifest.configure.iter().any(|value| value == "-DNO_SYSTEMD=ON"));
    assert!(manifest.configure.iter().any(|value| value == "-DNO_UWSM=ON"));
}

#[test]
fn applies_wlroots_family_meson_overrides() {
    let mut l = layout();
    l.has_meson_build = true;
    l.meson_build = Some("project('sway', 'c')\n".to_string());
    let manifest =
        autodetect_manifest("sway", "https://github.com/swaywm/sway.git", "main", &l).unwrap();
    assert!(manifest.configure.iter().any(|value| value == "--reconfigure"));
    assert!(manifest.configure.iter().any(|value| value == "-Dwlroots:backends=x11"));
    assert!(manifest.configure.iter().any(|value| value == "-Dwlroots:libliftoff=disabled"));
    assert!(manifest.configure.iter().any(|value| value == "-Dwlroots:xwayland=disabled"));
}

#[test]
fn detection_order_and_defaults() {
    let mut l = layout();
    assert!(autodetect_manifest("x", "r", "v", &l).is_none());
    l.has_makefile = true;
    let make = autodetect_manifest("x", "r", "v", &l).unwrap();
    assert_eq!(make.build_system, BuildSystem::Make);
    assert_eq!(make.build, strings(&["make"]));
    assert_eq!(make.test, strings(&["make", "test"]));
    assert!(make.entrypoint.is_empty());
    assert_eq!(make.sdk_features, strings(&["metal-fast-path"]));
    assert_eq!(make.protocol_expectations, strings(&["xdg-shell"]));
    assert_eq!(make.patch_policy, "prefer-none");
    l.has_cmake_lists = true;
    let cmake = autodetect_manifest("x", "r", "v", &l).unwrap();
    assert_eq!(cmake.build_system, BuildSystem::CMake);
    assert_eq!(cmake.configure, strings(&["cmake", "-S", ".", "-B", "build"]));
    l.has_meson_build = true;
    let meson = autodetect_manifest("x", "r", "v", &l).unwrap();
    assert_eq!(meson.build_system, BuildSystem::Meson);
    assert!(meson.entrypoint.is_empty());
    l.has_cargo_toml = true;
    let cargo = autodetect_manifest("x", "r", "v", &l).unwrap();
    assert_eq!(cargo.build_system, BuildSystem::Cargo);
    assert_eq!(cargo.entrypoint, strings(&["cargo", "run"]));
}

#[test]
fn reads_package_and_project_names() {
    assert_eq!(
        read_cargo_package_name("[workspace]\nname = \"no\"\n[package]\n name = \"yes\"\n"),
        Some("yes".to_string())
    );
    assert_eq!(read_cargo_package_name("[dependencies]\nname = \"x\"\n"), None);
    assert_eq!(
        read_meson_project_name("# comment\nproject(\"weston\", 'c')\n"),
        Some("weston".to_string())
    );
    assert_eq!(read_meson_project_name("executable('x')\n"), None);
}

#[test]
fn overrides_are_applied_once() {
    let manifest = cargo_manifest("labwc", "https://github.com/labwc/labwc.git", "main", None);
    assert_eq!(manifest.entrypoint, strings(&["cargo", "run"]));
    let mut meson = manifest.clone();
    meson.build_system = BuildSystem::Meson;
    let once = apply_known_overrides(meson);
    let twice = apply_known_overrides(once.clone());
    assert_eq!(once, twice);
    assert_eq!(once.configure.len(), 2 + 5);
    assert_eq!(&once.configure[..2], &strings(&["cargo", "fetch"])[..]);
}
