use macland_core::adapter::{AdapterManifest, BuildSystem};
use macland_core::env_map::EnvMap;
use macland_core::render::{format_array, format_build_system, render_manifest};

const LABWC: &str = r#"
            id = "labwc"
            repo = "https://github.com/labwc/labwc.git"
            rev = "main"
            build_system = "meson"
            configure = ["meson", "setup", "build"]
            build = ["meson", "compile", "-C", "build"]
            test = ["meson", "test", "-C", "build"]
            entrypoint = ["./build/labwc"]
            sdk_features = ["metal-fast-path"]
            protocol_expectations = ["xdg-shell"]
            patch_policy = "prefer-none"

            [env]
            MACLAND_MODE = "1"
            "#;

fn strings(items: &[&str]) -> Vec<String> {
    items.iter().map(|s| s.to_string()).collect()
}

#[test]
fn parses_manifest() {
    let manifest = AdapterManifest::from_toml(LABWC).unwrap();

    assert_eq!(manifest.id, "labwc");
    assert_eq!(manifest.build_system, BuildSystem::Meson);
    assert_eq!(manifest.env.get("MACLAND_MODE"), Some(&"1".to_string()));
}

#[test]
fn parses_every_field_of_the_documented_example() {
    let manifest = AdapterManifest::from_toml(LABWC).unwrap();
    assert_eq!(manifest.repo, "https://github.com/labwc/labwc.git");
    assert_eq!(manifest.rev, "main");
    assert_eq!(manifest.configure, strings(&["meson", "setup", "build"]));
    assert_eq!(manifest.build, strings(&["meson", "compile", "-C", "build"]));
    assert_eq!(manifest.test, strings(&["meson", "test", "-C", "build"]));
    assert_eq!(manifest.entrypoint, strings(&["./build/labwc"]));
    assert_eq!(manifest.sdk_features, strings(&["metal-fast-path"]));
    assert_eq!(manifest.protocol_expectations, strings(&["xdg-shell"]));
    assert_eq!(manifest.patch_policy, "prefer-none");
    assert_eq!(manifest.env.len(), 1);
}

#[test]
fn reports_missing_build_system() {
    let err = AdapterManifest::from_toml("id = \"x\"\n").unwrap_err();
    assert_eq!(err, "missing build_system");
}

#[test]
fn reports_unsupported_build_system() {
    let err = AdapterManifest::from_toml("build_system = \"bazel\"\n").unwrap_err();
    assert_eq!(err, "unsupported build_system: bazel");
}

#[test]
fn reports_invalid_line() {
    let err = AdapterManifest::from_toml("build_system = \"meson\"\nnot an assignment\n").unwrap_err();
    assert_eq!(err, "invalid line: not an assignment");
}

#[test]
fn reports_first_missing_field() {
    let err = AdapterManifest::from_toml("build_system = \"meson\"\nid = \"x\"\n").unwrap_err();
    assert_eq!(err, "missing repo");
    let err = AdapterManifest::from_toml(
        "build_system = \"meson\"\nid = \"x\"\nrepo = \"r\"\nrev = \"v\"\n",
    )
    .unwrap_err();
    assert_eq!(err, "missing configure");
}

#[test]
fn later_assignment_wins_and_comments_are_skipped() {
    let text = "# a comment\nid = \"first\"\nid = \"second\"\nrepo = \"r\"\nrev = \"v\"\nbuild_system = \"make\"\nconfigure = []\nbuild = [\"make\"]\ntest = []\nentrypoint = []\nsdk_features = []\nprotocol_expectations = []\npatch_policy = \"p\"\n";
    let manifest = AdapterManifest::from_toml(text).unwrap();
    assert_eq!(manifest.id, "second");
    assert_eq!(manifest.build_system, BuildSystem::Make);
    assert!(manifest.configure.is_empty());
    assert_eq!(manifest.build, strings(&["make"]));
    assert!(manifest.env.is_empty());
}

#[test]
fn parses_build_system_names_exactly() {
    assert_eq!(BuildSystem::parse("meson"), Some(BuildSystem::Meson));
    assert_eq!(BuildSystem::parse("cmake"), Some(BuildSystem::CMake));
    assert_eq!(BuildSystem::parse("cargo"), Some(BuildSystem::Cargo));
    assert_eq!(BuildSystem::parse("autotools"), Some(BuildSystem::Autotools));
    assert_eq!(BuildSystem::parse("make"), Some(BuildSystem::Make));
    assert_eq!(BuildSystem::parse("custom"), Some(BuildSystem::Custom));
    assert_eq!(BuildSystem::parse("Meson"), None);
    assert_eq!(BuildSystem::parse(""), None);
}

#[test]
fn build_system_names_round_trip() {
    for b in [
        BuildSystem::Meson,
        BuildSystem::CMake,
        BuildSystem::Cargo,
        BuildSystem::Autotools,
        BuildSystem::Make,
        BuildSystem::Custom,
    ] {
        assert_eq!(BuildSystem::parse(format_build_system(b)), Some(b));
    }
}

#[test]
fn formats_arrays_with_debug_quotes() {
    assert_eq!(format_array(&strings(&[])), "[]");
    assert_eq!(format_array(&strings(&["a", "b c"])), "[\"a\", \"b c\"]");
    assert_eq!(format_array(&strings(&["say \"hi\""])), "[\"say \\\"hi\\\"\"]");
}

#[test]
fn rendered_manifest_reads_back() {
    let manifest = AdapterManifest::from_toml(LABWC).unwrap();
    let text = render_manifest(&manifest);
    assert!(text.starts_with("id = \"labwc\"\nrepo = "));
    assert!(text.ends_with("\n[env]\nMACLAND_MODE = \"1\"\n"));
    let again = AdapterManifest::from_toml(&text).unwrap();
    assert_eq!(again, manifest);
}

#[test]
fn renders_env_in_name_order() {
    let mut manifest = AdapterManifest::from_toml(LABWC).unwrap();
    manifest.env.insert("B_VAR".to_string(), "2".to_string());
    manifest.env.insert("A_VAR".to_string(), "1".to_string());
    let text = render_manifest(&manifest);
    assert!(text.ends_with("[env]\nA_VAR = \"1\"\nB_VAR = \"2\"\nMACLAND_MODE = \"1\"\n"));
    let again = AdapterManifest::from_toml(&text).unwrap();
    assert_eq!(again.env.get("A_VAR"), Some(&"1".to_string()));
    assert_eq!(again.env.get("B_VAR"), Some(&"2".to_string()));
}

#[test]
fn env_map_keeps_last_value() {
    let mut env = EnvMap::new();
    env.insert("K".to_string(), "1".to_string());
    env.insert("K".to_string(), "2".to_string());
    assert_eq!(env.len(), 1);
    assert_eq!(env.get("K"), Some(&"2".to_string()));
    assert_eq!(env.get("missing"), None);
    let pairs = EnvMap::from_pairs(vec![
        ("Z".to_string(), "z".to_string()),
        ("A".to_string(), "a".to_string()),
    ]);
    let names: Vec<&str> = pairs.entries().iter().map(|(k, _)| k.as_str()).collect();
    assert_eq!(names, vec!["A", "Z"]);
}

#[test]
fn reports_errors_in_reader_order() {
    let err = AdapterManifest::from_toml("stray words\nid = \"x\"\n").unwrap_err();
    assert_eq!(err, "invalid line: stray words");
    let err = AdapterManifest::from_toml("build_system = \"bazel\"\n[env]\n").unwrap_err();
    assert_eq!(err, "unsupported build_system: bazel");
    let err = AdapterManifest::from_toml("repo = \"r\"\nbuild_system = \"make\"\n").unwrap_err();
    assert_eq!(err, "missing id");
}
