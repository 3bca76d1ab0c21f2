use macland_core::backend::BackendCapabilities;
use macland_core::bootstrap::BootstrapPlan;
use macland_core::doctor::{DoctorReport, HostStatus, NativeDependencyStatus, ToolStatus};

fn tool(name: &'static str, found: bool) -> ToolStatus {
    ToolStatus { name, found, detail: if found { "/usr/bin".to_string() } else { "missing".to_string() } }
}

fn dep(name: &'static str, found: bool) -> NativeDependencyStatus {
    NativeDependencyStatus { name, found, detail: if found { "found".to_string() } else { "missing".to_string() } }
}

#[test]
fn plans_missing_packages() {
    let report = DoctorReport {
        tools: vec![
            ToolStatus {
                name: "meson",
                found: false,
                detail: "missing".to_string(),
            },
            ToolStatus {
                name: "ninja",
                found: false,
                detail: "missing".to_string(),
            },
        ],
        native_dependencies: vec![
            NativeDependencyStatus {
                name: "xkbcommon",
                found: false,
                detail: "missing".to_string(),
            },
            NativeDependencyStatus {
                name: "egl",
                found: false,
                detail: "missing".to_string(),
            },
            NativeDependencyStatus {
                name: "libudev",
                found: false,
                detail: "missing".to_string(),
            },
            NativeDependencyStatus {
                name: "libevdev",
                found: false,
                detail: "missing".to_string(),
            },
        ],
        host: HostStatus {
            apple_silicon: true,
            macos: true,
        },
        backend: BackendCapabilities::macos_defaults(),
    };

    let plan = BootstrapPlan::from_doctor(&report);
    assert_eq!(
        plan.packages,
        vec!["meson", "ninja", "libxkbcommon", "mesa"]
    );
    assert_eq!(plan.workspace_shims, vec!["libudev", "libevdev"]);
}

#[test]
fn plans_each_package_once() {
    let report = DoctorReport {
        tools: vec![tool("Xwayland", false), tool("pkg-config", true), tool("swift", false)],
        native_dependencies: vec![dep("egl", false), dep("glesv2", false), dep("libudev", true)],
        host: HostStatus { apple_silicon: true, macos: true },
        backend: BackendCapabilities::macos_defaults(),
    };
    let plan = BootstrapPlan::from_doctor(&report);
    assert_eq!(plan.packages, vec!["xorg-server", "mesa"]);
    assert!(plan.workspace_shims.is_empty());
    assert!(!plan.is_empty());
}

#[test]
fn nothing_missing_plans_nothing() {
    let report = DoctorReport {
        tools: vec![tool("meson", true)],
        native_dependencies: vec![dep("xkbcommon", true)],
        host: HostStatus { apple_silicon: true, macos: true },
        backend: BackendCapabilities::macos_defaults(),
    };
    let plan = BootstrapPlan::from_doctor(&report);
    assert!(plan.is_empty());
    assert!(report.missing_tools().is_empty());
    assert!(report.missing_native_dependencies().is_empty());
}

#[test]
fn plans_in_order_of_first_need() {
    let report = DoctorReport {
        tools: vec![tool("ninja", false), tool("meson", false), tool("ninja", false)],
        native_dependencies: vec![
            dep("libseat", false),
            dep("glesv2", false),
            dep("xcursor", false),
            dep("egl", false),
            dep("libdrm", false),
            dep("libseat", false),
            dep("libudev", true),
        ],
        host: HostStatus { apple_silicon: true, macos: true },
        backend: BackendCapabilities::macos_defaults(),
    };
    let plan = BootstrapPlan::from_doctor(&report);
    assert_eq!(plan.packages, vec!["ninja", "meson", "mesa", "libxcursor"]);
    assert_eq!(plan.workspace_shims, vec!["libseat", "libdrm"]);
}
