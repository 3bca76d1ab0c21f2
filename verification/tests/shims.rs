use macland_core::backend::{BackendEvent, FrameMetadata, RendererKind};
use macland_core::backend_ffi::{
    map_capabilities, map_event, map_snapshot, push_call, SdkCapabilities, SdkEvent,
    SdkOutputDescriptor, SdkPush, SdkSeatDescriptor, SdkSessionSnapshot,
};
use macland_core::report::{SupportReport, SupportTier};
use macland_core::workspace_shims::{
    is_shim_dependency, patched_backend_header, shim_dependencies, stub_library_stem,
};

#[test]
fn sysroot_stands_in_for_linux_libraries() {
    assert_eq!(shim_dependencies(), vec!["libdrm", "gbm", "libinput", "libudev", "libseat", "libevdev"]);
    assert!(is_shim_dependency("libudev"));
    assert!(!is_shim_dependency("xkbcommon"));
    assert_eq!(stub_library_stem("librt.a"), "rt");
    assert_eq!(stub_library_stem("libseat.a"), "seat");
    assert_eq!(stub_library_stem("rt.a"), "rt.a");
}

#[test]
fn patches_aquamarine_backend_header() {
    let header = "#pragma once\n#include \"Misc.hpp\"\nnamespace Aquamarine { class CSession; }\n";
    let patched = patched_backend_header(header).unwrap();
    assert!(patched.contains("#include \"Session.hpp\""));
    assert_eq!(
        patched,
        "#pragma once\n#include \"Misc.hpp\"\n#include \"Session.hpp\"\nnamespace Aquamarine { class CSession; }\n"
    );
    assert_eq!(patched_backend_header(&patched), None);
    assert_eq!(patched_backend_header("x\n"), Some("#include \"Session.hpp\"\nx\n".to_string()));
}

#[test]
fn maps_sdk_records() {
    let caps = map_capabilities(SdkCapabilities {
        renderer_kind: 1,
        supports_software_fallback: 1,
        supports_fullscreen_host: 1,
        supports_windowed_debug: 0,
        supports_single_display_session: 1,
        supports_multi_display_session: 0,
        supports_c_abi: 1,
        supports_event_queue: 2,
    });
    assert_eq!(caps.renderer, RendererKind::Metal);
    assert!(!caps.supports_windowed_debug);
    assert!(caps.supports_event_queue);
    let snapshot = map_snapshot(SdkSessionSnapshot {
        output: SdkOutputDescriptor { width: 1728, height: 1117, scale_factor_milli: 2000, refresh_hz_milli: 60000 },
        seat: SdkSeatDescriptor { keyboard_present: 1, pointer_present: 0 },
        fullscreen_active: 1,
        compositor_running: 0,
    });
    assert_eq!(snapshot.output.width, 1728);
    assert!(!snapshot.seat.pointer_present);
    let event = SdkEvent { kind: 2, x: 3, y: 4, keycode: 0, pressed: 0, width: 0, height: 0, stride: 0, age: 0 };
    assert_eq!(map_event(event), BackendEvent::PointerMoved { x: 3, y: 4 });
    let frame = SdkEvent { kind: 4, x: 0, y: 0, keycode: 0, pressed: 0, width: 10, height: 5, stride: 40, age: 42 };
    assert_eq!(
        map_event(frame),
        BackendEvent::FramePresented(FrameMetadata { width: 10, height: 5, stride: 40, age: 42 })
    );
    let other = SdkEvent { kind: 9, ..event };
    assert_eq!(map_event(other), BackendEvent::SessionStopped);
    assert_eq!(
        push_call(&BackendEvent::KeyChanged { keycode: 7, pressed: true }),
        SdkPush::KeyChanged { keycode: 7, pressed: 1 }
    );
    assert_eq!(push_call(&BackendEvent::SessionStopped), SdkPush::Stopped);
}

#[test]
fn nothing_known_is_experimental() {
    let report = SupportReport::inspect_defaults();
    assert!(!report.buildable);
    assert_eq!(report.tier, SupportTier::Experimental);
}

#[test]
fn header_fix_is_needed_once() {
    let header = "// top\n#include \"Misc.hpp\"\n";
    let once = patched_backend_header(header).unwrap();
    assert_eq!(once, "// top\n#include \"Misc.hpp\"\n#include \"Session.hpp\"\n");
    assert_eq!(once.matches("#include \"Session.hpp\"").count(), 1);
    assert_eq!(patched_backend_header(&once), None);
    let top = patched_backend_header("int x;\n").unwrap();
    assert_eq!(patched_backend_header(&top), None);
}
