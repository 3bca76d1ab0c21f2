use macland_core::backend::{
    default_session_snapshot, BackendCapabilities, BackendEvent, BackendRuntime, FrameMetadata,
    MockBackendRuntime, RendererKind,
};

#[test]
fn exposes_default_capabilities() {
    let runtime = MockBackendRuntime::new(default_session_snapshot());
    let capabilities = runtime.capabilities();
    assert_eq!(capabilities.renderer, RendererKind::Metal);
    assert!(capabilities.supports_software_fallback);
    assert!(!capabilities.supports_multi_display_session);
}

#[test]
fn records_events_in_order() {
    let mut runtime = MockBackendRuntime::new(default_session_snapshot());
    runtime.push_event(BackendEvent::PointerMoved { x: 10, y: 20 });
    runtime.push_event(BackendEvent::FramePresented(FrameMetadata {
        width: 100,
        height: 50,
        stride: 400,
        age: 1,
    }));

    assert_eq!(
        runtime.pop_event(),
        Some(BackendEvent::PointerMoved { x: 10, y: 20 })
    );
    assert!(matches!(
        runtime.pop_event(),
        Some(BackendEvent::FramePresented(_))
    ));
}

#[test]
fn empty_queue_pops_nothing() {
    let mut runtime = MockBackendRuntime::new(default_session_snapshot());
    assert_eq!(runtime.pop_event(), None);
    runtime.push_event(BackendEvent::SessionStopped);
    assert_eq!(runtime.pop_event(), Some(BackendEvent::SessionStopped));
    assert_eq!(runtime.pop_event(), None);
}

#[test]
fn default_snapshot_describes_main_display() {
    let snapshot = default_session_snapshot();
    assert_eq!(snapshot.output.id, "main-display");
    assert_eq!(snapshot.output.width, 1728);
    assert_eq!(snapshot.output.height, 1117);
    assert_eq!(snapshot.output.scale_factor_milli, 2000);
    assert_eq!(snapshot.output.refresh_hz_milli, 60000);
    assert_eq!(snapshot.seat.name, "macland-seat0");
    assert!(snapshot.fullscreen_active);
    assert!(!snapshot.compositor_running);
    let runtime = MockBackendRuntime::new(snapshot.clone());
    assert_eq!(runtime.snapshot(), snapshot);
}

#[test]
fn macos_defaults_list_permissions() {
    let caps = BackendCapabilities::macos_defaults();
    assert_eq!(
        caps.permission_requirements,
        vec!["accessibility".to_string(), "input-monitoring".to_string()]
    );
    assert!(!caps.supports_c_abi);
    assert!(caps.supports_fullscreen_host);
}
