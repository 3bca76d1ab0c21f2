//! The records of the C SDK of the macOS backend, and what they mean.
//!
//! The SDK hands back plain records of integers and flags; these functions
//! turn them into the backend model, and the backend's events into the SDK
//! calls that queue them.
use vstd::prelude::*;
use crate::backend::{
    BackendCapabilities, BackendEvent, FrameMetadata, OutputDescriptor, RendererKind,
    SeatDescriptor, SessionSnapshot, default_permissions, permission_list,
};
use crate::text::text_of;

verus! {

/// The SDK's capability record; a flag is set when it is not 0.
#[derive(Debug, Clone, Copy, PartialEq, Eq, Structural)]
pub struct SdkCapabilities {
    pub renderer_kind: u8,
    pub supports_software_fallback: u8,
    pub supports_fullscreen_host: u8,
    pub supports_windowed_debug: u8,
    pub supports_single_display_session: u8,
    pub supports_multi_display_session: u8,
    pub supports_c_abi: u8,
    pub supports_event_queue: u8,
}

#[derive(Debug, Clone, Copy, PartialEq, Eq, Structural)]
pub struct SdkOutputDescriptor {
    pub width: u32,
    pub height: u32,
    pub scale_factor_milli: u32,
    pub refresh_hz_milli: u32,
}

#[derive(Debug, Clone, Copy, PartialEq, Eq, Structural)]
pub struct SdkSeatDescriptor {
    pub keyboard_present: u8,
    pub pointer_present: u8,
}

#[derive(Debug, Clone, Copy, PartialEq, Eq, Structural)]
pub struct SdkSessionSnapshot {
    pub output: SdkOutputDescriptor,
    pub seat: SdkSeatDescriptor,
    pub fullscreen_active: u8,
    pub compositor_running: u8,
}

/// The SDK's event record: `kind` 2 is a pointer motion, 3 a key change,
/// 4 a presented frame; any other kind is the end of the session.
#[derive(Debug, Clone, Copy, PartialEq, Eq, Structural)]
pub struct SdkEvent {
    pub kind: u8,
    pub x: i32,
    pub y: i32,
    pub keycode: u16,
    pub pressed: u8,
    pub width: u32,
    pub height: u32,
    pub stride: u32,
    pub age: u64,
}

/// The backend capabilities an SDK record states: Metal when the renderer
/// kind is 1, software otherwise; the permissions are those the host asks for.
pub fn map_capabilities(c: SdkCapabilities) -> (r: BackendCapabilities)
    ensures
        r.renderer == (if c.renderer_kind == 1 { RendererKind::Metal } else { RendererKind::Software }),
        r.supports_software_fallback == (c.supports_software_fallback != 0),
        r.supports_fullscreen_host == (c.supports_fullscreen_host != 0),
        r.supports_windowed_debug == (c.supports_windowed_debug != 0),
        r.supports_single_display_session == (c.supports_single_display_session != 0),
        r.supports_multi_display_session == (c.supports_multi_display_session != 0),
        r.supports_c_abi == (c.supports_c_abi != 0),
        r.supports_event_queue == (c.supports_event_queue != 0),
        r.permission_requirements.deep_view() == default_permissions(),
{
    BackendCapabilities {
        renderer: if c.renderer_kind == 1 {
            RendererKind::Metal
        } else {
            RendererKind::Software
        },
        supports_software_fallback: c.supports_software_fallback != 0,
        supports_fullscreen_host: c.supports_fullscreen_host != 0,
        supports_windowed_debug: c.supports_windowed_debug != 0,
        supports_single_display_session: c.supports_single_display_session != 0,
        supports_multi_display_session: c.supports_multi_display_session != 0,
        supports_c_abi: c.supports_c_abi != 0,
        supports_event_queue: c.supports_event_queue != 0,
        permission_requirements: permission_list(),
    }
}

/// The session snapshot an SDK record states, on the main display and the
/// `macland-seat0` seat.
pub fn map_snapshot(s: SdkSessionSnapshot) -> (r: SessionSnapshot)
    ensures
        r.output.id@ == "main-display"@,
        r.output.width == s.output.width,
        r.output.height == s.output.height,
        r.output.scale_factor_milli == s.output.scale_factor_milli,
        r.output.refresh_hz_milli == s.output.refresh_hz_milli,
        r.seat.name@ == "macland-seat0"@,
        r.seat.keyboard_present == (s.seat.keyboard_present != 0),
        r.seat.pointer_present == (s.seat.pointer_present != 0),
        r.fullscreen_active == (s.fullscreen_active != 0),
        r.compositor_running == (s.compositor_running != 0),
{
    SessionSnapshot {
        output: OutputDescriptor {
            id: text_of("main-display"),
            width: s.output.width,
            height: s.output.height,
            scale_factor_milli: s.output.scale_factor_milli,
            refresh_hz_milli: s.output.refresh_hz_milli,
        },
        seat: SeatDescriptor {
            name: text_of("macland-seat0"),
            keyboard_present: s.seat.keyboard_present != 0,
            pointer_present: s.seat.pointer_present != 0,
        },
        fullscreen_active: s.fullscreen_active != 0,
        compositor_running: s.compositor_running != 0,
    }
}

/// The backend event an SDK event record states.
pub open spec fn event_of(e: SdkEvent) -> BackendEvent {
    if e.kind == 2 {
        BackendEvent::PointerMoved { x: e.x, y: e.y }
    } else if e.kind == 3 {
        BackendEvent::KeyChanged { keycode: e.keycode, pressed: e.pressed != 0 }
    } else if e.kind == 4 {
        BackendEvent::FramePresented(
            FrameMetadata { width: e.width, height: e.height, stride: e.stride, age: e.age },
        )
    } else {
        BackendEvent::SessionStopped
    }
}

/// The backend event an SDK event record states (see `event_of`).
pub fn map_event(e: SdkEvent) -> (r: BackendEvent)
    ensures
        r == event_of(e),
{
    if e.kind == 2 {
        BackendEvent::PointerMoved { x: e.x, y: e.y }
    } else if e.kind == 3 {
        BackendEvent::KeyChanged { keycode: e.keycode, pressed: e.pressed != 0 }
    } else if e.kind == 4 {
        BackendEvent::FramePresented(
            FrameMetadata { width: e.width, height: e.height, stride: e.stride, age: e.age },
        )
    } else {
        BackendEvent::SessionStopped
    }
}

/// The SDK call that queues an event.
#[derive(Debug, Clone, Copy, PartialEq, Eq, Structural)]
pub enum SdkPush {
    PointerMoved { x: i32, y: i32 },
    KeyChanged { keycode: u16, pressed: u8 },
    FramePresented { width: u32, height: u32, stride: u32, age: u64 },
    Stopped,
    /// The SDK has no call for the event: it is not queued.
    Nothing,
}

/// The SDK call that queues `event`; a session start has none.
pub fn push_call(event: &BackendEvent) -> (r: SdkPush)
    ensures
        r == match *event {
            BackendEvent::PointerMoved { x, y } => SdkPush::PointerMoved { x, y },
            BackendEvent::KeyChanged { keycode, pressed } => SdkPush::KeyChanged {
                keycode,
                pressed: if pressed { 1u8 } else { 0u8 },
            },
            BackendEvent::FramePresented(f) => SdkPush::FramePresented {
                width: f.width,
                height: f.height,
                stride: f.stride,
                age: f.age,
            },
            BackendEvent::SessionStopped => SdkPush::Stopped,
            BackendEvent::SessionStarted(_) => SdkPush::Nothing,
        },
{
    match event {
        BackendEvent::PointerMoved { x, y } => SdkPush::PointerMoved { x: *x, y: *y },
        BackendEvent::KeyChanged { keycode, pressed } => SdkPush::KeyChanged {
            keycode: *keycode,
            pressed: if *pressed { 1u8 } else { 0u8 },
        },
        BackendEvent::FramePresented(f) => SdkPush::FramePresented {
            width: f.width,
            height: f.height,
            stride: f.stride,
            age: f.age,
        },
        BackendEvent::SessionStopped => SdkPush::Stopped,
        BackendEvent::SessionStarted(_) => SdkPush::Nothing,
    }
}

} // verus!
