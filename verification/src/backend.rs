//! The macOS backend model: capabilities, session state, events, and a mock runtime.
use vstd::prelude::*;
use std::collections::VecDeque;
use crate::text::{chars_of, string_from};

verus! {

/// How the backend renders.
#[derive(Debug, Clone, Copy, PartialEq, Eq, Structural)]
pub enum RendererKind {
    Metal,
    Software,
}

/// What the macOS backend can do.
#[derive(Debug, Clone, PartialEq, Eq)]
pub struct BackendCapabilities {
    pub renderer: RendererKind,
    pub supports_software_fallback: bool,
    pub supports_fullscreen_host: bool,
    pub supports_windowed_debug: bool,
    pub supports_single_display_session: bool,
    pub supports_multi_display_session: bool,
    pub supports_c_abi: bool,
    pub supports_event_queue: bool,
    pub permission_requirements: Vec<String>,
}

/// The permissions the macOS host asks for.
pub open spec fn default_permissions() -> Seq<Seq<char>> {
    seq!["accessibility"@, "input-monitoring"@]
}

/// The permissions the macOS host asks for.
pub fn permission_list() -> (r: Vec<String>)
    ensures
        r.deep_view() == default_permissions(),
{
    let r = vec![string_from(&chars_of("accessibility")), string_from(&chars_of("input-monitoring"))];
    assert(r.deep_view() =~= default_permissions());
    r
}

impl BackendCapabilities {
    /// The capabilities of the built-in macOS backend: Metal rendering with a
    /// software fallback, one fullscreen or windowed-debug session on one display.
    pub fn macos_defaults() -> (r: Self)
        ensures
            r.renderer == RendererKind::Metal,
            r.supports_software_fallback,
            r.supports_fullscreen_host,
            r.supports_windowed_debug,
            r.supports_single_display_session,
            !r.supports_multi_display_session,
            !r.supports_c_abi,
            !r.supports_event_queue,
            r.permission_requirements.deep_view() == default_permissions(),
    {
        BackendCapabilities {
            renderer: RendererKind::Metal,
            supports_software_fallback: true,
            supports_fullscreen_host: true,
            supports_windowed_debug: true,
            supports_single_display_session: true,
            supports_multi_display_session: false,
            supports_c_abi: false,
            supports_event_queue: false,
            permission_requirements: permission_list(),
        }
    }
}

/// The display a session runs on.
#[derive(Debug, PartialEq, Eq)]
pub struct OutputDescriptor {
    pub id: String,
    pub width: u32,
    pub height: u32,
    pub scale_factor_milli: u32,
    pub refresh_hz_milli: u32,
}

impl Clone for OutputDescriptor {
    fn clone(&self) -> (r: Self)
        ensures
            r == *self,
    {
        OutputDescriptor {
            id: self.id.clone(),
            width: self.width,
            height: self.height,
            scale_factor_milli: self.scale_factor_milli,
            refresh_hz_milli: self.refresh_hz_milli,
        }
    }
}

/// The input seat of a session.
#[derive(Debug, PartialEq, Eq)]
pub struct SeatDescriptor {
    pub name: String,
    pub keyboard_present: bool,
    pub pointer_present: bool,
}

impl Clone for SeatDescriptor {
    fn clone(&self) -> (r: Self)
        ensures
            r == *self,
    {
        SeatDescriptor {
            name: self.name.clone(),
            keyboard_present: self.keyboard_present,
            pointer_present: self.pointer_present,
        }
    }
}

/// The state of a host session.
#[derive(Debug, PartialEq, Eq)]
pub struct SessionSnapshot {
    pub output: OutputDescriptor,
    pub seat: SeatDescriptor,
    pub fullscreen_active: bool,
    pub compositor_running: bool,
}

impl Clone for SessionSnapshot {
    fn clone(&self) -> (r: Self)
        ensures
            r == *self,
    {
        SessionSnapshot {
            output: self.output.clone(),
            seat: self.seat.clone(),
            fullscreen_active: self.fullscreen_active,
            compositor_running: self.compositor_running,
        }
    }
}

/// A presented frame.
#[derive(Debug, Clone, Copy, PartialEq, Eq, Structural)]
pub struct FrameMetadata {
    pub width: u32,
    pub height: u32,
    pub stride: u32,
    pub age: u64,
}

/// What happens in a session.
#[derive(Debug, PartialEq, Eq)]
pub enum BackendEvent {
    SessionStarted(SessionSnapshot),
    PointerMoved { x: i32, y: i32 },
    KeyChanged { keycode: u16, pressed: bool },
    FramePresented(FrameMetadata),
    SessionStopped,
}

impl Clone for BackendEvent {
    fn clone(&self) -> (r: Self)
        ensures
            r == *self,
    {
        match self {
            BackendEvent::SessionStarted(s) => BackendEvent::SessionStarted(s.clone()),
            BackendEvent::PointerMoved { x, y } => BackendEvent::PointerMoved { x: *x, y: *y },
            BackendEvent::KeyChanged { keycode, pressed } => BackendEvent::KeyChanged {
                keycode: *keycode,
                pressed: *pressed,
            },
            BackendEvent::FramePresented(f) => BackendEvent::FramePresented(*f),
            BackendEvent::SessionStopped => BackendEvent::SessionStopped,
        }
    }
}

/// A backend runtime: its capabilities, its session state and its event queue.
pub trait BackendRuntime {
    fn capabilities(&self) -> &BackendCapabilities;

    fn snapshot(&self) -> SessionSnapshot;

    fn push_event(&mut self, event: BackendEvent);

    fn pop_event(&mut self) -> Option<BackendEvent>;
}

/// A backend runtime in memory: the macOS default capabilities, a fixed
/// session snapshot, and a first-in first-out queue of events.
#[derive(Debug)]
pub struct MockBackendRuntime {
    capabilities: BackendCapabilities,
    snapshot: SessionSnapshot,
    events: VecDeque<BackendEvent>,
}

impl MockBackendRuntime {
    /// The capabilities the runtime reports.
    pub closed spec fn spec_capabilities(&self) -> BackendCapabilities {
        self.capabilities
    }

    /// The snapshot the runtime reports.
    pub closed spec fn spec_snapshot(&self) -> SessionSnapshot {
        self.snapshot
    }

    /// The events waiting, oldest first.
    pub closed spec fn queued(&self) -> Seq<BackendEvent> {
        self.events@
    }

    /// A runtime with the macOS default capabilities, the given snapshot, and no event.
    pub fn new(snapshot: SessionSnapshot) -> (r: Self)
        ensures
            r.spec_snapshot() == snapshot,
            r.queued() == Seq::<BackendEvent>::empty(),
            r.spec_capabilities().renderer == RendererKind::Metal,
            r.spec_capabilities().supports_software_fallback,
            r.spec_capabilities().supports_fullscreen_host,
            r.spec_capabilities().supports_windowed_debug,
            r.spec_capabilities().supports_single_display_session,
            !r.spec_capabilities().supports_multi_display_session,
            !r.spec_capabilities().supports_c_abi,
            !r.spec_capabilities().supports_event_queue,
            r.spec_capabilities().permission_requirements.deep_view() == default_permissions(),
    {
        MockBackendRuntime {
            capabilities: BackendCapabilities::macos_defaults(),
            snapshot,
            events: VecDeque::new(),
        }
    }
}

impl BackendRuntime for MockBackendRuntime {
    fn capabilities(&self) -> (r: &BackendCapabilities)
        ensures
            *r == self.spec_capabilities(),
    {
        &self.capabilities
    }

    fn snapshot(&self) -> (r: SessionSnapshot)
        ensures
            r == self.spec_snapshot(),
    {
        self.snapshot.clone()
    }

    fn push_event(&mut self, event: BackendEvent)
        ensures
            final(self).queued() == old(self).queued().push(event),
            final(self).spec_snapshot() == old(self).spec_snapshot(),
            final(self).spec_capabilities() == old(self).spec_capabilities(),
    {
        self.events.push_back(event);
    }

    fn pop_event(&mut self) -> (r: Option<BackendEvent>)
        ensures
            match r {
                Some(e) => old(self).queued().len() > 0 && e == old(self).queued()[0]
                    && final(self).queued() == old(self).queued().drop_first(),
                None => old(self).queued().len() == 0 && final(self).queued() == old(self).queued(),
            },
            final(self).spec_snapshot() == old(self).spec_snapshot(),
            final(self).spec_capabilities() == old(self).spec_capabilities(),
    {
        self.events.pop_front()
    }
}

/// The session the macOS host starts with: the main display at 1728x1117,
/// scale 2.0, 60 Hz; a seat with keyboard and pointer; fullscreen, no compositor yet.
pub fn default_session_snapshot() -> (r: SessionSnapshot)
    ensures
        r.output.id@ == "main-display"@,
        r.output.width == 1728,
        r.output.height == 1117,
        r.output.scale_factor_milli == 2000,
        r.output.refresh_hz_milli == 60000,
        r.seat.name@ == "macland-seat0"@,
        r.seat.keyboard_present,
        r.seat.pointer_present,
        r.fullscreen_active,
        !r.compositor_running,
{
    SessionSnapshot {
        output: OutputDescriptor {
            id: string_from(&chars_of("main-display")),
            width: 1728,
            height: 1117,
            scale_factor_milli: 2000,
            refresh_hz_milli: 60000,
        },
        seat: SeatDescriptor {
            name: string_from(&chars_of("macland-seat0")),
            keyboard_present: true,
            pointer_present: true,
        },
        fullscreen_active: true,
        compositor_running: false,
    }
}


/// Events leave the queue of the mock runtime in the order they entered it:
/// after `push_event(e)` on a queue `q`, `pop_event` gives back the head of
/// `q`, or `e` itself when `q` was empty, and what stays queued is what
/// followed that head, with `e` still last.
pub proof fn law_events_first_in_first_out(q: Seq<BackendEvent>, e: BackendEvent)
    ensures
        q.push(e)[0] == (if q.len() == 0 { e } else { q[0] }),
        q.push(e).drop_first() == (if q.len() == 0 { q } else { q.drop_first().push(e) }),
{
    assert(q.push(e).drop_first() =~= (if q.len() == 0 { q } else { q.drop_first().push(e) }));
}

} // verus!
