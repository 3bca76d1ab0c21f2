use macland_core::bridge::{
    best_window, buffer_layout, capture_size_ok, capture_step, closed_windows, configured_size,
    frame_fits, initial_size, is_filtered_owner, keeps_window, needs_enumeration,
    needs_new_buffers, new_windows, plan_frame, score_window, window_candidate, window_display_name,
    window_title, BufferSlots, CaptureStep, FramePlan, MacWindow, NewWindow, WindowRecord,
    WindowSkip,
};

fn record(owner: &str, name: &str, bounds: Option<(i32, i32, u32, u32)>) -> WindowRecord {
    WindowRecord {
        pid: Some(42),
        window_id: Some(7),
        owner_name: owner.to_string(),
        window_name: name.to_string(),
        bounds,
    }
}

fn mac_window() -> MacWindow {
    MacWindow {
        pid: 42,
        name: "Terminal - zsh".to_string(),
        title: "zsh".to_string(),
        window_id: 7,
        x: 10,
        y: 20,
        width: 800,
        height: 600,
    }
}

#[test]
fn admits_ordinary_windows() {
    let w = window_candidate(&record("Terminal", "zsh", Some((10, 20, 800, 600)))).unwrap();
    assert_eq!(w, mac_window());
    let untitled = window_candidate(&record("Finder", "", Some((0, 0, 100, 100)))).unwrap();
    assert_eq!(untitled.name, "Finder");
}

#[test]
fn skips_records_in_order_of_reasons() {
    let mut r = record("macland-host", "x", None);
    r.pid = None;
    assert_eq!(window_candidate(&r), Err(WindowSkip::MissingPid));
    r.pid = Some(1);
    r.window_id = None;
    assert_eq!(window_candidate(&r), Err(WindowSkip::MissingWindowId));
    r.window_id = Some(2);
    assert_eq!(window_candidate(&r), Err(WindowSkip::FilteredOwner));
    assert_eq!(window_candidate(&record("Dock", "", Some((0, 0, 500, 500)))), Err(WindowSkip::FilteredOwner));
    assert_eq!(window_candidate(&record("Safari", "", None)), Err(WindowSkip::MissingBounds));
    assert_eq!(window_candidate(&record("Safari", "", Some((0, 0, 30, 500)))), Err(WindowSkip::TooSmall));
    assert!(is_filtered_owner("Window Server"));
    assert!(is_filtered_owner("loginwindow"));
    assert!(!is_filtered_owner("Dockyard"));
    assert_eq!(window_display_name("Safari", "Home"), "Safari - Home");
}

#[test]
fn keeps_windows_unless_known_fixed_size() {
    assert!(keeps_window(Some(true)));
    assert!(keeps_window(None));
    assert!(!keeps_window(Some(false)));
}

#[test]
fn enumerates_on_change_or_every_three_seconds() {
    assert!(needs_enumeration(1, 2, 0));
    assert!(needs_enumeration(2, 2, 3));
    assert!(!needs_enumeration(2, 2, 2));
}

#[test]
fn tracks_closed_and_new_windows() {
    let mirrored = vec![1, 2, 3];
    let listed = vec![3, 4, 1];
    assert_eq!(closed_windows(&mirrored, &listed), vec![2]);
    assert_eq!(new_windows(&listed, &mirrored), vec![4]);
    assert_eq!(initial_size(0, 50), (1, 50));
    assert_eq!(window_title("Terminal - zsh", 421), "macOS Bridge - Terminal - zsh (PID:421)");
}

#[test]
fn decides_captures() {
    assert_eq!(capture_step(false, 800, 600, true), CaptureStep::NotConfigured);
    assert_eq!(capture_step(true, 99, 600, true), CaptureStep::TooSmall);
    assert_eq!(capture_step(true, 800, 600, false), CaptureStep::NoMacWindow);
    assert_eq!(capture_step(true, 100, 100, true), CaptureStep::Capture);
    assert!(capture_size_ok(10, 10));
    assert!(!capture_size_ok(9, 100));
}

#[test]
fn lays_out_buffers() {
    let layout = buffer_layout(800, 600);
    assert_eq!(layout.stride, 3200);
    assert_eq!(layout.slot_len, 1_920_000);
    assert_eq!(layout.total, 3_840_000);
    assert!(needs_new_buffers(None, 1, 1));
    assert!(needs_new_buffers(Some((800, 600)), 800, 601));
    assert!(!needs_new_buffers(Some((800, 600)), 800, 600));
    assert!(frame_fits(800, 600, 1_920_000));
    assert!(!frame_fits(800, 600, 1_920_004));
}

#[test]
fn configure_sizes() {
    assert_eq!(configured_size(1024, 768), Some((1024, 768)));
    assert_eq!(configured_size(0, 768), None);
    assert_eq!(configured_size(1024, -1), None);
}

#[test]
fn hands_out_free_buffers_in_turn() {
    let mut slots = BufferSlots::new();
    assert_eq!(slots.next_available_slot(), Some(0));
    slots.mark_busy(0);
    assert_eq!(slots.next_available_slot(), Some(1));
    slots.mark_busy(1);
    assert_eq!(slots.next_available_slot(), None);
    slots.release(0);
    assert_eq!(slots.next_available_slot(), Some(0));
    slots.release(1);
    assert_eq!(slots.next_available_slot(), Some(1));
}

#[test]
fn scores_and_picks_windows() {
    let w = mac_window();
    assert_eq!(score_window(&w, "zsh", 10, 20, 800, 600), 10000);
    assert_eq!(score_window(&w, "other", 12, 17, 790, 600), -25);
    let mut untitled = mac_window();
    untitled.title = String::new();
    assert_eq!(score_window(&untitled, "", 10, 20, 800, 600), 10000);
    assert_eq!(score_window(&untitled, "x", 10, 20, 800, 600), 0);
    assert_eq!(best_window(&vec![Some(-5), None, Some(3), Some(3)]), Some(2));
    assert_eq!(best_window(&vec![None, Some(i64::MIN)]), None);
    assert_eq!(best_window(&vec![]), None);
}

#[test]
fn frame_plan_follows_the_listing() {
    let plan = plan_frame(7, &vec![1, 2, 3], &vec![(3, 640, 480), (4, 0, 300), (1, 10, 10)]);
    assert_eq!(
        plan,
        FramePlan {
            frame_count: 8,
            closed: vec![2],
            created: vec![NewWindow { key: 4, width: 1, height: 300 }],
        }
    );
    let first = plan_frame(0, &vec![], &vec![(9, 800, 0)]);
    assert_eq!(first.frame_count, 1);
    assert_eq!(first.closed, Vec::<u32>::new());
    assert_eq!(first.created, vec![NewWindow { key: 9, width: 800, height: 1 }]);
    let gone = plan_frame(41, &vec![5, 6], &vec![]);
    assert_eq!(gone.closed, vec![5, 6]);
    assert!(gone.created.is_empty());
}

#[test]
fn scores_far_away_windows() {
    let w = mac_window();
    let far = 1i64 << 61;
    assert_eq!(
        score_window(&w, "elsewhere", far + w.x as i64, w.y as i64, w.width as i64, w.height as i64),
        -far
    );
}
