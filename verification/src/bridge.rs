//! The decisions of the macOS window bridge, which mirrors the windows of
//! macOS as Wayland toplevels: which windows it mirrors and under what name,
//! when it lists them again, which it captures, how it lays out and hands out
//! its buffers, and what it makes of the compositor's configure events.
use vstd::prelude::*;
use crate::host::{decimal, decimal_of};
use crate::text::{append_chars, append_str, chars_of, contains_in, contains_text, same_text, string_from};

verus! {

/// A window of macOS that the bridge mirrors.
#[derive(Debug, Clone, PartialEq, Eq)]
pub struct MacWindow {
    pub pid: u32,
    pub name: String,
    pub title: String,
    pub window_id: u32,
    pub x: i32,
    pub y: i32,
    pub width: u32,
    pub height: u32,
}

/// What the window list of macOS says of one window: the owner's process id
/// and the window number (absent when missing or not numbers), the owner's
/// and the window's names (empty when missing), and the bounds
/// `(x, y, width, height)` (absent when the record has no bounds).
#[derive(Debug, Clone, PartialEq, Eq)]
pub struct WindowRecord {
    pub pid: Option<u32>,
    pub window_id: Option<u32>,
    pub owner_name: String,
    pub window_name: String,
    pub bounds: Option<(i32, i32, u32, u32)>,
}

/// Why a record of the window list is not mirrored.
#[derive(Debug, Clone, Copy, PartialEq, Eq, Structural)]
pub enum WindowSkip {
    MissingPid,
    MissingWindowId,
    /// The bridge itself, the window server, the Dock or the login window.
    FilteredOwner,
    MissingBounds,
    /// 30 points or less across or high.
    TooSmall,
}

/// The owners whose windows are never mirrored: anything of macland, the
/// window server, the Dock and the login window.
pub open spec fn filtered_owner(owner: Seq<char>) -> bool {
    contains_text(owner, "macland"@) || owner == "Window Server"@ || owner == "Dock"@
        || owner == "loginwindow"@
}

/// The name a mirrored window goes by: its owner, then ` - ` and its own
/// name when it has one.
pub open spec fn display_name(owner: Seq<char>, window_name: Seq<char>) -> Seq<char> {
    if window_name.len() == 0 {
        owner
    } else {
        owner + " - "@ + window_name
    }
}

/// Whether the records of this owner are left out (see `filtered_owner`).
pub fn is_filtered_owner(owner: &str) -> (b: bool)
    ensures
        b == filtered_owner(owner@),
{
    let o = chars_of(owner);
    contains_in(&o, &chars_of("macland")) || same_text(&o, &chars_of("Window Server")) || same_text(
        &o,
        &chars_of("Dock"),
    ) || same_text(&o, &chars_of("loginwindow"))
}

/// The name a mirrored window goes by (see `display_name`).
pub fn window_display_name(owner: &str, window_name: &str) -> (r: String)
    ensures
        r@ == display_name(owner@, window_name@),
{
    let w = chars_of(window_name);
    let mut out = chars_of(owner);
    if w.len() > 0 {
        append_str(&mut out, " - ");
        append_chars(&mut out, &w);
    }
    string_from(&out)
}

/// The window a record describes, or why it is not mirrored; the reasons are
/// tested in the order of `WindowSkip`.
pub fn window_candidate(record: &WindowRecord) -> (r: Result<MacWindow, WindowSkip>)
    ensures
        match r {
            Ok(w) => {
                &&& record.pid == Some(w.pid)
                &&& record.window_id == Some(w.window_id)
                &&& !filtered_owner(record.owner_name@)
                &&& record.bounds == Some((w.x, w.y, w.width, w.height))
                &&& w.width > 30 && w.height > 30
                &&& w.name@ == display_name(record.owner_name@, record.window_name@)
                &&& w.title@ == record.window_name@
            },
            Err(WindowSkip::MissingPid) => record.pid is None,
            Err(WindowSkip::MissingWindowId) => record.pid is Some && record.window_id is None,
            Err(WindowSkip::FilteredOwner) => record.pid is Some && record.window_id is Some
                && filtered_owner(record.owner_name@),
            Err(WindowSkip::MissingBounds) => record.pid is Some && record.window_id is Some
                && !filtered_owner(record.owner_name@) && record.bounds is None,
            Err(WindowSkip::TooSmall) => {
                &&& record.pid is Some
                &&& record.window_id is Some
                &&& !filtered_owner(record.owner_name@)
                &&& match record.bounds {
                    Some((_, _, w, h)) => w <= 30 || h <= 30,
                    None => false,
                }
            },
        },
{
    let pid = match record.pid {
        Some(p) => p,
        None => return Err(WindowSkip::MissingPid),
    };
    let window_id = match record.window_id {
        Some(w) => w,
        None => return Err(WindowSkip::MissingWindowId),
    };
    if is_filtered_owner(record.owner_name.as_str()) {
        return Err(WindowSkip::FilteredOwner);
    }
    let (x, y, width, height) = match record.bounds {
        Some(b) => b,
        None => return Err(WindowSkip::MissingBounds),
    };
    if width <= 30 || height <= 30 {
        return Err(WindowSkip::TooSmall);
    }
    Ok(
        MacWindow {
            pid,
            name: window_display_name(record.owner_name.as_str(), record.window_name.as_str()),
            title: record.window_name.clone(),
            window_id,
            x,
            y,
            width,
            height,
        },
    )
}

/// Whether a candidate window is mirrored, from what the accessibility check
/// of its size attribute says: kept unless it says the size cannot be set
/// (a failed check keeps the window).
pub fn keeps_window(resizable: Option<bool>) -> (b: bool)
    ensures
        b == (resizable != Some(false)),
{
    match resizable {
        Some(false) => false,
        _ => true,
    }
}

/// Whether the bridge lists the windows of macOS again before this frame:
/// when the number of mirrored windows changed since the last listing, or
/// three seconds or more went by since it.
pub fn needs_enumeration(last_window_count: usize, current_count: usize, seconds_since: u64) -> (b: bool)
    ensures
        b == (last_window_count != current_count || seconds_since >= 3),
{
    last_window_count != current_count || seconds_since >= 3
}

/// The mirrored windows whose macOS window is gone: the keys of `mirrored`
/// that `listed` lacks, in the order of `mirrored`.
pub fn closed_windows(mirrored: &Vec<u32>, listed: &Vec<u32>) -> (r: Vec<u32>)
    ensures
        r@ == mirrored@.filter(|k: u32| !listed@.contains(k)),
{
    let ghost keep = |k: u32| !listed@.contains(k);
    let mut r: Vec<u32> = Vec::new();
    let mut i: usize = 0;
    assert(mirrored@.take(0).filter(keep) =~= Seq::<u32>::empty()) by {
        reveal(Seq::filter);
    }
    while i < mirrored.len()
        invariant
            i <= mirrored@.len(),
            keep == |k: u32| !listed@.contains(k),
            r@ == mirrored@.take(i as int).filter(keep),
        decreases mirrored.len() - i,
    {
        let k = mirrored[i];
        assert(mirrored@.take(i as int).push(k) =~= mirrored@.take(i + 1));
        proof {
            mirrored@.take(i as int).lemma_filter_push(k, keep);
        }
        if !contains_key(listed, k) {
            r.push(k);
        }
        i += 1;
    }
    assert(mirrored@.take(mirrored@.len() as int) =~= mirrored@);
    r
}

/// The listed windows that are not mirrored yet: the keys of `listed` that
/// `mirrored` lacks, in the order of `listed`.
pub fn new_windows(listed: &Vec<u32>, mirrored: &Vec<u32>) -> (r: Vec<u32>)
    ensures
        r@ == listed@.filter(|k: u32| !mirrored@.contains(k)),
{
    closed_windows(listed, mirrored)
}

/// Whether `keys` holds `k`.
fn contains_key(keys: &Vec<u32>, k: u32) -> (b: bool)
    ensures
        b == keys@.contains(k),
{
    let mut i: usize = 0;
    while i < keys.len()
        invariant
            i <= keys@.len(),
            forall|j: int| 0 <= j < i ==> keys@[j] != k,
        decreases keys.len() - i,
    {
        if keys[i] == k {
            assert(keys@[i as int] == k);
            return true;
        }
        i += 1;
    }
    false
}

/// The size a new Wayland window starts with: the macOS window's, at least 1 by 1.
pub fn initial_size(width: u32, height: u32) -> (r: (u32, u32))
    ensures
        r.0 == (if width >= 1 { width } else { 1 }),
        r.1 == (if height >= 1 { height } else { 1 }),
{
    (if width >= 1 { width } else { 1 }, if height >= 1 { height } else { 1 })
}

/// The title of the Wayland window that mirrors a macOS window.
pub open spec fn bridge_title(name: Seq<char>, pid: u32) -> Seq<char> {
    "macOS Bridge - "@ + name + " (PID:"@ + decimal(pid as nat) + ")"@
}

/// The title of a mirroring window (see `bridge_title`).
pub fn window_title(name: &str, pid: u32) -> (r: String)
    ensures
        r@ == bridge_title(name@, pid),
{
    let mut out = chars_of("macOS Bridge - ");
    append_str(&mut out, name);
    append_str(&mut out, " (PID:");
    append_chars(&mut out, &decimal_of(pid as u128));
    append_str(&mut out, ")");
    string_from(&out)
}

/// What the bridge does with a mirrored window in a frame.
#[derive(Debug, Clone, Copy, PartialEq, Eq, Structural)]
pub enum CaptureStep {
    /// The compositor has not configured the window yet.
    NotConfigured,
    /// The window is under 100 by 100.
    TooSmall,
    /// The macOS window it mirrors is not in the last listing.
    NoMacWindow,
    /// Capture the macOS window at the window's size.
    Capture,
}

/// What to do with a mirrored window in a frame (see `CaptureStep`), tested in that order.
pub fn capture_step(configured: bool, width: u32, height: u32, listed: bool) -> (r: CaptureStep)
    ensures
        r == (if !configured {
            CaptureStep::NotConfigured
        } else if width < 100 || height < 100 {
            CaptureStep::TooSmall
        } else if !listed {
            CaptureStep::NoMacWindow
        } else {
            CaptureStep::Capture
        }),
{
    if !configured {
        CaptureStep::NotConfigured
    } else if width < 100 || height < 100 {
        CaptureStep::TooSmall
    } else if !listed {
        CaptureStep::NoMacWindow
    } else {
        CaptureStep::Capture
    }
}

/// Whether a capture at this size is tried: 10 by 10 or more.
pub fn capture_size_ok(width: u32, height: u32) -> (b: bool)
    ensures
        b == (width >= 10 && height >= 10),
{
    width >= 10 && height >= 10
}

/// The bytes of a frame of `width` by `height` pixels of four bytes, rows
/// `4 * width` bytes long.
pub open spec fn frame_bytes(width: u32, height: u32) -> int {
    4 * width * height
}

/// How the two buffers of a window lie in their shared memory: each row
/// `stride` bytes, each buffer `slot_len` bytes, the second right after the
/// first, `total` bytes in all.
#[derive(Debug, Clone, Copy, PartialEq, Eq, Structural)]
pub struct BufferLayout {
    pub stride: i32,
    pub slot_len: usize,
    pub total: usize,
}

/// The layout of the buffers of a `width` by `height` window; the stride
/// must fit an `i32`, and twice the bytes of a frame a `usize`.
pub fn buffer_layout(width: u32, height: u32) -> (r: BufferLayout)
    requires
        4 * width <= i32::MAX,
        2 * frame_bytes(width, height) <= usize::MAX,
    ensures
        r.stride == 4 * width,
        r.slot_len == frame_bytes(width, height),
        r.total == 2 * frame_bytes(width, height),
{
    let stride = width as i32 * 4;
    assert(stride as usize * height as usize <= 2 * frame_bytes(width, height)) by (nonlinear_arith)
        requires
            stride == 4 * width,
            0 <= width * height,
    {
    }
    let slot_len = (stride as usize) * (height as usize);
    BufferLayout { stride, slot_len, total: slot_len * 2 }
}

/// Whether the buffers of a window are made anew for a frame of this size:
/// when it has none, or they are of another size.
pub fn needs_new_buffers(current: Option<(u32, u32)>, width: u32, height: u32) -> (b: bool)
    ensures
        b == match current {
            Some(s) => s.0 != width || s.1 != height,
            None => true,
        },
{
    match current {
        Some((w, h)) => w != width || h != height,
        None => true,
    }
}

/// Whether a captured frame fills a `width` by `height` buffer: it holds
/// exactly four bytes a pixel; the stride must fit an `i32`.
pub fn frame_fits(width: u32, height: u32, pixel_bytes: usize) -> (b: bool)
    requires
        4 * width <= i32::MAX,
    ensures
        b == (pixel_bytes == frame_bytes(width, height)),
{
    let stride = width as u64 * 4;
    assert(stride as u128 * height as u128 <= u128::MAX) by (nonlinear_arith)
        requires
            stride <= 0x4_0000_0000,
            height <= 0xffff_ffff,
    {
    }
    let size = stride as u128 * height as u128;
    assert(size == frame_bytes(width, height)) by (nonlinear_arith)
        requires
            stride == 4 * width,
            size == stride * height,
    {
    }
    size == pixel_bytes as u128
}

/// The size a window takes from a configure event of its toplevel: the
/// suggested size when both sides are positive; none (the window keeps its
/// size) otherwise.
pub fn configured_size(width: i32, height: i32) -> (r: Option<(u32, u32)>)
    ensures
        match r {
            Some(s) => width > 0 && height > 0 && s.0 == width && s.1 == height,
            None => width <= 0 || height <= 0,
        },
{
    if width <= 0 || height <= 0 {
        None
    } else {
        Some((width as u32, height as u32))
    }
}

/// The first free buffer, looking at the slots from `next` on, round the end:
/// at offsets `offset`, `offset + 1`, ... from `next`.
pub open spec fn pick_from(busy: Seq<bool>, next: int, offset: int) -> Option<int>
    decreases busy.len() - offset,
{
    if offset < 0 || offset >= busy.len() {
        None
    } else if !busy[(next + offset) % (busy.len() as int)] {
        Some((next + offset) % (busy.len() as int))
    } else {
        pick_from(busy, next, offset + 1)
    }
}

/// The buffer the bridge draws into next: the first free one from `next` on.
pub open spec fn slot_pick(busy: Seq<bool>, next: int) -> Option<int> {
    pick_from(busy, next, 0)
}

/// The two buffers of a window, which of them the compositor still holds, and
/// which one to try first.
pub struct BufferSlots {
    busy: Vec<bool>,
    next_slot: usize,
}

impl BufferSlots {
    /// Two buffers, and the one to try first among them.
    pub closed spec fn wf(&self) -> bool {
        self.busy@.len() == 2 && self.next_slot < 2
    }

    /// Which buffers the compositor holds.
    pub closed spec fn held(&self) -> Seq<bool> {
        self.busy@
    }

    /// The buffer to try first.
    pub closed spec fn next(&self) -> int {
        self.next_slot as int
    }

    /// Two free buffers, the first to be tried first.
    pub fn new() -> (r: Self)
        ensures
            r.wf(),
            r.held() == seq![false, false],
            r.next() == 0,
    {
        let r = BufferSlots { busy: vec![false, false], next_slot: 0 };
        assert(r.busy@ =~= seq![false, false]);
        r
    }

    /// The buffer to draw into, and the one after it is tried first next
    /// time; none when the compositor holds both.
    pub fn next_available_slot(&mut self) -> (r: Option<usize>)
        requires
            old(self).wf(),
        ensures
            final(self).wf(),
            final(self).held() == old(self).held(),
            old(self).held().len() == 2,
            match r {
                Some(i) => i < 2 && slot_pick(old(self).held(), old(self).next()) == Some(i as int)
                    && final(self).next() == (i + 1) % 2,
                None => slot_pick(old(self).held(), old(self).next()) is None
                    && final(self).next() == old(self).next(),
            },
    {
        let n = self.busy.len();
        let mut offset: usize = 0;
        while offset < n
            invariant
                n == 2,
                self.busy@ == old(self).busy@,
                self.next_slot == old(self).next_slot,
                self.busy@.len() == 2,
                self.next_slot < 2,
                offset <= n,
                slot_pick(self.busy@, self.next_slot as int) == pick_from(self.busy@, self.next_slot as int, offset as int),
            decreases n - offset,
        {
            let index = (self.next_slot + offset) % n;
            assert(index == (self.next_slot as int + offset as int) % (self.busy@.len() as int));
            if !self.busy[index] {
                self.next_slot = (index + 1) % n;
                return Some(index);
            }
            offset += 1;
        }
        None
    }

    /// The compositor now holds buffer `i`.
    pub fn mark_busy(&mut self, i: usize)
        requires
            old(self).wf(),
            i < 2,
        ensures
            final(self).wf(),
            final(self).held() == old(self).held().update(i as int, true),
            final(self).next() == old(self).next(),
    {
        self.busy.set(i, true);
    }

    /// The compositor released buffer `i`.
    pub fn release(&mut self, i: usize)
        requires
            old(self).wf(),
            i < 2,
        ensures
            final(self).wf(),
            final(self).held() == old(self).held().update(i as int, false),
            final(self).next() == old(self).next(),
    {
        self.busy.set(i, false);
    }
}

/// A buffer that the compositor holds is never handed out to draw into.
pub proof fn law_held_buffer_not_reused(busy: Seq<bool>, next: int, i: int)
    requires
        0 <= i < busy.len(),
        busy[i],
    ensures
        slot_pick(busy, next) != Some(i),
{
    lemma_pick_free(busy, next, 0);
}

/// A buffer is handed out whenever one is free.
pub proof fn law_free_buffer_found(busy: Seq<bool>, next: int, i: int)
    requires
        0 <= i < busy.len(),
        !busy[i],
        0 <= next < busy.len(),
    ensures
        slot_pick(busy, next) is Some,
{
    let n = busy.len() as int;
    if i >= next {
        vstd::arithmetic::div_mod::lemma_small_mod(i as nat, n as nat);
        assert(next + (i - next) == i);
        lemma_pick_reaches(busy, next, 0, i - next);
    } else {
        vstd::arithmetic::div_mod::lemma_mod_add_multiples_vanish(i, n);
        vstd::arithmetic::div_mod::lemma_small_mod(i as nat, n as nat);
        assert(next + (i + n - next) == n + i);
        lemma_pick_reaches(busy, next, 0, i + n - next);
    }
}

proof fn lemma_pick_free(busy: Seq<bool>, next: int, offset: int)
    ensures
        pick_from(busy, next, offset) matches Some(j) ==> 0 <= j < busy.len() && !busy[j],
    decreases busy.len() - offset,
{
    if 0 <= offset < busy.len() {
        let n = busy.len() as int;
        assert(0 <= (next + offset) % n < n) by (nonlinear_arith)
            requires
                n > 0,
        {
        }
        lemma_pick_free(busy, next, offset + 1);
    }
}

proof fn lemma_pick_reaches(busy: Seq<bool>, next: int, offset: int, target: int)
    requires
        0 <= offset <= target < busy.len(),
        !busy[(next + target) % (busy.len() as int)],
    ensures
        pick_from(busy, next, offset) is Some,
    decreases target - offset,
{
    if offset < target {
        lemma_pick_reaches(busy, next, offset + 1, target);
    }
}

/// The score of an accessibility window as the one that mirrors `window`:
/// 10000 when the titles match, 2000 when both are untitled, less the
/// distance of the positions and twice that of the sizes.
pub open spec fn window_score(window: MacWindow, title: Seq<char>, x: int, y: int, width: int, height: int) -> int {
    let base: int = if title == window.title@ {
        10000
    } else if title.len() == 0 && window.title@.len() == 0 {
        2000
    } else {
        0
    };
    base - abs(x - window.x) - abs(y - window.y) - 2 * abs(width - window.width) - 2 * abs(
        height - window.height,
    )
}

pub open spec fn abs(v: int) -> int {
    if v < 0 {
        -v
    } else {
        v
    }
}

pub open spec fn fits_i64(v: int) -> bool {
    i64::MIN <= v <= i64::MAX
}

/// The score of an accessibility window (see `window_score`), whose position
/// and size arrive as whole numbers; the score itself must fit an `i64`.
pub fn score_window(window: &MacWindow, title: &str, x: i64, y: i64, width: i64, height: i64) -> (r: i64)
    requires
        fits_i64(window_score(*window, title@, x as int, y as int, width as int, height as int)),
    ensures
        r == window_score(*window, title@, x as int, y as int, width as int, height as int),
{
    let t = chars_of(title);
    let own = chars_of(window.title.as_str());
    let base: i128 = if same_text(&t, &own) {
        10000
    } else if t.len() == 0 && own.len() == 0 {
        2000
    } else {
        0
    };
    let dx = x as i128 - window.x as i128;
    let dy = y as i128 - window.y as i128;
    let dw = width as i128 - window.width as i128;
    let dh = height as i128 - window.height as i128;
    let ax = if dx < 0 { -dx } else { dx };
    let ay = if dy < 0 { -dy } else { dy };
    let aw = if dw < 0 { -dw } else { dw };
    let ah = if dh < 0 { -dh } else { dh };
    let score = base - ax - ay - 2 * aw - 2 * ah;
    score as i64
}

/// The accessibility window that best matches: the first with the highest
/// score, among those scored (`None` marks one that was not), and only if
/// that score is above `i64::MIN`.
pub open spec fn best_index(scores: Seq<Option<i64>>) -> Option<int>
    decreases scores.len(),
{
    if scores.len() == 0 {
        None
    } else {
        let before = best_index(scores.drop_last());
        match scores.last() {
            Some(s) => {
                let best: i64 = match before {
                    Some(j) => scores[j]->0,
                    None => i64::MIN,
                };
                if s > best {
                    Some(scores.len() - 1)
                } else {
                    before
                }
            },
            None => before,
        }
    }
}

/// The index of the best-matching accessibility window (see `best_index`).
pub fn best_window(scores: &Vec<Option<i64>>) -> (r: Option<usize>)
    ensures
        match r {
            Some(i) => best_index(scores@) == Some(i as int),
            None => best_index(scores@) is None,
        },
{
    let mut best: Option<usize> = None;
    let mut best_score: i64 = i64::MIN;
    let mut i: usize = 0;
    assert(scores@.take(0) =~= Seq::<Option<i64>>::empty());
    while i < scores.len()
        invariant
            i <= scores@.len(),
            match best {
                Some(j) => best_index(scores@.take(i as int)) == Some(j as int) && j < i
                    && scores@[j as int] == Some(best_score),
                None => best_index(scores@.take(i as int)) is None && best_score == i64::MIN,
            },
        decreases scores.len() - i,
    {
        let ghost pre = scores@.take(i as int);
        assert(scores@.take(i + 1).drop_last() =~= pre);
        assert(scores@.take(i + 1).last() == scores@[i as int]);
        proof {
            if let Some(j) = best {
                assert(pre[j as int] == scores@[j as int]);
                assert(scores@.take(i + 1)[j as int] == scores@[j as int]);
            }
        }
        if let Some(s) = scores[i] {
            if s > best_score {
                best_score = s;
                best = Some(i);
            }
        }
        i += 1;
    }
    assert(scores@.take(scores@.len() as int) =~= scores@);
    best
}


/// A window that a frame starts to mirror: the key of its macOS window and
/// the size its Wayland window starts with.
#[derive(Debug, Clone, Copy, PartialEq, Eq, Structural)]
pub struct NewWindow {
    pub key: u32,
    pub width: u32,
    pub height: u32,
}

/// What a frame does to the mirrored windows: the frame's number, the
/// windows to drop, and the windows to create.
#[derive(Debug, Clone, PartialEq, Eq)]
pub struct FramePlan {
    pub frame_count: u32,
    pub closed: Vec<u32>,
    pub created: Vec<NewWindow>,
}

/// The keys of the listed windows, each listed as `(key, width, height)`.
pub open spec fn listed_keys(listed: Seq<(u32, u32, u32)>) -> Seq<u32> {
    listed.map_values(|e: (u32, u32, u32)| e.0)
}

/// The window a frame creates for a listed window: its size at least 1 by 1.
pub open spec fn new_window_of(e: (u32, u32, u32)) -> NewWindow {
    NewWindow {
        key: e.0,
        width: if e.1 >= 1 { e.1 } else { 1 },
        height: if e.2 >= 1 { e.2 } else { 1 },
    }
}

/// The mirrored windows whose macOS window is no longer listed.
pub open spec fn frame_closed(mirrored: Seq<u32>, listed: Seq<(u32, u32, u32)>) -> Seq<u32> {
    mirrored.filter(|k: u32| !listed_keys(listed).contains(k))
}

/// The windows created for listed windows that are not mirrored yet, in the order listed.
pub open spec fn frame_created(mirrored: Seq<u32>, listed: Seq<(u32, u32, u32)>) -> Seq<NewWindow> {
    listed.filter(|e: (u32, u32, u32)| !mirrored.contains(e.0)).map_values(|e: (u32, u32, u32)| new_window_of(e))
}

/// The plan of a frame: its number is the next one; the mirrored windows no
/// longer listed are dropped; each listed window not yet mirrored gets a
/// window of its size, at least 1 by 1.
pub fn plan_frame(frame_count: u32, mirrored: &Vec<u32>, listed: &Vec<(u32, u32, u32)>) -> (r: FramePlan)
    requires
        frame_count < u32::MAX,
    ensures
        r.frame_count == frame_count + 1,
        r.closed@ == frame_closed(mirrored@, listed@),
        r.created@ == frame_created(mirrored@, listed@),
{
    let mut keys: Vec<u32> = Vec::new();
    let mut i: usize = 0;
    while i < listed.len()
        invariant
            i <= listed@.len(),
            keys@ == listed_keys(listed@.take(i as int)),
        decreases listed.len() - i,
    {
        keys.push(listed[i].0);
        assert(listed_keys(listed@.take(i + 1)) =~= listed_keys(listed@.take(i as int)).push(listed@[i as int].0));
        i += 1;
    }
    assert(listed@.take(listed@.len() as int) =~= listed@);
    let closed = closed_windows(mirrored, &keys);
    let ghost keep = |e: (u32, u32, u32)| !mirrored@.contains(e.0);
    let ghost f = |e: (u32, u32, u32)| new_window_of(e);
    let mut created: Vec<NewWindow> = Vec::new();
    let mut j: usize = 0;
    assert(listed@.take(0).filter(keep) =~= Seq::<(u32, u32, u32)>::empty()) by {
        reveal(Seq::filter);
    }
    assert(listed@.take(0).filter(keep).map_values(f) =~= Seq::<NewWindow>::empty());
    while j < listed.len()
        invariant
            j <= listed@.len(),
            keep == |e: (u32, u32, u32)| !mirrored@.contains(e.0),
            f == |e: (u32, u32, u32)| new_window_of(e),
            created@ == listed@.take(j as int).filter(keep).map_values(f),
        decreases listed.len() - j,
    {
        let e = listed[j];
        assert(listed@.take(j as int).push(e) =~= listed@.take(j + 1));
        proof {
            listed@.take(j as int).lemma_filter_push(e, keep);
        }
        if !contains_key(mirrored, e.0) {
            let (w, h) = initial_size(e.1, e.2);
            created.push(NewWindow { key: e.0, width: w, height: h });
            assert(listed@.take(j + 1).filter(keep).map_values(f) =~= listed@.take(j as int).filter(keep).map_values(f).push(new_window_of(e)));
        }
        j += 1;
    }
    assert(listed@.take(listed@.len() as int) =~= listed@);
    FramePlan { frame_count: frame_count + 1, closed, created }
}

/// After a frame, the mirrored windows are exactly the listed ones: a key
/// stays mirrored or is created when, and only when, it is listed.
pub proof fn law_mirrored_keys_follow_listing(mirrored: Seq<u32>, listed: Seq<(u32, u32, u32)>, k: u32)
    ensures
        (mirrored.contains(k) && !frame_closed(mirrored, listed).contains(k))
            || frame_created(mirrored, listed).map_values(|w: NewWindow| w.key).contains(k)
            <==> listed_keys(listed).contains(k),
{
    broadcast use vstd::seq_lib::group_filter_ensures;
    let lk = listed_keys(listed);
    let p = |x: u32| !lk.contains(x);
    let keep = |e: (u32, u32, u32)| !mirrored.contains(e.0);
    let kept = listed.filter(keep);
    let created = frame_created(mirrored, listed);
    let ck = created.map_values(|w: NewWindow| w.key);
    if mirrored.contains(k) && !lk.contains(k) {
        let i = choose|i: int| 0 <= i < mirrored.len() && mirrored[i] == k;
        mirrored.lemma_filter_contains(p, i);
    }
    if frame_closed(mirrored, listed).contains(k) {
        mirrored.lemma_filter_contains_rev(p, k);
        let i = choose|i: int| 0 <= i < mirrored.filter(p).len() && mirrored.filter(p)[i] == k;
        mirrored.lemma_filter_pred(p, i);
    }
    if ck.contains(k) {
        let i = choose|i: int| 0 <= i < ck.len() && ck[i] == k;
        assert(ck[i] == kept[i].0);
        listed.lemma_filter_pred(keep, i);
        assert(kept.contains(kept[i]));
        listed.lemma_filter_contains_rev(keep, kept[i]);
        let j = choose|j: int| 0 <= j < listed.len() && listed[j] == kept[i];
        assert(lk[j] == k);
    }
    if lk.contains(k) && !mirrored.contains(k) {
        let j = choose|j: int| 0 <= j < lk.len() && lk[j] == k;
        assert(listed[j].0 == k);
        listed.lemma_filter_contains(keep, j);
        let i = choose|i: int| 0 <= i < kept.len() && kept[i] == listed[j];
        assert(ck[i] == k);
    }
}

} // verus!
