//! The graphical desktop: three windows over a wallpaper, a top bar, a
//! taskbar and a start menu, driven by the keyboard and the mouse.

use crate::graphics::{
    bottom_of, filled, on_screen, packed, right_of, stroked, text_drawn, texted, Color, Display, FrameGeometry, Point,
    Rect, TextStyle,
};
use crate::input::{Key, MouseEvent};
use crate::vfs::{DirEntry, NodeKind};
use vstd::prelude::*;
use vstd::string::StringExecFns;

verus! {

broadcast use Color::lemma_of_value, Color::lemma_value_of;

pub const TOP_BAR: i32 = 32;
pub const TASKBAR_HEIGHT: i32 = 44;
pub const TITLE_HEIGHT: i32 = 30;
/// The widest screen the layout arithmetic handles.
pub const MAX_WIDTH: i32 = 39045157;
/// The tallest screen the layout arithmetic handles.
pub const MAX_HEIGHT: i32 = 37025656;

/// Why the desktop hands the screen back.
#[derive(Clone, Copy, Debug, PartialEq, Eq, Structural)]
pub enum DesktopExit {
    Console,
}

#[derive(Clone, Copy, Debug, PartialEq, Eq, Structural)]
pub enum WindowKind {
    Welcome,
    Kernel,
    Files,
}

#[derive(Clone, Copy, Debug)]
pub struct Window {
    pub kind: WindowKind,
    pub title: &'static str,
    pub rect: Rect,
    pub visible: bool,
    pub minimized: bool,
}

/// What a key did to the desktop.
#[derive(Clone, Copy, Debug, PartialEq, Eq, Structural)]
pub enum KeyOutcome {
    Exit(DesktopExit),
    Changed,
    Unchanged,
}

/// What the kernel monitor window shows, gathered by the caller.
#[derive(Clone, Copy, Debug)]
pub struct MonitorFigures {
    pub memory_free_mib: u64,
    pub heap_free_kib: u64,
    pub ticks: u64,
    pub local_apic_id: u64,
    pub io_apic_count: u64,
    pub mounts: u64,
    pub recontrol: u64,
    pub seconds: u64,
}

/// `v` kept within [`lo`, `hi`].
pub open spec fn clamp(v: int, lo: int, hi: int) -> int {
    if v < lo {
        lo
    } else if v > hi {
        hi
    } else {
        v
    }
}

/// Division rounding toward zero.
pub open spec fn tdiv(a: int, b: int) -> int {
    if a >= 0 {
        a / b
    } else {
        -((-a) / b)
    }
}

/// `p` lies in `r`.
pub open spec fn hit(r: Rect, p: Point) -> bool {
    p.x >= r.x && p.y >= r.y && p.x < right_of(r) && p.y < bottom_of(r)
}

fn clamp_i32(v: i32, lo: i32, hi: i32) -> (r: i32)
    requires
        lo <= hi,
    ensures
        r == clamp(v as int, lo as int, hi as int),
{
    if v < lo {
        lo
    } else if v > hi {
        hi
    } else {
        v
    }
}

/// The windows of a `width` by `height` screen, as the desktop opens:
/// the welcome window centred, the kernel monitor to the right, the file
/// list minimized on the left.
pub open spec fn layout(width: int, height: int) -> Seq<(WindowKind, Rect, bool)> {
    let usable = if height - TOP_BAR - TASKBAR_HEIGHT >= 240 { height - TOP_BAR - TASKBAR_HEIGHT } else { 240 };
    let welcome_w = clamp(width * 55 / 100, 420, 680);
    let welcome_h = clamp(usable * 58 / 100, 280, 430);
    let monitor_w = clamp(width * 42 / 100, 360, 540);
    let monitor_h = clamp(usable * 50 / 100, 260, 390);
    let files_w = clamp(width * 46 / 100, 390, 620);
    let files_h = clamp(usable * 54 / 100, 280, 420);
    let monitor_x = if width - monitor_w - 44 >= 40 { width - monitor_w - 44 } else { 40 };
    seq![
        (WindowKind::Welcome, Rect { x: tdiv(width - welcome_w, 2) as i32, y: (TOP_BAR + 48) as i32, width: welcome_w as i32, height: welcome_h as i32 }, false),
        (WindowKind::Kernel, Rect { x: monitor_x as i32, y: (TOP_BAR + 86) as i32, width: monitor_w as i32, height: monitor_h as i32 }, false),
        (WindowKind::Files, Rect { x: 54, y: (TOP_BAR + 112) as i32, width: files_w as i32, height: files_h as i32 }, true),
    ]
}

/// The first occurrence of `index` in `z` from `from` on.
pub open spec fn position(z: Seq<usize>, index: usize, from: int) -> Option<int>
    decreases z.len() - from,
{
    if from < 0 || from >= z.len() {
        None
    } else if z[from] == index {
        Some(from)
    } else {
        position(z, index, from + 1)
    }
}

/// The stacking order with `index` moved to the top (the end).
pub open spec fn to_front(z: Seq<usize>, index: usize) -> Seq<usize> {
    match position(z, index, 0) {
        None => z,
        Some(p) => z.remove(p).push(index),
    }
}

/// `z` orders the three windows: each once.
pub open spec fn is_order(z: Seq<usize>) -> bool {
    &&& z.len() == 3
    &&& forall|i: int| 0 <= i < 3 ==> #[trigger] z[i] < 3
    &&& forall|i: int, j: int| 0 <= i < j < 3 ==> z[i] != z[j]
}

/// The state of the desktop.
pub struct DesktopView {
    pub windows: Seq<Window>,
    pub z: Seq<usize>,
    pub cursor: Point,
    pub buttons: u8,
    pub dragging: Option<(usize, i32, i32)>,
    pub start_menu: bool,
    pub width: i32,
    pub height: i32,
    /// The root directory listing the Files window shows.
    pub files: Seq<DirEntry>,
    /// The second of the clock last shown.
    pub last_second: u64,
}

/// The window rectangles stay on a range the arithmetic handles.
pub open spec fn rect_ok(r: Rect) -> bool {
    &&& -1000 <= r.x <= MAX_WIDTH
    &&& -1000 <= r.y <= MAX_HEIGHT
    &&& 300 <= r.width <= 700
    &&& 200 <= r.height <= 500
}

pub open spec fn view_ok(d: DesktopView) -> bool {
    &&& d.windows.len() == 3
    &&& is_order(d.z)
    &&& 0 <= d.width <= MAX_WIDTH
    &&& 0 <= d.height <= MAX_HEIGHT
    &&& -16 <= d.cursor.x <= MAX_WIDTH
    &&& -16 <= d.cursor.y <= MAX_HEIGHT
    &&& forall|i: int| 0 <= i < 3 ==> rect_ok(#[trigger] d.windows[i].rect)
    &&& d.dragging matches Some((i, ox, oy)) ==> i < 3 && -MAX_WIDTH - 2000 <= ox <= MAX_WIDTH + 2000 && -MAX_HEIGHT
        - 2000 <= oy <= MAX_HEIGHT + 2000
}

pub open spec fn start_button(h: int) -> Rect {
    Rect { x: 8, y: (h - TASKBAR_HEIGHT + 7) as i32, width: 86, height: 30 }
}

pub open spec fn console_button(h: int) -> Rect {
    Rect { x: 102, y: (h - TASKBAR_HEIGHT + 7) as i32, width: 92, height: 30 }
}

/// The taskbar button of stacking slot `slot`.
pub open spec fn task_button(w: int, h: int, slot: int) -> Rect {
    let bw = clamp(tdiv(w - 212, 3), 100, 190);
    Rect { x: (202 + slot * (bw + 5)) as i32, y: (h - TASKBAR_HEIGHT + 7) as i32, width: bw as i32, height: 30 }
}

pub open spec fn start_menu_rect(h: int) -> Rect {
    Rect { x: 8, y: (h - TASKBAR_HEIGHT - 226) as i32, width: 250, height: 218 }
}

/// Entry `index` of the start menu.
pub open spec fn start_item(h: int, index: int) -> Rect {
    Rect { x: 18, y: (h - TASKBAR_HEIGHT - 226 + 74 + index * 34) as i32, width: 230, height: 30 }
}

pub open spec fn title_rect(r: Rect) -> Rect {
    Rect { x: (r.x + 2) as i32, y: (r.y + 2) as i32, width: (r.width - 4) as i32, height: TITLE_HEIGHT }
}

pub open spec fn close_rect(r: Rect) -> Rect {
    Rect { x: (r.x + r.width - 31) as i32, y: (r.y + 5) as i32, width: 24, height: 22 }
}

pub open spec fn minimize_rect(r: Rect) -> Rect {
    Rect { x: (r.x + r.width - 59) as i32, y: (r.y + 5) as i32, width: 24, height: 22 }
}

/// The first start menu entry from `k` on under `p`.
pub open spec fn item_hit(h: int, p: Point, k: int) -> Option<int>
    decreases 4 - k,
{
    if k < 0 || k >= 4 {
        None
    } else if hit(start_item(h, k), p) {
        Some(k)
    } else {
        item_hit(h, p, k + 1)
    }
}

/// The first taskbar slot from `k` on under `p`.
pub open spec fn slot_hit(w: int, h: int, p: Point, k: int) -> Option<int>
    decreases 3 - k,
{
    if k < 0 || k >= 3 {
        None
    } else if hit(task_button(w, h, k), p) {
        Some(k)
    } else {
        slot_hit(w, h, p, k + 1)
    }
}

/// The topmost shown window under `p`, looking from stacking slot `k` down.
pub open spec fn window_hit(d: DesktopView, p: Point, k: int) -> Option<usize>
    decreases k + 1,
{
    if k < 0 || k >= 3 {
        None
    } else {
        let w = d.windows[d.z[k] as int];
        if w.visible && !w.minimized && hit(w.rect, p) {
            Some(d.z[k])
        } else {
            window_hit(d, p, k - 1)
        }
    }
}

/// Window `index` shown, restored and brought to the top.
pub open spec fn shown(d: DesktopView, index: usize) -> DesktopView {
    if index >= 3 {
        d
    } else {
        DesktopView {
            windows: d.windows.update(index as int, Window { visible: true, minimized: false, ..d.windows[index as int] }),
            z: to_front(d.z, index),
            ..d
        }
    }
}

/// The desktop with its start menu closed when the cursor is on neither the
/// menu nor the start button.
pub open spec fn dismiss_menu(d: DesktopView) -> DesktopView {
    let h = d.height as int;
    if d.start_menu && !hit(start_menu_rect(h), d.cursor) && !hit(start_button(h), d.cursor) {
        DesktopView { start_menu: false, ..d }
    } else {
        d
    }
}

/// A press of the left button at the cursor: the start menu's entries and
/// closing the menu by pressing elsewhere, the start and console buttons,
/// the taskbar, then the window under the cursor, brought to the top (its
/// close and minimize buttons act, its title bar starts a drag).
pub open spec fn press(d: DesktopView) -> (DesktopView, Option<DesktopExit>) {
    let p = d.cursor;
    let h = d.height as int;
    let menu = if d.start_menu { item_hit(h, p, 0) } else { None };
    if menu is Some {
        let i = menu->Some_0;
        let closed = DesktopView { start_menu: false, ..d };
        if i == 3 {
            (closed, Some(DesktopExit::Console))
        } else {
            (shown(closed, i as usize), None)
        }
    } else {
        let d1 = dismiss_menu(d);
        if hit(start_button(h), p) {
            (DesktopView { start_menu: !d1.start_menu, ..d1 }, None)
        } else if hit(console_button(h), p) {
            (d1, Some(DesktopExit::Console))
        } else if slot_hit(d1.width as int, h, p, 0) is Some {
            (shown(d1, d1.z[slot_hit(d1.width as int, h, p, 0)->Some_0]), None)
        } else {
            match window_hit(d1, p, 2) {
                None => (d1, None),
                Some(i) => {
                    let d2 = DesktopView { z: to_front(d1.z, i), ..d1 };
                    let w = d1.windows[i as int];
                    let r = w.rect;
                    if hit(close_rect(r), p) {
                        (
                            DesktopView {
                                windows: d2.windows.update(i as int, Window { visible: false, ..w }),
                                dragging: None,
                                ..d2
                            },
                            None,
                        )
                    } else if hit(minimize_rect(r), p) {
                        (
                            DesktopView {
                                windows: d2.windows.update(i as int, Window { minimized: true, ..w }),
                                dragging: None,
                                ..d2
                            },
                            None,
                        )
                    } else if hit(title_rect(r), p) {
                        (DesktopView { dragging: Some((i, (p.x - r.x) as i32, (p.y - r.y) as i32)), ..d2 }, None)
                    } else {
                        (d2, None)
                    }
                },
            }
        }
    }
}

/// The desktop after a key.
pub open spec fn key_spec(d: DesktopView, key: Key) -> (DesktopView, KeyOutcome) {
    match key {
        Key::F12 => (d, KeyOutcome::Exit(DesktopExit::Console)),
        Key::Escape => (DesktopView { start_menu: false, ..d }, KeyOutcome::Changed),
        Key::ArrowLeft => (
            DesktopView { cursor: Point { x: if d.cursor.x - 8 >= 0 { (d.cursor.x - 8) as i32 } else { 0 }, ..d.cursor }, ..d },
            KeyOutcome::Changed,
        ),
        Key::ArrowRight => (
            DesktopView {
                cursor: Point { x: if d.cursor.x + 8 <= d.width - 1 { (d.cursor.x + 8) as i32 } else { (d.width - 1) as i32 }, ..d.cursor },
                ..d
            },
            KeyOutcome::Changed,
        ),
        Key::ArrowUp => (
            DesktopView { cursor: Point { y: if d.cursor.y - 8 >= 0 { (d.cursor.y - 8) as i32 } else { 0 }, ..d.cursor }, ..d },
            KeyOutcome::Changed,
        ),
        Key::ArrowDown => (
            DesktopView {
                cursor: Point { y: if d.cursor.y + 8 <= d.height - 1 { (d.cursor.y + 8) as i32 } else { (d.height - 1) as i32 }, ..d.cursor },
                ..d
            },
            KeyOutcome::Changed,
        ),
        Key::Char(c) => if c == 0x31 {
            (shown(d, 0), KeyOutcome::Changed)
        } else if c == 0x32 {
            (shown(d, 1), KeyOutcome::Changed)
        } else if c == 0x33 {
            (shown(d, 2), KeyOutcome::Changed)
        } else {
            (d, KeyOutcome::Unchanged)
        },
        _ => (d, KeyOutcome::Unchanged),
    }
}

/// The desktop after mouse movement and buttons `event`: the cursor moves
/// within the screen, a dragged window follows it while the left button is
/// held, a press acts as `press` says and a release ends a drag.
pub open spec fn mouse_spec(d: DesktopView, event: MouseEvent) -> (DesktopView, Option<DesktopExit>) {
    let cursor = Point {
        x: clamp(d.cursor.x + event.dx, 0, d.width - 1) as i32,
        y: clamp(d.cursor.y + event.dy, 0, d.height - 1) as i32,
    };
    let left_before = d.buttons & 1 != 0;
    let left_now = event.buttons & 1 != 0;
    let moved = DesktopView { cursor, buttons: event.buttons, ..d };
    let dragged = match moved.dragging {
        Some((i, ox, oy)) => if left_now {
            let r = moved.windows[i as int].rect;
            let r2 = Rect {
                x: clamp(cursor.x - ox, -r.width + 80, d.width - 80) as i32,
                y: clamp(cursor.y - oy, TOP_BAR as int, d.height - TASKBAR_HEIGHT - TITLE_HEIGHT) as i32,
                ..r
            };
            DesktopView { windows: moved.windows.update(i as int, Window { rect: r2, ..moved.windows[i as int] }), ..moved }
        } else {
            moved
        },
        None => moved,
    };
    if left_now && !left_before {
        press(dragged)
    } else if !left_now && left_before {
        (DesktopView { dragging: None, ..dragged }, None)
    } else {
        (dragged, None)
    }
}

/// A mouse event the desktop can take: a screen at least one pixel each
/// way, and room to drag a window while the left button is held.
pub open spec fn mouse_ok(d: DesktopView, event: MouseEvent) -> bool {
    &&& d.width >= 1
    &&& d.height >= 1
    &&& (event.buttons & 1 != 0 && d.dragging is Some) ==> {
        let r = d.windows[d.dragging->Some_0.0 as int].rect;
        &&& -r.width + 80 <= d.width - 80
        &&& TOP_BAR <= d.height - TASKBAR_HEIGHT - TITLE_HEIGHT
    }
}

pub struct Desktop {
    windows: [Window; 3],
    z_order: [usize; 3],
    cursor: Point,
    buttons: u8,
    dragging: Option<(usize, i32, i32)>,
    start_menu: bool,
    files: Vec<DirEntry>,
    width: i32,
    height: i32,
    last_second: u64,
}

impl Desktop {
    pub closed spec fn view(&self) -> DesktopView {
        DesktopView {
            windows: self.windows@,
            z: self.z_order@,
            cursor: self.cursor,
            buttons: self.buttons,
            dragging: self.dragging,
            start_menu: self.start_menu,
            width: self.width,
            height: self.height,
            files: self.files@,
            last_second: self.last_second,
        }
    }

    /// The root directory listing the Files window shows.
    pub closed spec fn files_view(&self) -> Seq<DirEntry> {
        self.files@
    }

    pub closed spec fn wf(&self) -> bool {
        view_ok(self.view())
    }

    /// The second of the clock last shown.
    pub closed spec fn second(&self) -> u64 {
        self.last_second
    }

    /// The desktop of a `width` by `height` screen, listing `files`, at
    /// second `second` of the clock.
    pub fn new(width: i32, height: i32, files: Vec<DirEntry>, second: u64) -> (r: Self)
        requires
            0 <= width <= MAX_WIDTH,
            0 <= height <= MAX_HEIGHT,
        ensures
            r.wf(),
            r.second() == second,
            ({
                let v = r.view();
                let l = layout(width as int, height as int);
                &&& forall|i: int|
                    0 <= i < 3 ==> #[trigger] v.windows[i].kind == l[i].0 && v.windows[i].rect == l[i].1
                        && v.windows[i].visible && v.windows[i].minimized == l[i].2
                &&& v.z == seq![2usize, 0, 1]
                &&& v.cursor == (Point { x: (width / 2) as i32, y: (height / 2) as i32 })
                &&& v.buttons == 0
                &&& v.dragging is None
                &&& !v.start_menu
                &&& v.width == width && v.height == height
                &&& v.windows[0].title@ == "Welcome to Generic"@
                &&& v.windows[1].title@ == "Kernel Monitor"@
                &&& v.windows[2].title@ == "Files"@
            }),
            r.files_view() == files@,
    {
        let usable_raw = height - TOP_BAR - TASKBAR_HEIGHT;
        let usable = if usable_raw >= 240 {
            usable_raw
        } else {
            240
        };
        let welcome_width = clamp_i32(width * 55 / 100, 420, 680);
        let welcome_height = clamp_i32(usable * 58 / 100, 280, 430);
        let monitor_width = clamp_i32(width * 42 / 100, 360, 540);
        let monitor_height = clamp_i32(usable * 50 / 100, 260, 390);
        let files_width = clamp_i32(width * 46 / 100, 390, 620);
        let files_height = clamp_i32(usable * 54 / 100, 280, 420);
        let monitor_raw = width - monitor_width - 44;
        let monitor_x = if monitor_raw >= 40 {
            monitor_raw
        } else {
            40
        };
        let welcome_x = (width - welcome_width) / 2;
        proof {
            let a = width - welcome_width;
            assert(welcome_x == tdiv(a as int, 2));
        }
        let windows = [
            Window {
                kind: WindowKind::Welcome,
                title: "Welcome to Generic",
                rect: Rect::new(welcome_x, TOP_BAR + 48, welcome_width, welcome_height),
                visible: true,
                minimized: false,
            },
            Window {
                kind: WindowKind::Kernel,
                title: "Kernel Monitor",
                rect: Rect::new(monitor_x, TOP_BAR + 86, monitor_width, monitor_height),
                visible: true,
                minimized: false,
            },
            Window {
                kind: WindowKind::Files,
                title: "Files",
                rect: Rect::new(54, TOP_BAR + 112, files_width, files_height),
                visible: true,
                minimized: true,
            },
        ];
        let d = Desktop {
            windows,
            z_order: [2, 0, 1],
            cursor: Point { x: width / 2, y: height / 2 },
            buttons: 0,
            dragging: None,
            start_menu: false,
            files,
            width,
            height,
            last_second: second,
        };
        proof {
            assert(d.z_order@ =~= seq![2usize, 0, 1]);
        }
        d
    }
}


/// `p` is where `index` first occurs in `z`, looking from `from` on.
proof fn lemma_position_found(z: Seq<usize>, index: usize, from: int, p: int)
    requires
        0 <= from <= p < z.len(),
        z[p] == index,
        forall|k: int| from <= k < p ==> z[k] != index,
    ensures
        position(z, index, from) == Some(p),
    decreases p - from,
{
    if from < p {
        lemma_position_found(z, index, from + 1, p);
    }
}

proof fn lemma_position_absent(z: Seq<usize>, index: usize, from: int)
    requires
        0 <= from <= z.len(),
        forall|k: int| from <= k < z.len() ==> z[k] != index,
    ensures
        position(z, index, from) is None,
    decreases z.len() - from,
{
    if from < z.len() {
        lemma_position_absent(z, index, from + 1);
    }
}

/// Bringing a window to the top keeps the stacking order an order of the
/// three windows, puts that window on top, keeps the other two in the order
/// they had, and doing it again changes nothing.
pub proof fn lemma_to_front(z: Seq<usize>, index: usize)
    requires
        is_order(z),
        index < 3,
    ensures
        is_order(to_front(z, index)),
        to_front(z, index)[2] == index,
        forall|a: int, b: int|
            0 <= a < b < 3 && z[a] != index && z[b] != index ==> exists|c: int, e: int|
                0 <= c < e < 2 && #[trigger] to_front(z, index)[c] == z[a] && #[trigger] to_front(z, index)[e] == z[b],
        to_front(to_front(z, index), index) == to_front(z, index),
{
    assert(z[0] != z[1] && z[0] != z[2] && z[1] != z[2]);
    let t = to_front(z, index);
    if z[0] == index {
        lemma_position_found(z, index, 0, 0);
        assert(t =~= seq![z[1], z[2], z[0]]);
        assert forall|a: int, b: int|
            0 <= a < b < 3 && z[a] != index && z[b] != index implies exists|c: int, e: int|
                0 <= c < e < 2 && #[trigger] t[c] == z[a] && #[trigger] t[e] == z[b] by {
            assert(t[a - 1] == z[a] && t[b - 1] == z[b]);
        }
    } else if z[1] == index {
        lemma_position_found(z, index, 0, 1);
        assert(t =~= seq![z[0], z[2], z[1]]);
        assert forall|a: int, b: int|
            0 <= a < b < 3 && z[a] != index && z[b] != index implies exists|c: int, e: int|
                0 <= c < e < 2 && #[trigger] t[c] == z[a] && #[trigger] t[e] == z[b] by {
            assert(t[0] == z[a] && t[1] == z[b]);
        }
    } else {
        assert(z[2] == index);
        lemma_position_found(z, index, 0, 2);
        assert(t =~= seq![z[0], z[1], z[2]]);
        assert forall|a: int, b: int|
            0 <= a < b < 3 && z[a] != index && z[b] != index implies exists|c: int, e: int|
                0 <= c < e < 2 && #[trigger] t[c] == z[a] && #[trigger] t[e] == z[b] by {
            assert(t[0] == z[a] && t[1] == z[b]);
        }
    }
    lemma_position_found(t, index, 0, 2);
    assert(t.remove(2).push(index) =~= t);
}

impl Desktop {
    fn start_button(&self) -> (r: Rect)
        requires
            view_ok(self.view()),
        ensures
            r == start_button(self.height as int),
    {
        Rect::new(8, self.height - TASKBAR_HEIGHT + 7, 86, 30)
    }

    fn console_button(&self) -> (r: Rect)
        requires
            view_ok(self.view()),
        ensures
            r == console_button(self.height as int),
    {
        Rect::new(102, self.height - TASKBAR_HEIGHT + 7, 92, 30)
    }

    fn task_button(&self, slot: usize) -> (r: Rect)
        requires
            view_ok(self.view()),
            slot < 3,
        ensures
            r == task_button(self.width as int, self.height as int, slot as int),
            202 <= r.x <= 600,
    {
        let width = clamp_i32((self.width - 212) / 3, 100, 190);
        let slot32 = slot as i32;
        assert(0 <= slot32 * (width + 5) <= 2 * 195) by (nonlinear_arith)
            requires
                0 <= slot32 < 3,
                100 <= width <= 190,
        ;
        Rect::new(202 + slot32 * (width + 5), self.height - TASKBAR_HEIGHT + 7, width, 30)
    }

    fn start_menu_rect(&self) -> (r: Rect)
        requires
            view_ok(self.view()),
        ensures
            r == start_menu_rect(self.height as int),
    {
        Rect::new(8, self.height - TASKBAR_HEIGHT - 226, 250, 218)
    }

    fn start_item(&self, index: usize) -> (r: Rect)
        requires
            view_ok(self.view()),
            index < 4,
        ensures
            r == start_item(self.height as int, index as int),
    {
        let menu = self.start_menu_rect();
        let index32 = index as i32;
        Rect::new(menu.x + 10, menu.y + 74 + index32 * 34, menu.width - 20, 30)
    }

    fn title_rect(&self, window: Rect) -> (r: Rect)
        requires
            rect_ok(window),
        ensures
            r == title_rect(window),
    {
        Rect::new(window.x + 2, window.y + 2, window.width - 4, TITLE_HEIGHT)
    }

    fn close_button(&self, window: Rect) -> (r: Rect)
        requires
            rect_ok(window),
        ensures
            r == close_rect(window),
    {
        Rect::new(window.x + window.width - 31, window.y + 5, 24, 22)
    }

    fn minimize_button(&self, window: Rect) -> (r: Rect)
        requires
            rect_ok(window),
        ensures
            r == minimize_rect(window),
    {
        Rect::new(window.x + window.width - 59, window.y + 5, 24, 22)
    }

    /// Moves window `index` to the top of the stacking order.
    fn bring_front(&mut self, index: usize)
        requires
            is_order(old(self).z_order@),
        ensures
            final(self).view() == (DesktopView { z: to_front(old(self).view().z, index), ..old(self).view() }),
            final(self).files == old(self).files,
            final(self).last_second == old(self).last_second,
    {
        let ghost z0 = self.z_order@;
        let mut position: usize = 0;
        while position < 3 && self.z_order[position] != index
            invariant
                position <= 3,
                self.z_order@ == z0,
                forall|k: int| 0 <= k < position ==> z0[k] != index,
            decreases 3 - position,
        {
            position = position + 1;
        }
        if position == 3 {
            proof {
                lemma_position_absent(z0, index, 0);
            }
            return;
        }
        proof {
            lemma_position_found(z0, index, 0, position as int);
        }
        let ghost before = *self;
        let mut slot = position;
        while slot < 2
            invariant
                position <= slot <= 2,
                self.z_order@.len() == 3,
                forall|k: int| 0 <= k < position ==> self.z_order@[k] == z0[k],
                forall|k: int| position <= k < slot ==> self.z_order@[k] == z0[k + 1],
                forall|k: int| slot <= k < 3 ==> self.z_order@[k] == z0[k],
                self.windows == before.windows,
                self.cursor == before.cursor,
                self.buttons == before.buttons,
                self.dragging == before.dragging,
                self.start_menu == before.start_menu,
                self.files == before.files,
                self.width == before.width,
                self.height == before.height,
                self.last_second == before.last_second,
            decreases 2 - slot,
        {
            self.z_order[slot] = self.z_order[slot + 1];
            slot = slot + 1;
        }
        self.z_order[2] = index;
        proof {
            assert(self.z_order@ =~= z0.remove(position as int).push(index));
        }
    }

    /// Shows and restores window `index` and brings it to the top; an index
    /// past the three windows changes nothing.
    pub fn show_window(&mut self, index: usize)
        requires
            old(self).wf(),
        ensures
            final(self).wf(),
            final(self).view() == shown(old(self).view(), index),
            final(self).second() == old(self).second(),
    {
        if index >= 3 {
            return;
        }
        let mut window = self.windows[index];
        window.visible = true;
        window.minimized = false;
        self.windows[index] = window;
        self.bring_front(index);
        proof {
            lemma_to_front(old(self).z_order@, index);
            assert(self.view().windows =~= shown(old(self).view(), index).windows);
        }
    }

    /// The desktop's answer to `key`: F12 leaves for the console, Escape
    /// closes the start menu, the arrows move the cursor by eight pixels
    /// within the screen, and 1, 2 and 3 restore a window.
    pub fn handle_key(&mut self, key: Key) -> (r: KeyOutcome)
        requires
            old(self).wf(),
        ensures
            final(self).wf(),
            (final(self).view(), r) == key_spec(old(self).view(), key),
            final(self).second() == old(self).second(),
    {
        match key {
            Key::F12 => KeyOutcome::Exit(DesktopExit::Console),
            Key::Escape => {
                self.start_menu = false;
                KeyOutcome::Changed
            },
            Key::ArrowLeft => {
                let x = if self.cursor.x - 8 >= 0 {
                    self.cursor.x - 8
                } else {
                    0
                };
                self.cursor = Point { x, y: self.cursor.y };
                KeyOutcome::Changed
            },
            Key::ArrowRight => {
                let x = if self.cursor.x + 8 <= self.width - 1 {
                    self.cursor.x + 8
                } else {
                    self.width - 1
                };
                self.cursor = Point { x, y: self.cursor.y };
                KeyOutcome::Changed
            },
            Key::ArrowUp => {
                let y = if self.cursor.y - 8 >= 0 {
                    self.cursor.y - 8
                } else {
                    0
                };
                self.cursor = Point { x: self.cursor.x, y };
                KeyOutcome::Changed
            },
            Key::ArrowDown => {
                let y = if self.cursor.y + 8 <= self.height - 1 {
                    self.cursor.y + 8
                } else {
                    self.height - 1
                };
                self.cursor = Point { x: self.cursor.x, y };
                KeyOutcome::Changed
            },
            Key::Char(c) => {
                if c == 0x31u8 {
                    self.show_window(0);
                    KeyOutcome::Changed
                } else if c == 0x32u8 {
                    self.show_window(1);
                    KeyOutcome::Changed
                } else if c == 0x33u8 {
                    self.show_window(2);
                    KeyOutcome::Changed
                } else {
                    KeyOutcome::Unchanged
                }
            },
            _ => KeyOutcome::Unchanged,
        }
    }

    /// Records second `second` of the clock; true when it differs from the
    /// second last recorded, so the clock on screen is stale.
    pub fn tick(&mut self, second: u64) -> (changed: bool)
        ensures
            changed == (second != old(self).second()),
            final(self).second() == second,
            final(self).view() == (DesktopView { last_second: second, ..old(self).view() }),
            old(self).wf() ==> final(self).wf(),
    {
        let changed = second != self.last_second;
        self.last_second = second;
        changed
    }
}


proof fn lemma_item_hit_skip(h: int, p: Point, k: int)
    requires
        0 <= k < 4,
        !hit(start_item(h, k), p),
    ensures
        item_hit(h, p, k) == item_hit(h, p, k + 1),
{
}

impl Desktop {
    /// A press of the left button at the cursor, as `press` says.
    fn mouse_down(&mut self) -> (r: Option<DesktopExit>)
        requires
            old(self).wf(),
        ensures
            final(self).wf(),
            (final(self).view(), r) == press(old(self).view()),
            final(self).last_second == old(self).last_second,
    {
        let ghost d = self.view();
        let point = self.cursor;
        let ghost h = self.height as int;
        if self.start_menu {
            let mut index: usize = 0;
            while index < 4
                invariant
                    index <= 4,
                    self.view() == d,
                    self.wf(),
                    self.last_second == old(self).last_second,
                    point == d.cursor,
                    h == d.height,
                    d == old(self).view(),
                    d.start_menu,
                    item_hit(h, point, 0) == item_hit(h, point, index as int),
                decreases 4 - index,
            {
                if self.start_item(index).contains(point) {
                    self.start_menu = false;
                    if index == 3 {
                        return Some(DesktopExit::Console);
                    }
                    self.show_window(index);
                    return None;
                }
                proof {
                    lemma_item_hit_skip(h, point, index as int);
                }
                index = index + 1;
            }
            if !self.start_menu_rect().contains(point) && !self.start_button().contains(point) {
                self.start_menu = false;
            }
        }
        let ghost d1 = self.view();
        assert(d1 == dismiss_menu(d));
        assert(!(d.start_menu && item_hit(h, point, 0) is Some));
        if self.start_button().contains(point) {
            self.start_menu = !self.start_menu;
            return None;
        }
        if self.console_button().contains(point) {
            return Some(DesktopExit::Console);
        }
        let mut slot: usize = 0;
        while slot < 3
            invariant
                slot <= 3,
                self.view() == d1,
                self.wf(),
                self.last_second == old(self).last_second,
                point == d1.cursor,
                d == old(self).view(),
                d1 == dismiss_menu(d),
                !(d.start_menu && item_hit(d.height as int, point, 0) is Some),
                !hit(start_button(d.height as int), point),
                !hit(console_button(d.height as int), point),
                slot_hit(d1.width as int, d1.height as int, point, 0) == slot_hit(d1.width as int, d1.height as int, point, slot as int),
            decreases 3 - slot,
        {
            if self.task_button(slot).contains(point) {
                let index = self.z_order[slot];
                self.show_window(index);
                return None;
            }
            slot = slot + 1;
        }
        let mut k: usize = 3;
        while k > 0
            invariant
                k <= 3,
                self.view() == d1,
                self.wf(),
                self.last_second == old(self).last_second,
                point == d1.cursor,
                d == old(self).view(),
                d1 == dismiss_menu(d),
                !(d.start_menu && item_hit(d.height as int, point, 0) is Some),
                !hit(start_button(d.height as int), point),
                !hit(console_button(d.height as int), point),
                slot_hit(d1.width as int, d1.height as int, point, 0) is None,
                window_hit(d1, point, 2) == window_hit(d1, point, k as int - 1),
            decreases k,
        {
            k = k - 1;
            let index = self.z_order[k];
            let window = self.windows[index];
            if window.visible && !window.minimized && window.rect.contains(point) {
                self.bring_front(index);
                proof {
                    lemma_to_front(d1.z, index);
                }
                let rect = self.windows[index].rect;
                if self.close_button(rect).contains(point) {
                    let mut closed = window;
                    closed.visible = false;
                    self.windows[index] = closed;
                    self.dragging = None;
                    proof {
                        assert(self.view().windows =~= d1.windows.update(index as int, Window { visible: false, ..window }));
                    }
                    return None;
                }
                if self.minimize_button(rect).contains(point) {
                    let mut folded = window;
                    folded.minimized = true;
                    self.windows[index] = folded;
                    self.dragging = None;
                    proof {
                        assert(self.view().windows =~= d1.windows.update(index as int, Window { minimized: true, ..window }));
                    }
                    return None;
                }
                if self.title_rect(rect).contains(point) {
                    self.dragging = Some((index, point.x - rect.x, point.y - rect.y));
                }
                return None;
            }
        }
        None
    }

    /// Whether the desktop can take `event` (see `mouse_ok`).
    pub fn accepts(&self, event: MouseEvent) -> (r: bool)
        requires
            self.wf(),
        ensures
            r == mouse_ok(self.view(), event),
    {
        if self.width < 1 || self.height < 1 {
            return false;
        }
        if event.buttons & 1 != 0 {
            if let Some((index, _, _)) = self.dragging {
                let rect = self.windows[index].rect;
                return -rect.width + 80 <= self.width - 80 && TOP_BAR <= self.height - TASKBAR_HEIGHT
                    - TITLE_HEIGHT;
            }
        }
        true
    }

    /// The desktop's answer to mouse movement and buttons `event`, as
    /// `mouse_spec` says; `Some` when it hands the screen back.
    pub fn handle_mouse(&mut self, event: MouseEvent) -> (r: Option<DesktopExit>)
        requires
            old(self).wf(),
            mouse_ok(old(self).view(), event),
        ensures
            final(self).wf(),
            (final(self).view(), r) == mouse_spec(old(self).view(), event),
            final(self).second() == old(self).second(),
            0 <= final(self).view().cursor.x < final(self).view().width,
            0 <= final(self).view().cursor.y < final(self).view().height,
    {
        let x = clamp_i32(self.cursor.x + event.dx as i32, 0, self.width - 1);
        let y = clamp_i32(self.cursor.y + event.dy as i32, 0, self.height - 1);
        self.cursor = Point { x, y };
        let left_before = self.buttons & 1 != 0;
        let left_now = event.buttons & 1 != 0;
        self.buttons = event.buttons;
        if left_now {
            if let Some((window_index, offset_x, offset_y)) = self.dragging {
                let mut rect = self.windows[window_index].rect;
                rect.x = clamp_i32(self.cursor.x - offset_x, -rect.width + 80, self.width - 80);
                rect.y = clamp_i32(
                    self.cursor.y - offset_y,
                    TOP_BAR,
                    self.height - TASKBAR_HEIGHT - TITLE_HEIGHT,
                );
                let mut window = self.windows[window_index];
                window.rect = rect;
                self.windows[window_index] = window;
            }
        }
        proof {
            let d = old(self).view();
            let e = mouse_spec(d, event);
            assert(self.view().windows =~= (match (DesktopView { cursor: Point { x, y }, buttons: event.buttons, ..d }).dragging {
                Some((i, ox, oy)) => if left_now {
                    let r = d.windows[i as int].rect;
                    d.windows.update(i as int, Window { rect: Rect {
                        x: clamp(x - ox, -r.width + 80, d.width - 80) as i32,
                        y: clamp(y - oy, TOP_BAR as int, d.height - TASKBAR_HEIGHT - TITLE_HEIGHT) as i32,
                        ..r
                    }, ..d.windows[i as int] })
                } else {
                    d.windows
                },
                None => d.windows,
            }));
        }
        if left_now && !left_before {
            return self.mouse_down();
        }
        if !left_now && left_before {
            self.dragging = None;
        }
        None
    }
}

/// The character of decimal digit `d`.
pub open spec fn digit_char(d: int) -> char {
    (48 + d) as char
}

/// `value` written in decimal, without leading zeros.
pub open spec fn decimal_text(value: nat) -> Seq<char>
    decreases value,
{
    if value < 10 {
        seq![digit_char(value as int)]
    } else {
        decimal_text(value / 10).push(digit_char((value % 10) as int))
    }
}

/// `value` written in decimal.
pub fn decimal(value: u64) -> (r: String)
    ensures
        r@ == decimal_text(value as nat),
    decreases value,
{
    let digits = "0123456789";
    proof {
        reveal_strlit("0123456789");
    }
    let d = (value % 10) as usize;
    let digit = digits.substring_char(d, d + 1);
    proof {
        assert(digits@[d as int] == digit_char(d as int));
        assert(digit@ =~= seq![digit_char((value % 10) as int)]);
    }
    if value < 10 {
        digit.to_owned()
    } else {
        let mut text = decimal(value / 10);
        text.append(digit);
        text
    }
}

/// Draws `value` in decimal at (`x`, `y`).
fn draw_number(display: &mut Display, x: i32, y: i32, value: u64, color: Color)
    ensures
        final(display).geometry() == old(display).geometry(),
        final(display).pixels().len() == old(display).pixels().len(),
        final(display).pixels() == text_drawn(
            old(display).pixels(),
            old(display).geometry(),
            decimal_text(value as nat),
            decimal_text(value as nat).len() as int,
            x,
            y,
            color,
            TextStyle::Regular16,
        ).0,
{
    let text = decimal(value);
    display.text(x, y, text.as_str(), color, TextStyle::Regular16);
}

fn desktop_bg() -> (c: Color)
    ensures
        c.value() == packed(17, 27, 47),
{
    Color::rgb(17, 27, 47)
}

fn desktop_accent() -> (c: Color)
    ensures
        c.value() == packed(69, 161, 255),
{
    Color::rgb(69, 161, 255)
}

fn panel() -> (c: Color)
    ensures
        c.value() == packed(24, 35, 56),
{
    Color::rgb(24, 35, 56)
}

fn panel_light() -> (c: Color)
    ensures
        c.value() == packed(38, 53, 79),
{
    Color::rgb(38, 53, 79)
}

fn window_bg() -> (c: Color)
    ensures
        c.value() == packed(29, 42, 64),
{
    Color::rgb(29, 42, 64)
}

fn window_border() -> (c: Color)
    ensures
        c.value() == packed(70, 91, 121),
{
    Color::rgb(70, 91, 121)
}

fn text_color() -> (c: Color)
    ensures
        c.value() == packed(232, 238, 247),
{
    Color::rgb(232, 238, 247)
}

fn text_muted() -> (c: Color)
    ensures
        c.value() == packed(164, 178, 199),
{
    Color::rgb(164, 178, 199)
}

fn close_color() -> (c: Color)
    ensures
        c.value() == packed(196, 76, 76),
{
    Color::rgb(196, 76, 76)
}

/// The color of channels `r`, `g`, `b`.
pub open spec fn shade(r: u8, g: u8, b: u8) -> Color {
    Color::of_value(packed(r, g, b))
}

/// The radius of wallpaper ring `k`, outermost first.
pub open spec fn ring_radius(k: int) -> i32 {
    if k == 0 {
        210
    } else if k == 1 {
        160
    } else {
        110
    }
}

/// The color of wallpaper ring `k`.
pub open spec fn ring_shade(k: int) -> Color {
    if k == 0 {
        shade(21, 38, 66)
    } else if k == 1 {
        shade(24, 48, 80)
    } else {
        shade(28, 58, 94)
    }
}

/// `p` with the first `k` wallpaper rings drawn around (`cx`, `cy`).
pub open spec fn rings(p: Seq<u32>, g: FrameGeometry, cx: i32, cy: i32, k: int) -> Seq<u32>
    decreases k,
{
    if k <= 0 {
        p
    } else {
        let r = ring_radius(k - 1);
        filled(
            rings(p, g, cx, cy, k - 1),
            g,
            Rect { x: (cx - r) as i32, y: (cy - r / 2) as i32, width: (r * 2) as i32, height: r },
            ring_shade(k - 1),
        )
    }
}

/// The wallpaper over `p`: three rings about the middle of the work area
/// and the caption above the taskbar.
pub open spec fn wallpaper_scene(v: DesktopView, p: Seq<u32>, g: FrameGeometry) -> Seq<u32> {
    let cx = tdiv(v.width as int, 2) as i32;
    let cy = tdiv(v.height - TASKBAR_HEIGHT + TOP_BAR, 2) as i32;
    texted(
        rings(p, g, cx, cy, 3),
        g,
        36,
        (v.height - TASKBAR_HEIGHT - 34) as i32,
        "Generic OS  |  kernel desktop prototype"@,
        shade(164, 178, 199),
        TextStyle::Regular16,
    )
}

/// The top bar over `p`, showing `seconds`.
pub open spec fn top_bar_scene(v: DesktopView, p: Seq<u32>, g: FrameGeometry, seconds: u64) -> Seq<u32> {
    let p1 = filled(p, g, Rect { x: 0, y: 0, width: v.width, height: TOP_BAR }, shade(24, 35, 56));
    let p2 = texted(p1, g, 14, 7, "Generic"@, shade(232, 238, 247), TextStyle::Bold16);
    let tx = if v.width - 240 >= 180 {
        (v.width - 240) as i32
    } else {
        180i32
    };
    let p3 = texted(p2, g, tx, 7, "F12: text console"@, shade(164, 178, 199), TextStyle::Regular16);
    let p4 = texted(p3, g, (v.width - 70) as i32, 7, decimal_text(seconds as nat), shade(232, 238, 247), TextStyle::Regular16);
    texted(p4, g, (v.width - 30) as i32, 7, "s"@, shade(164, 178, 199), TextStyle::Regular16)
}

/// The color of the taskbar button of `w`.
pub open spec fn task_shade(w: Window) -> Color {
    if w.visible && !w.minimized {
        shade(48, 69, 100)
    } else {
        shade(38, 53, 79)
    }
}

/// `p` with the taskbar buttons of the first `k` stacking slots drawn.
pub open spec fn task_buttons(v: DesktopView, p: Seq<u32>, g: FrameGeometry, k: int) -> Seq<u32>
    decreases k,
{
    if k <= 0 {
        p
    } else {
        let w = v.windows[v.z[k - 1] as int];
        let rect = task_button(v.width as int, v.height as int, k - 1);
        texted(
            filled(task_buttons(v, p, g, k - 1), g, rect, task_shade(w)),
            g,
            (rect.x + 10) as i32,
            (rect.y + 10) as i32,
            w.title@,
            shade(232, 238, 247),
            TextStyle::Regular16,
        )
    }
}

/// The taskbar over `p`: the strip, the start and console buttons, and one
/// button per stacking slot.
pub open spec fn taskbar_scene(v: DesktopView, p: Seq<u32>, g: FrameGeometry) -> Seq<u32> {
    let y = (v.height - TASKBAR_HEIGHT) as i32;
    let p1 = filled(p, g, Rect { x: 0, y, width: v.width, height: TASKBAR_HEIGHT }, shade(24, 35, 56));
    let p2 = filled(p1, g, start_button(v.height as int), shade(69, 161, 255));
    let p3 = texted(p2, g, 20, (y + 13) as i32, "Generic"@, shade(255, 255, 255), TextStyle::Bold16);
    let p4 = filled(p3, g, console_button(v.height as int), shade(38, 53, 79));
    let p5 = texted(p4, g, 112, (y + 13) as i32, "Console"@, shade(232, 238, 247), TextStyle::Regular16);
    task_buttons(v, p5, g, 3)
}

/// The label of start menu entry `k`.
pub open spec fn menu_label(k: int) -> Seq<char> {
    if k == 0 {
        "Welcome"@
    } else if k == 1 {
        "Kernel Monitor"@
    } else if k == 2 {
        "Files"@
    } else {
        "Text Console"@
    }
}

/// `p` with the first `k` start menu entries drawn.
pub open spec fn menu_items(h: int, p: Seq<u32>, g: FrameGeometry, k: int) -> Seq<u32>
    decreases k,
{
    if k <= 0 {
        p
    } else {
        let item = start_item(h, k - 1);
        let fill = if k - 1 == 3 {
            shade(38, 53, 79)
        } else {
            shade(24, 35, 56)
        };
        texted(
            filled(menu_items(h, p, g, k - 1), g, item, fill),
            g,
            (item.x + 12) as i32,
            (item.y + 9) as i32,
            menu_label(k - 1),
            shade(232, 238, 247),
            TextStyle::Regular16,
        )
    }
}

/// The open start menu over `p`.
pub open spec fn start_menu_scene(v: DesktopView, p: Seq<u32>, g: FrameGeometry) -> Seq<u32> {
    let menu = start_menu_rect(v.height as int);
    let p1 = filled(p, g, menu, shade(29, 42, 64));
    let p2 = stroked(p1, g, menu, shade(70, 91, 121), 2);
    let p3 = texted(p2, g, (menu.x + 16) as i32, (menu.y + 14) as i32, "Generic"@, shade(255, 255, 255), TextStyle::Bold20);
    let p4 = texted(p3, g, (menu.x + 16) as i32, (menu.y + 42) as i32, "Kernel desktop"@, shade(164, 178, 199), TextStyle::Regular16);
    menu_items(v.height as int, p4, g, 4)
}

/// Line `k` of the welcome text.
pub open spec fn welcome_line(k: int) -> Seq<char> {
    if k == 0 {
        "The first Generic graphical desktop is running."@
    } else if k == 1 {
        "Rendering uses a kernel-owned double buffer."@
    } else if k == 2 {
        "Windows can be focused, dragged, minimized and closed."@
    } else if k == 3 {
        "Mouse and keyboard input arrive through IRQ event queues."@
    } else if k == 4 {
        ""@
    } else if k == 5 {
        "Shortcuts:"@
    } else if k == 6 {
        "  F12  switch to the text console"@
    } else {
        "  1/2/3 restore Welcome / Kernel / Files"@
    }
}

/// `p` with the first `k` welcome lines drawn from (`x`, `y0`), 22 pixels
/// apart.
pub open spec fn welcome_lines(p: Seq<u32>, g: FrameGeometry, x: i32, y0: int, k: int) -> Seq<u32>
    decreases k,
{
    if k <= 0 {
        p
    } else {
        texted(
            welcome_lines(p, g, x, y0, k - 1),
            g,
            x,
            (y0 + 22 * (k - 1)) as i32,
            welcome_line(k - 1),
            shade(232, 238, 247),
            TextStyle::Regular16,
        )
    }
}

/// The welcome window's contents over `p`, in `rect`.
pub open spec fn welcome_scene(rect: Rect, p: Seq<u32>, g: FrameGeometry) -> Seq<u32> {
    let x = (rect.x + 24) as i32;
    let y = rect.y + TITLE_HEIGHT + 24;
    let p1 = texted(p, g, x, y as i32, "Generic OS"@, shade(100, 188, 255), TextStyle::Bold20);
    welcome_lines(p1, g, x, y + 34, 8)
}

/// `p` with `label` at (`x`, `y`) and `value` in decimal 160 pixels right.
pub open spec fn figure_row(p: Seq<u32>, g: FrameGeometry, x: i32, y: int, label: Seq<char>, value: u64) -> Seq<u32> {
    let p1 = texted(p, g, x, y as i32, label, shade(164, 178, 199), TextStyle::Regular16);
    texted(p1, g, (x + 160) as i32, y as i32, decimal_text(value as nat), shade(232, 238, 247), TextStyle::Regular16)
}

/// The kernel monitor's contents over `p`, in `rect`.
pub open spec fn monitor_scene(rect: Rect, f: MonitorFigures, p: Seq<u32>, g: FrameGeometry) -> Seq<u32> {
    let x = (rect.x + 20) as i32;
    let y0 = rect.y + TITLE_HEIGHT + 20;
    let y = y0 + 28;
    let p1 = texted(p, g, x, y0 as i32, "Live kernel state"@, shade(232, 238, 247), TextStyle::Bold16);
    let p2 = figure_row(p1, g, x, y, "Memory free:"@, f.memory_free_mib);
    let p3 = texted(p2, g, (x + 202) as i32, y as i32, "MiB"@, shade(164, 178, 199), TextStyle::Regular16);
    let p4 = figure_row(p3, g, x, y + 22, "Heap free:"@, f.heap_free_kib);
    let p5 = texted(p4, g, (x + 202) as i32, (y + 22) as i32, "KiB"@, shade(164, 178, 199), TextStyle::Regular16);
    let p6 = figure_row(p5, g, x, y + 44, "Timer ticks:"@, f.ticks);
    let p7 = figure_row(p6, g, x, y + 66, "Local APIC:"@, f.local_apic_id);
    let p8 = figure_row(p7, g, x, y + 88, "IOAPICs:"@, f.io_apic_count);
    let p9 = figure_row(p8, g, x, y + 110, "Mounts:"@, f.mounts);
    figure_row(p9, g, x, y + 132, "Recontrol ABI:"@, f.recontrol)
}

/// The marker before a file listing entry.
pub open spec fn file_marker(e: DirEntry) -> Seq<char> {
    match e.metadata.kind {
        NodeKind::Directory => "[DIR]"@,
        NodeKind::File => "[FILE]"@,
    }
}

/// `p` with the first `k` entries of `files` listed from (`x`, `y0`).
pub open spec fn file_rows(files: Seq<DirEntry>, p: Seq<u32>, g: FrameGeometry, x: i32, y0: int, k: int) -> Seq<u32>
    decreases k,
{
    if k <= 0 {
        p
    } else {
        let e = files[k - 1];
        let y = (y0 + 22 * (k - 1)) as i32;
        let p1 = texted(file_rows(files, p, g, x, y0, k - 1), g, x, y, file_marker(e), shade(69, 161, 255), TextStyle::Regular16);
        texted(p1, g, (x + 62) as i32, y, e.name@, shade(232, 238, 247), TextStyle::Regular16)
    }
}

/// How many of `n` entries the listing shows from row `k` on: at most 12,
/// and none past the row that ends below `bottom`.
pub open spec fn rows_shown(n: int, y0: int, bottom: int, k: int) -> int
    decreases 12 - k,
{
    if k >= n || k >= 12 {
        k
    } else if y0 + 22 * (k + 1) > bottom {
        k + 1
    } else {
        rows_shown(n, y0, bottom, k + 1)
    }
}

/// The file listing's contents over `p`, in `rect`.
pub open spec fn files_scene(files: Seq<DirEntry>, rect: Rect, p: Seq<u32>, g: FrameGeometry) -> Seq<u32> {
    let x = (rect.x + 20) as i32;
    let y0 = rect.y + TITLE_HEIGHT + 18;
    let p1 = texted(p, g, x, y0 as i32, "Root filesystem /"@, shade(232, 238, 247), TextStyle::Bold16);
    file_rows(files, p1, g, x, y0 + 30, rows_shown(files.len() as int, y0 + 30, rect.y + rect.height - 24, 0))
}

/// Window `w` over `p`: shadow, body, border, title bar with its buttons,
/// and the contents of its kind.
pub open spec fn window_scene(w: Window, f: MonitorFigures, files: Seq<DirEntry>, p: Seq<u32>, g: FrameGeometry) -> Seq<u32> {
    let rect = w.rect;
    let p1 = filled(p, g, Rect { x: (rect.x + 6) as i32, y: (rect.y + 7) as i32, width: rect.width, height: rect.height }, shade(10, 15, 25));
    let p2 = filled(p1, g, rect, shade(29, 42, 64));
    let p3 = stroked(p2, g, rect, shade(70, 91, 121), 2);
    let title = title_rect(rect);
    let p4 = filled(p3, g, title, shade(39, 58, 88));
    let p5 = texted(p4, g, (title.x + 12) as i32, (title.y + 7) as i32, w.title@, shade(232, 238, 247), TextStyle::Bold16);
    let close = close_rect(rect);
    let p6 = filled(p5, g, close, shade(196, 76, 76));
    let p7 = texted(p6, g, (close.x + 8) as i32, (close.y + 5) as i32, "x"@, shade(255, 255, 255), TextStyle::Bold16);
    let mini = minimize_rect(rect);
    let p8 = filled(p7, g, mini, shade(38, 53, 79));
    let p9 = texted(p8, g, (mini.x + 8) as i32, (mini.y + 3) as i32, "-"@, shade(255, 255, 255), TextStyle::Bold16);
    match w.kind {
        WindowKind::Welcome => welcome_scene(rect, p9, g),
        WindowKind::Kernel => monitor_scene(rect, f, p9, g),
        WindowKind::Files => files_scene(files, rect, p9, g),
    }
}

/// The frame of `after` is that of `before`.
pub open spec fn same_frame(before: Display, after: Display) -> bool {
    &&& after.geometry() == before.geometry()
    &&& after.pixels().len() == before.pixels().len()
}

impl Desktop {
    /// Paints the whole desktop: background, wallpaper, top bar, the shown
    /// windows from the bottom of the stacking order up, the taskbar, the
    /// start menu when open, and the cursor over everything.
    pub fn draw(&self, display: &mut Display, figures: &MonitorFigures)
        requires
            self.wf(),
        ensures
            same_frame(*old(display), *final(display)),
            on_screen(self.view().cursor.x as int, self.view().cursor.y as int, final(display).geometry().width as int, final(display).geometry().height as int)
                ==> final(display).pixels()[self.view().cursor.y * final(display).geometry().width + self.view().cursor.x] == packed(0, 0, 0),
    {
        display.clear(desktop_bg());
        self.draw_wallpaper(display);
        self.draw_top_bar(display, figures.seconds);
        let mut slot: usize = 0;
        while slot < 3
            invariant
                self.wf(),
                same_frame(*old(display), *display),
            decreases 3 - slot,
        {
            let index = self.z_order[slot];
            let window = self.windows[index];
            if window.visible && !window.minimized {
                self.draw_window(display, window, figures);
            }
            slot = slot + 1;
        }
        self.draw_taskbar(display);
        if self.start_menu {
            self.draw_start_menu(display);
        }
        self.draw_cursor(display);
    }

    fn draw_wallpaper(&self, display: &mut Display)
        requires
            self.wf(),
        ensures
            same_frame(*old(display), *final(display)),
            final(display).pixels() == wallpaper_scene(self.view(), old(display).pixels(), old(display).geometry()),
    {
        let center_x = self.width / 2;
        let center_y = (self.height - TASKBAR_HEIGHT + TOP_BAR) / 2;
        let radii: [i32; 3] = [210, 160, 110];
        let mut k: usize = 0;
        while k < 3
            invariant
                self.wf(),
                same_frame(*old(display), *display),
                0 <= center_x <= MAX_WIDTH,
                -10 <= center_y <= MAX_HEIGHT,
                radii@ == seq![210i32, 160, 110],
                k <= 3,
                center_x == tdiv(self.view().width as int, 2),
                center_y == tdiv(self.view().height - TASKBAR_HEIGHT + TOP_BAR, 2),
                display.geometry() == old(display).geometry(),
                display.pixels() == rings(old(display).pixels(), old(display).geometry(), center_x, center_y, k as int),
            decreases 3 - k,
        {
            let radius = radii[k];
            let shade = if radius == 210 {
                Color::rgb(21, 38, 66)
            } else if radius == 160 {
                Color::rgb(24, 48, 80)
            } else {
                Color::rgb(28, 58, 94)
            };
            display.fill_rect(Rect::new(center_x - radius, center_y - radius / 2, radius * 2, radius), shade);
            k = k + 1;
        }
        display.text(
            36,
            self.height - TASKBAR_HEIGHT - 34,
            "Generic OS  |  kernel desktop prototype",
            text_muted(),
            TextStyle::Regular16,
        );
    }

    fn draw_top_bar(&self, display: &mut Display, seconds: u64)
        requires
            self.wf(),
        ensures
            same_frame(*old(display), *final(display)),
            final(display).pixels() == top_bar_scene(self.view(), old(display).pixels(), old(display).geometry(), seconds),
    {
        display.fill_rect(Rect::new(0, 0, self.width, TOP_BAR), panel());
        display.text(14, 7, "Generic", text_color(), TextStyle::Bold16);
        let text_x = if self.width - 240 >= 180 {
            self.width - 240
        } else {
            180
        };
        display.text(text_x, 7, "F12: text console", text_muted(), TextStyle::Regular16);
        draw_number(display, self.width - 70, 7, seconds, text_color());
        display.text(self.width - 30, 7, "s", text_muted(), TextStyle::Regular16);
    }

    fn draw_taskbar(&self, display: &mut Display)
        requires
            self.wf(),
        ensures
            same_frame(*old(display), *final(display)),
            final(display).pixels() == taskbar_scene(self.view(), old(display).pixels(), old(display).geometry()),
    {
        let y = self.height - TASKBAR_HEIGHT;
        display.fill_rect(Rect::new(0, y, self.width, TASKBAR_HEIGHT), panel());
        display.fill_rect(self.start_button(), desktop_accent());
        display.text(20, y + 13, "Generic", Color::white(), TextStyle::Bold16);
        display.fill_rect(self.console_button(), panel_light());
        display.text(112, y + 13, "Console", text_color(), TextStyle::Regular16);
        let ghost base = display.pixels();
        let mut slot: usize = 0;
        while slot < 3
            invariant
                self.wf(),
                same_frame(*old(display), *display),
                slot <= 3,
                display.geometry() == old(display).geometry(),
                display.pixels() == task_buttons(self.view(), base, old(display).geometry(), slot as int),
            decreases 3 - slot,
        {
            let index = self.z_order[slot];
            let window = self.windows[index];
            let rect = self.task_button(slot);
            let color = if window.visible && !window.minimized {
                Color::rgb(48, 69, 100)
            } else {
                panel_light()
            };
            display.fill_rect(rect, color);
            display.text(rect.x + 10, rect.y + 10, window.title, text_color(), TextStyle::Regular16);
            slot = slot + 1;
        }
    }

    fn draw_start_menu(&self, display: &mut Display)
        requires
            self.wf(),
        ensures
            same_frame(*old(display), *final(display)),
            final(display).pixels() == start_menu_scene(self.view(), old(display).pixels(), old(display).geometry()),
    {
        let menu = self.start_menu_rect();
        display.fill_rect(menu, window_bg());
        display.stroke_rect(menu, window_border(), 2);
        display.text(menu.x + 16, menu.y + 14, "Generic", Color::white(), TextStyle::Bold20);
        display.text(menu.x + 16, menu.y + 42, "Kernel desktop", text_muted(), TextStyle::Regular16);
        let labels: [&str; 4] = ["Welcome", "Kernel Monitor", "Files", "Text Console"];
        let ghost base = display.pixels();
        let mut index: usize = 0;
        while index < 4
            invariant
                self.wf(),
                same_frame(*old(display), *display),
                index <= 4,
                forall|k: int| 0 <= k < 4 ==> (#[trigger] labels@[k])@ == menu_label(k),
                display.geometry() == old(display).geometry(),
                display.pixels() == menu_items(self.view().height as int, base, old(display).geometry(), index as int),
            decreases 4 - index,
        {
            let item = self.start_item(index);
            let fill = if index == 3 {
                panel_light()
            } else {
                panel()
            };
            display.fill_rect(item, fill);
            display.text(item.x + 12, item.y + 9, labels[index], text_color(), TextStyle::Regular16);
            index = index + 1;
        }
    }

    fn draw_window(&self, display: &mut Display, window: Window, figures: &MonitorFigures)
        requires
            self.wf(),
            rect_ok(window.rect),
        ensures
            same_frame(*old(display), *final(display)),
            final(display).pixels() == window_scene(window, *figures, self.files_view(), old(display).pixels(), old(display).geometry()),
    {
        let rect = window.rect;
        let shadow = Rect::new(rect.x + 6, rect.y + 7, rect.width, rect.height);
        display.fill_rect(shadow, Color::rgb(10, 15, 25));
        display.fill_rect(rect, window_bg());
        display.stroke_rect(rect, window_border(), 2);
        let title = self.title_rect(rect);
        display.fill_rect(title, Color::rgb(39, 58, 88));
        display.text(title.x + 12, title.y + 7, window.title, text_color(), TextStyle::Bold16);
        let close = self.close_button(rect);
        display.fill_rect(close, close_color());
        display.text(close.x + 8, close.y + 5, "x", Color::white(), TextStyle::Bold16);
        let minimize = self.minimize_button(rect);
        display.fill_rect(minimize, panel_light());
        display.text(minimize.x + 8, minimize.y + 3, "-", Color::white(), TextStyle::Bold16);
        match window.kind {
            WindowKind::Welcome => self.draw_welcome(display, rect),
            WindowKind::Kernel => self.draw_kernel_monitor(display, rect, figures),
            WindowKind::Files => self.draw_files(display, rect),
        }
    }

    fn draw_welcome(&self, display: &mut Display, rect: Rect)
        requires
            rect_ok(rect),
        ensures
            same_frame(*old(display), *final(display)),
            final(display).pixels() == welcome_scene(rect, old(display).pixels(), old(display).geometry()),
    {
        let x = rect.x + 24;
        let mut y = rect.y + TITLE_HEIGHT + 24;
        display.text(x, y, "Generic OS", Color::rgb(100, 188, 255), TextStyle::Bold20);
        y = y + 34;
        let lines: [&str; 8] = [
            "The first Generic graphical desktop is running.",
            "Rendering uses a kernel-owned double buffer.",
            "Windows can be focused, dragged, minimized and closed.",
            "Mouse and keyboard input arrive through IRQ event queues.",
            "",
            "Shortcuts:",
            "  F12  switch to the text console",
            "  1/2/3 restore Welcome / Kernel / Files",
        ];
        let ghost base = display.pixels();
        let mut k: usize = 0;
        while k < 8
            invariant
                rect_ok(rect),
                x == rect.x + 24,
                y == rect.y + TITLE_HEIGHT + 24 + 34 + 22 * k,
                same_frame(*old(display), *display),
                k <= 8,
                forall|j: int| 0 <= j < 8 ==> (#[trigger] lines@[j])@ == welcome_line(j),
                display.geometry() == old(display).geometry(),
                display.pixels() == welcome_lines(base, old(display).geometry(), x, rect.y + TITLE_HEIGHT + 24 + 34, k as int),
            decreases 8 - k,
        {
            display.text(x, y, lines[k], text_color(), TextStyle::Regular16);
            y = y + 22;
            k = k + 1;
        }
    }

    fn draw_kernel_monitor(&self, display: &mut Display, rect: Rect, figures: &MonitorFigures)
        requires
            rect_ok(rect),
        ensures
            same_frame(*old(display), *final(display)),
            final(display).pixels() == monitor_scene(rect, *figures, old(display).pixels(), old(display).geometry()),
    {
        let x = rect.x + 20;
        let mut y = rect.y + TITLE_HEIGHT + 20;
        display.text(x, y, "Live kernel state", text_color(), TextStyle::Bold16);
        y = y + 28;
        display.text(x, y, "Memory free:", text_muted(), TextStyle::Regular16);
        draw_number(display, x + 160, y, figures.memory_free_mib, text_color());
        display.text(x + 202, y, "MiB", text_muted(), TextStyle::Regular16);
        y = y + 22;
        display.text(x, y, "Heap free:", text_muted(), TextStyle::Regular16);
        draw_number(display, x + 160, y, figures.heap_free_kib, text_color());
        display.text(x + 202, y, "KiB", text_muted(), TextStyle::Regular16);
        y = y + 22;
        display.text(x, y, "Timer ticks:", text_muted(), TextStyle::Regular16);
        draw_number(display, x + 160, y, figures.ticks, text_color());
        y = y + 22;
        display.text(x, y, "Local APIC:", text_muted(), TextStyle::Regular16);
        draw_number(display, x + 160, y, figures.local_apic_id, text_color());
        y = y + 22;
        display.text(x, y, "IOAPICs:", text_muted(), TextStyle::Regular16);
        draw_number(display, x + 160, y, figures.io_apic_count, text_color());
        y = y + 22;
        display.text(x, y, "Mounts:", text_muted(), TextStyle::Regular16);
        draw_number(display, x + 160, y, figures.mounts, text_color());
        y = y + 22;
        display.text(x, y, "Recontrol ABI:", text_muted(), TextStyle::Regular16);
        draw_number(display, x + 160, y, figures.recontrol, text_color());
    }

    fn draw_files(&self, display: &mut Display, rect: Rect)
        requires
            rect_ok(rect),
        ensures
            same_frame(*old(display), *final(display)),
            final(display).pixels() == files_scene(self.files_view(), rect, old(display).pixels(), old(display).geometry()),
    {
        let x = rect.x + 20;
        let mut y = rect.y + TITLE_HEIGHT + 18;
        display.text(x, y, "Root filesystem /", text_color(), TextStyle::Bold16);
        y = y + 30;
        let ghost base = display.pixels();
        let ghost y0 = rect.y + TITLE_HEIGHT + 18 + 30;
        let ghost bottom = rect.y + rect.height - 24;
        let n = self.files.len();
        let mut k: usize = 0;
        while k < n && k < 12
            invariant_except_break
                rows_shown(n as int, y0, bottom, 0) == rows_shown(n as int, y0, bottom, k as int),
            invariant
                rect_ok(rect),
                n == self.files@.len(),
                x == rect.x + 20,
                y == rect.y + TITLE_HEIGHT + 18 + 30 + 22 * k,
                y0 == rect.y + TITLE_HEIGHT + 18 + 30,
                bottom == rect.y + rect.height - 24,
                k <= 12,
                same_frame(*old(display), *display),
                display.geometry() == old(display).geometry(),
                display.pixels() == file_rows(self.files@, base, old(display).geometry(), x, y0, k as int),
            ensures
                same_frame(*old(display), *display),
                display.pixels() == file_rows(self.files@, base, old(display).geometry(), x, y0, rows_shown(n as int, y0, bottom, 0)),
            decreases 12 - k,
        {
            let entry = &self.files[k];
            let marker = match entry.metadata.kind {
                NodeKind::Directory => "[DIR]",
                NodeKind::File => "[FILE]",
            };
            display.text(x, y, marker, desktop_accent(), TextStyle::Regular16);
            display.text(x + 62, y, entry.name.as_str(), text_color(), TextStyle::Regular16);
            y = y + 22;
            k = k + 1;
            if y > rect.y + rect.height - 24 {
                break;
            }
        }
    }

    fn draw_cursor(&self, display: &mut Display)
        requires
            self.wf(),
        ensures
            same_frame(*old(display), *final(display)),
            on_screen(self.cursor.x as int, self.cursor.y as int, final(display).geometry().width as int, final(display).geometry().height as int)
                ==> final(display).pixels()[self.cursor.y * final(display).geometry().width + self.cursor.x] == packed(0, 0, 0),
    {
        let x = self.cursor.x;
        let y = self.cursor.y;
        let mut row: i32 = 0;
        while row < 16
            invariant
                self.wf(),
                x == self.cursor.x,
                y == self.cursor.y,
                0 <= row <= 16,
                same_frame(*old(display), *display),
            decreases 16 - row,
        {
            let width = if row / 2 + 2 <= 9 {
                row / 2 + 2
            } else {
                9
            };
            let color = if row == 0 || row == 15 {
                Color::black()
            } else {
                Color::white()
            };
            display.fill_rect(Rect::new(x, y + row, width, 1), color);
            row = row + 1;
        }
        display.line(Point { x, y }, Point { x: x + 8, y: y + 15 }, Color::black());
        display.line(Point { x, y }, Point { x, y: y + 15 }, Color::black());
    }
}

impl Desktop {
    /// Where the cursor is.
    pub fn cursor(&self) -> (r: Point)
        ensures
            r == self.view().cursor,
    {
        self.cursor
    }

    /// The stacking order, bottom first.
    pub fn stacking(&self) -> (r: [usize; 3])
        ensures
            r@ == self.view().z,
    {
        self.z_order
    }

    /// Window `index`.
    pub fn window(&self, index: usize) -> (r: Window)
        requires
            index < 3,
        ensures
            r == self.view().windows[index as int],
    {
        self.windows[index]
    }

    /// Whether the start menu is open.
    pub fn start_menu_open(&self) -> (r: bool)
        ensures
            r == self.view().start_menu,
    {
        self.start_menu
    }

    /// The window being dragged, with the cursor's offset into it.
    pub fn dragging(&self) -> (r: Option<(usize, i32, i32)>)
        ensures
            r == self.view().dragging,
    {
        self.dragging
    }
}
} // verus!
