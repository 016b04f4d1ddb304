use kernel_core::desktop::{decimal, Desktop, DesktopExit, KeyOutcome, MonitorFigures, WindowKind};
use kernel_core::graphics::{Color, Display, FrameGeometry, PixelLayout, Point, Rect};
use kernel_core::input::{Key, MouseEvent};
use kernel_core::recontrol::{verify, ProbeMismatch};
use kernel_core::vfs::{DirEntry, Metadata, NodeKind};

fn desktop() -> Desktop {
    Desktop::new(1280, 800, Vec::new(), 0)
}

fn click(desktop: &mut Desktop, x: i32, y: i32) -> Option<DesktopExit> {
    let at = desktop.cursor();
    let moved = MouseEvent { dx: (x - at.x) as i16, dy: (y - at.y) as i16, wheel: 0, buttons: 0 };
    assert!(desktop.accepts(moved));
    assert_eq!(desktop.handle_mouse(moved), None);
    let press = MouseEvent { dx: 0, dy: 0, wheel: 0, buttons: 1 };
    assert!(desktop.accepts(press));
    let result = desktop.handle_mouse(press);
    let release = MouseEvent { dx: 0, dy: 0, wheel: 0, buttons: 0 };
    assert!(desktop.accepts(release));
    assert_eq!(desktop.handle_mouse(release), None);
    result
}

#[test]
fn decimal_writes_digits() {
    assert_eq!(decimal(0), "0");
    assert_eq!(decimal(7), "7");
    assert_eq!(decimal(1234), "1234");
    assert_eq!(decimal(u64::MAX), "18446744073709551615");
}

#[test]
fn desktop_opens_with_the_layout() {
    let d = desktop();
    let welcome = d.window(0);
    assert_eq!(welcome.kind, WindowKind::Welcome);
    assert_eq!(welcome.rect, Rect::new(300, 80, 680, 419));
    assert!(welcome.visible && !welcome.minimized);
    let monitor = d.window(1);
    assert_eq!(monitor.kind, WindowKind::Kernel);
    assert_eq!(monitor.rect, Rect::new(699, 118, 537, 362));
    let files = d.window(2);
    assert_eq!(files.kind, WindowKind::Files);
    assert_eq!(files.rect, Rect::new(54, 144, 588, 390));
    assert!(files.visible && files.minimized);
    assert_eq!(d.stacking(), [2, 0, 1]);
    assert_eq!(d.cursor(), Point { x: 640, y: 400 });
    assert!(!d.start_menu_open());
    assert_eq!(d.dragging(), None);
}

#[test]
fn small_screen_keeps_minimum_sizes() {
    let d = Desktop::new(640, 300, Vec::new(), 0);
    assert_eq!(d.window(0).rect, Rect::new(110, 80, 420, 280));
    assert_eq!(d.window(1).rect, Rect::new(236, 118, 360, 260));
    assert_eq!(d.window(2).rect, Rect::new(54, 144, 390, 280));
}

#[test]
fn keys_move_the_cursor_and_restore_windows() {
    let mut d = desktop();
    assert_eq!(d.handle_key(Key::ArrowLeft), KeyOutcome::Changed);
    assert_eq!(d.cursor(), Point { x: 632, y: 400 });
    assert_eq!(d.handle_key(Key::ArrowDown), KeyOutcome::Changed);
    assert_eq!(d.cursor(), Point { x: 632, y: 408 });
    assert_eq!(d.handle_key(Key::Char(b'3')), KeyOutcome::Changed);
    assert!(!d.window(2).minimized);
    assert_eq!(d.stacking(), [0, 1, 2]);
    assert_eq!(d.handle_key(Key::Char(b'1')), KeyOutcome::Changed);
    assert_eq!(d.stacking(), [1, 2, 0]);
    assert_eq!(d.handle_key(Key::Char(b'x')), KeyOutcome::Unchanged);
    assert_eq!(d.handle_key(Key::Enter), KeyOutcome::Unchanged);
    assert_eq!(d.handle_key(Key::F12), KeyOutcome::Exit(DesktopExit::Console));
}

#[test]
fn cursor_stops_at_the_screen_edges() {
    let mut d = Desktop::new(20, 10, Vec::new(), 0);
    for _ in 0..5 {
        d.handle_key(Key::ArrowRight);
        d.handle_key(Key::ArrowUp);
    }
    assert_eq!(d.cursor(), Point { x: 19, y: 0 });
    let far = MouseEvent { dx: -300, dy: 300, wheel: 0, buttons: 0 };
    assert!(d.accepts(far));
    d.handle_mouse(far);
    assert_eq!(d.cursor(), Point { x: 0, y: 9 });
}

#[test]
fn bringing_to_front_keeps_the_others_in_order() {
    let mut d = desktop();
    d.show_window(0);
    assert_eq!(d.stacking(), [2, 1, 0]);
    d.show_window(0);
    assert_eq!(d.stacking(), [2, 1, 0]);
    d.show_window(7);
    assert_eq!(d.stacking(), [2, 1, 0]);
}

#[test]
fn console_button_leaves_the_desktop() {
    let mut d = desktop();
    assert_eq!(click(&mut d, 150, 770), Some(DesktopExit::Console));
}

#[test]
fn start_menu_opens_and_leads_to_the_console() {
    let mut d = desktop();
    assert_eq!(click(&mut d, 20, 770), None);
    assert!(d.start_menu_open());
    // the second entry restores the kernel monitor and closes the menu
    assert_eq!(click(&mut d, 30, 530 + 74 + 34 + 5), None);
    assert!(!d.start_menu_open());
    assert_eq!(d.stacking(), [2, 0, 1]);
    assert_eq!(click(&mut d, 20, 770), None);
    assert_eq!(click(&mut d, 30, 530 + 74 + 3 * 34 + 5), Some(DesktopExit::Console));
    assert!(!d.start_menu_open());
}

#[test]
fn pressing_elsewhere_closes_the_start_menu() {
    let mut d = desktop();
    click(&mut d, 20, 770);
    assert!(d.start_menu_open());
    click(&mut d, 1270, 10);
    assert!(!d.start_menu_open());
}

#[test]
fn taskbar_restores_a_minimized_window() {
    let mut d = desktop();
    // slot 0 holds the files window
    assert_eq!(click(&mut d, 210, 770), None);
    assert!(!d.window(2).minimized);
    assert_eq!(d.stacking(), [0, 1, 2]);
}

#[test]
fn title_bar_drags_the_window() {
    let mut d = desktop();
    let at = d.cursor();
    let to_title = MouseEvent { dx: (400 - at.x) as i16, dy: (90 - at.y) as i16, wheel: 0, buttons: 0 };
    d.handle_mouse(to_title);
    let press = MouseEvent { dx: 0, dy: 0, wheel: 0, buttons: 1 };
    assert_eq!(d.handle_mouse(press), None);
    assert_eq!(d.stacking(), [2, 1, 0]);
    assert_eq!(d.dragging(), Some((0, 100, 10)));
    let drag = MouseEvent { dx: 50, dy: 20, wheel: 0, buttons: 1 };
    assert!(d.accepts(drag));
    d.handle_mouse(drag);
    assert_eq!(d.window(0).rect, Rect::new(350, 100, 680, 419));
    let release = MouseEvent { dx: 0, dy: 0, wheel: 0, buttons: 0 };
    d.handle_mouse(release);
    assert_eq!(d.dragging(), None);
    // the close button now sits at the window's new top right corner
    assert_eq!(click(&mut d, 350 + 680 - 20, 110), None);
    assert!(!d.window(0).visible);
}

#[test]
fn minimize_button_folds_the_window() {
    let mut d = desktop();
    // the kernel monitor is on top; its minimize button
    assert_eq!(click(&mut d, 699 + 537 - 50, 130), None);
    assert!(d.window(1).minimized);
}

#[test]
fn clock_tick_marks_a_new_second() {
    let mut d = Desktop::new(1280, 800, Vec::new(), 5);
    assert!(!d.tick(5));
    assert!(d.tick(6));
    assert!(!d.tick(6));
}

#[test]
fn drawing_puts_the_cursor_on_top() {
    let geometry = FrameGeometry { width: 1280, height: 800, stride: 1280, bytes_per_pixel: 4, pixel_format: PixelLayout::Rgb };
    let mut display = Display::from_geometry(geometry);
    let files = vec![
        DirEntry { name: "bin".to_string(), metadata: Metadata { inode: 2, kind: NodeKind::Directory, len: 0 } },
        DirEntry { name: "motd".to_string(), metadata: Metadata { inode: 3, kind: NodeKind::File, len: 12 } },
    ];
    let mut d = Desktop::new(1280, 800, files, 0);
    d.handle_key(Key::Char(b'3'));
    click(&mut d, 20, 770);
    let figures = MonitorFigures {
        memory_free_mib: 100,
        heap_free_kib: 2048,
        ticks: 12345,
        local_apic_id: 0,
        io_apic_count: 1,
        mounts: 2,
        recontrol: 128,
        seconds: 123,
    };
    d.draw(&mut display, &figures);
    let mut front = vec![0u8; 1280 * 800 * 4];
    display.present(&mut front);
    let at = d.cursor();
    let offset = ((at.y * 1280 + at.x) * 4) as usize;
    assert_eq!(&front[offset..offset + 4], &[0, 0, 0, 0]);
    // the top bar's panel color at its left end
    let panel = Color::rgb(24, 35, 56);
    assert_eq!(&front[(5 * 1280 + 2) * 4..(5 * 1280 + 2) * 4 + 4], &[panel.r(), panel.g(), panel.b(), 0]);
}

#[test]
fn recontrol_probe_value_is_checked() {
    assert_eq!(verify(128), Ok(128));
    assert_eq!(verify(127), Err(ProbeMismatch { value: 127 }));
}
