use kernel_core::console::{Console, ConsoleColor};
use kernel_core::graphics::{FrameGeometry, PixelLayout};

fn geometry(width: usize, height: usize) -> FrameGeometry {
    FrameGeometry { width, height, stride: width, bytes_per_pixel: 4, pixel_format: PixelLayout::Rgb }
}

#[test]
fn intensity_scales_each_channel() {
    let c = ConsoleColor::new(255, 100, 0).with_intensity(128);
    assert_eq!(c, ConsoleColor::new(128, 50, 0));
    assert_eq!(ConsoleColor::new(9, 9, 9).with_intensity(0), ConsoleColor::new(0, 0, 0));
    assert_eq!(ConsoleColor::new(9, 8, 7).with_intensity(255), ConsoleColor::new(9, 8, 7));
}

#[test]
fn console_starts_cleared_in_the_first_cell() {
    let mut frame = vec![0xffu8; 90 * 54 * 4];
    let console = Console::new(geometry(90, 54), &mut frame);
    assert!(frame.iter().all(|b| *b == 0));
    assert_eq!(console.grid(), (10, 3));
    assert_eq!(console.position(), (0, 0));
}

#[test]
fn characters_wrap_and_draw() {
    let mut frame = vec![0u8; 18 * 36 * 4];
    let mut console = Console::new(geometry(18, 36), &mut frame);
    assert_eq!(console.grid(), (2, 2));
    console.write_str(&mut frame, "ab");
    assert_eq!(console.position(), (2, 0));
    assert!(frame.iter().any(|b| *b != 0));
    console.write_byte(&mut frame, b'c');
    assert_eq!(console.position(), (1, 1));
    console.write_byte(&mut frame, 0x07);
    assert_eq!(console.position(), (1, 1));
    console.write_byte(&mut frame, b'\r');
    assert_eq!(console.position(), (0, 1));
}

#[test]
fn tab_moves_to_the_next_stop() {
    let mut frame = vec![0u8; 90 * 54 * 4];
    let mut console = Console::new(geometry(90, 54), &mut frame);
    console.write_str(&mut frame, "x\t");
    assert_eq!(console.position(), (4, 0));
    console.write_str(&mut frame, "\t");
    assert_eq!(console.position(), (8, 0));
}

#[test]
fn newline_on_the_last_row_scrolls_the_picture() {
    let mut frame = vec![0u8; 18 * 36 * 4];
    let mut console = Console::new(geometry(18, 36), &mut frame);
    console.write_str(&mut frame, "\n");
    assert_eq!(console.position(), (0, 1));
    // mark a byte in the second row of cells; a scroll moves it up one row
    let row_bytes = 18 * 4;
    let marked = 18 * row_bytes + 5;
    frame[marked] = 0x5a;
    frame[3] = 0x11;
    console.write_byte(&mut frame, b'\n');
    assert_eq!(console.position(), (0, 1));
    assert_eq!(frame[5], 0x5a);
    assert_eq!(frame[marked], 0);
}

#[test]
fn scroll_with_a_single_row_clears() {
    let mut frame = vec![0u8; 18 * 10 * 4];
    let mut console = Console::new(geometry(18, 10), &mut frame);
    assert_eq!(console.grid(), (2, 1));
    console.write_str(&mut frame, "ab");
    console.write_byte(&mut frame, b'\n');
    assert_eq!(console.position(), (0, 0));
    assert!(frame.iter().all(|b| *b == 0));
}

#[test]
fn backspace_steps_back_across_lines() {
    let mut frame = vec![0u8; 18 * 36 * 4];
    let mut console = Console::new(geometry(18, 36), &mut frame);
    console.backspace(&mut frame);
    assert_eq!(console.position(), (0, 0));
    console.write_str(&mut frame, "a\n");
    console.backspace(&mut frame);
    assert_eq!(console.position(), (1, 0));
    console.backspace(&mut frame);
    assert_eq!(console.position(), (0, 0));
    assert!(frame.iter().all(|b| *b == 0));
}
