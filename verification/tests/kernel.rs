use kernel_core::virtio::{VirtioAction, VirtioDevice, VirtioProbe};
use kernel_core::display::{
    check_picture, format_code, info, present_xrgb8888, DisplayError, DisplayInfo, DisplayState, NativePixelFormat,
};
use kernel_core::elf::ElfImage;
use kernel_core::graphics::{Color, Display, FrameGeometry, PixelLayout, Point, Rect};
use kernel_core::heap::HeapState;
use kernel_core::input::{poll, Key, Keyboard, MouseState, ScancodeQueue, INPUT_KEY, INPUT_MOUSE};
use kernel_core::memory::{heap_probe_addresses, stats, user_range_accessible, USER_ADDRESS_LIMIT};
use kernel_core::page_tables::TableMemory;
use kernel_core::process::{load_plan, LoadError, ProcessState, ProcessTable};
use kernel_core::shell::{cd_target, parse_command, required_path, write_args, Command, EditAction, LineEditor};
use kernel_core::virtio::{
    capacity_of, check_queue_size, legacy_pfn, queue_layout, request_chain, request_status, QueueState,
    VirtioError, DESC_NEXT, DESC_WRITE,
};
use kernel_core::{PhysicalMemory, Region};
use std::collections::BTreeMap;

fn elf(vaddr: u64, memsz: u64, data: &[u8], entry: u64) -> Vec<u8> {
    let mut elf = vec![0u8; 0x100];
    elf[0..4].copy_from_slice(b"\x7fELF");
    elf[4] = 2;
    elf[5] = 1;
    elf[6] = 1;
    elf[16..18].copy_from_slice(&2u16.to_le_bytes());
    elf[18..20].copy_from_slice(&62u16.to_le_bytes());
    elf[20..24].copy_from_slice(&1u32.to_le_bytes());
    elf[24..32].copy_from_slice(&entry.to_le_bytes());
    elf[32..40].copy_from_slice(&64u64.to_le_bytes());
    elf[52..54].copy_from_slice(&64u16.to_le_bytes());
    elf[54..56].copy_from_slice(&56u16.to_le_bytes());
    elf[56..58].copy_from_slice(&1u16.to_le_bytes());
    let ph = 64;
    elf[ph..ph + 4].copy_from_slice(&1u32.to_le_bytes());
    elf[ph + 4..ph + 8].copy_from_slice(&6u32.to_le_bytes());
    elf[ph + 8..ph + 16].copy_from_slice(&0x100u64.to_le_bytes());
    elf[ph + 16..ph + 24].copy_from_slice(&vaddr.to_le_bytes());
    elf[ph + 32..ph + 40].copy_from_slice(&(data.len() as u64).to_le_bytes());
    elf[ph + 40..ph + 48].copy_from_slice(&memsz.to_le_bytes());
    elf[ph + 48..ph + 56].copy_from_slice(&1u64.to_le_bytes());
    elf.extend_from_slice(data);
    elf
}

#[test]
fn load_plan_covers_every_touched_page() {
    let bytes = elf(0x400ffe, 0x10, &[1, 2, 3, 4], 0x401000);
    let image = ElfImage::parse(&bytes).unwrap();
    let plan = load_plan(&image).unwrap();
    assert_eq!(plan.len(), 2);
    assert_eq!(plan[0].address, 0x400000);
    assert_eq!(plan[1].address, 0x401000);
    assert!(plan[0].writable && !plan[0].executable);
    assert_eq!(plan[0].initial.len(), 4096);
    assert_eq!(&plan[0].initial[0xffe..], &[1, 2]);
    assert_eq!(&plan[1].initial[..3], &[3, 4, 0]);
    assert!(plan[0].initial[..0xffe].iter().all(|b| *b == 0));
}

#[test]
fn load_plan_refuses_kernel_addresses() {
    let bytes = elf(0x400000, 0x10, &[1], 0xffff_8000_0000_0000);
    let image = ElfImage::parse(&bytes).unwrap();
    assert_eq!(load_plan(&image).err(), Some(LoadError::EntryOutside));
    let bytes = elf(0x0000_7fff_ffff_f000, 0x2000, &[1], 0x400000);
    let image = ElfImage::parse(&bytes).unwrap();
    assert_eq!(load_plan(&image).err(), Some(LoadError::SegmentEndsOutside));
    assert_eq!(LoadError::EntryOutside.message(), "ELF entry is outside userspace");
}

#[test]
fn process_table_records_exits() {
    let mut table = ProcessTable::new();
    table.add(1, "/bin/init".to_string(), 0x400000);
    assert!(table.finish(1, 42));
    assert!(!table.finish(9, 1));
    let list = table.processes();
    assert_eq!(list.len(), 1);
    assert_eq!(list[0].name, "/bin/init");
    assert_eq!(list[0].state, ProcessState::Exited);
    assert_eq!(list[0].exit_code, Some(42));
}

struct Tables {
    tables: BTreeMap<u64, [u64; 512]>,
}

impl TableMemory for Tables {
    fn allocate(&mut self) -> Option<u64> {
        None
    }
    fn release(&mut self, _frame: u64) {}
    fn read(&self, frame: u64, index: usize) -> u64 {
        self.tables.get(&frame).map(|t| t[index]).unwrap_or(0)
    }
    fn write(&mut self, frame: u64, index: usize, entry: u64) {
        self.tables.get_mut(&frame).unwrap()[index] = entry;
    }
}

#[test]
fn user_ranges_need_user_mappings() {
    let mut tables = BTreeMap::new();
    for f in [0x1000u64, 0x2000, 0x3000, 0x4000] {
        tables.insert(f, [0u64; 512]);
    }
    // 0x400000: PML4[0] -> PDPT[0] -> PD[2] -> PT[0] and PT[1]
    tables.get_mut(&0x1000).unwrap()[0] = 0x2000 | 7;
    tables.get_mut(&0x2000).unwrap()[0] = 0x3000 | 7;
    tables.get_mut(&0x3000).unwrap()[2] = 0x4000 | 7;
    tables.get_mut(&0x4000).unwrap()[0] = 0x9000 | 7;
    tables.get_mut(&0x4000).unwrap()[1] = 0xa000 | 5; // read-only
    let memory = Tables { tables };
    assert!(user_range_accessible(&memory, 0x1000, 0x400000, 8192, false));
    assert!(!user_range_accessible(&memory, 0x1000, 0x400000, 8192, true));
    assert!(user_range_accessible(&memory, 0x1000, 0x400010, 16, true));
    assert!(!user_range_accessible(&memory, 0x1000, 0x402000, 1, false));
    assert!(user_range_accessible(&memory, 0x1000, 0x500000, 0, false));
    assert!(!user_range_accessible(&memory, 0x1000, USER_ADDRESS_LIMIT, 0, false));
    assert!(!user_range_accessible(&memory, 0x1000, u64::MAX, 2, false));
}

#[test]
fn memory_figures() {
    let mut heap = HeapState::empty();
    heap.init(0x1000, 0x4000);
    let empty = stats::<8>(None, &heap);
    assert_eq!(empty.heap_total, 0);
    let pmm = PhysicalMemory::<8>::new(&[Region { start: 0x1000, end: 0x5000 }]).unwrap();
    let s = stats(Some(&pmm), &heap);
    assert_eq!(s.physical_total, 0x4000);
    assert_eq!(s.heap_total, 0x4000);
    assert_eq!(s.heap_free, 0x4000);
    assert_eq!(heap_probe_addresses(0x10000, 0x2000), (0xf000, 0x11000, 0x12000));
    assert_eq!(heap_probe_addresses(0, u64::MAX), (0, u64::MAX - 4096, u64::MAX));
}

fn state(format: NativePixelFormat) -> DisplayState {
    DisplayState { address: 0, length: 2 * 2 * 4, width: 2, height: 2, stride: 2, bytes_per_pixel: 4, format }
}

#[test]
fn presents_xrgb_pictures_in_the_native_layout() {
    let picture: Vec<u8> = vec![1, 2, 3, 0, 4, 5, 6, 0, 7, 8, 9, 0, 10, 11, 12, 0];
    let mut frame = vec![0u8; 16];
    present_xrgb8888(&state(NativePixelFormat::Rgb), &picture, &mut frame).unwrap();
    assert_eq!(&frame[0..4], &[3, 2, 1, 0]);
    assert_eq!(&frame[12..16], &[12, 11, 10, 0]);
    present_xrgb8888(&state(NativePixelFormat::Bgr), &picture, &mut frame).unwrap();
    assert_eq!(&frame[0..4], &[1, 2, 3, 0]);
    present_xrgb8888(&state(NativePixelFormat::U8), &picture, &mut frame).unwrap();
    assert_eq!(frame[4], 5);
    let mut short = vec![0u8; 8];
    let small = DisplayState { length: 8, ..state(NativePixelFormat::Rgb) };
    assert_eq!(present_xrgb8888(&small, &picture, &mut short), Err(DisplayError::MappingTooSmall));
}

#[test]
fn display_description_and_size_checks() {
    assert_eq!(info(None), None);
    assert_eq!(
        info(Some(state(NativePixelFormat::Bgr))),
        Some(DisplayInfo { width: 2, height: 2, native_pixel_format: 2 })
    );
    assert_eq!(format_code(NativePixelFormat::Other), 0);
    assert_eq!(check_picture(None, 16), Err(DisplayError::NotInitialized));
    assert_eq!(check_picture(Some(state(NativePixelFormat::Rgb)), 15), Err(DisplayError::SizeMismatch));
    assert!(check_picture(Some(state(NativePixelFormat::Rgb)), 16).is_ok());
    let huge = DisplayState { width: usize::MAX, ..state(NativePixelFormat::Rgb) };
    assert_eq!(check_picture(Some(huge), 16), Err(DisplayError::SizeOverflow));
}

#[test]
fn shell_reads_command_lines() {
    let (command, word, args) = parse_command("  ECHO   hello world ");
    assert_eq!(command, Command::Echo);
    assert_eq!(word, "ECHO");
    assert_eq!(args, "hello world");
    assert_eq!(parse_command("").0, Command::Empty);
    assert_eq!(parse_command("   ").0, Command::Empty);
    assert_eq!(parse_command("Shutdown").0, Command::Halt);
    assert_eq!(parse_command("ls").2, "");
    let (unknown, word, _) = parse_command("frobnicate now");
    assert_eq!(unknown, Command::Unknown);
    assert_eq!(word, "frobnicate");
    assert_eq!(write_args("/tmp/a some text"), ("/tmp/a", "some text"));
    assert_eq!(write_args("/tmp/a"), ("/tmp/a", ""));
    assert_eq!(required_path("   "), None);
    assert_eq!(required_path(" /x "), Some("/x"));
    assert_eq!(cd_target(""), "/");
    assert_eq!(cd_target("docs"), "docs");
}

#[test]
fn line_editor_keeps_the_line_within_bounds() {
    let mut editor = LineEditor::new();
    assert_eq!(editor.key(Key::Backspace), EditAction::Ignore);
    assert_eq!(editor.key(Key::Char(b'a')), EditAction::Echo(b'a'));
    assert_eq!(editor.key(Key::Char(b'b')), EditAction::Echo(b'b'));
    assert_eq!(editor.key(Key::Backspace), EditAction::Erase);
    assert_eq!(editor.key(Key::Tab), EditAction::Ignore);
    assert_eq!(editor.key(Key::Enter), EditAction::Submit);
    assert_eq!(editor.take(), b"a".to_vec());
    for _ in 0..300 {
        editor.key(Key::Char(b'x'));
    }
    assert_eq!(editor.key(Key::Char(b'y')), EditAction::Ignore);
    assert_eq!(editor.take().len(), 256);
}

#[test]
fn virtqueue_layout_and_requests() {
    let layout = queue_layout(256);
    assert_eq!(layout.desc_bytes, 4096);
    assert_eq!(layout.avail_bytes, 518);
    assert_eq!(layout.used_offset, 8192);
    assert_eq!(layout.used_bytes, 2054);
    assert_eq!(layout.queue_pages, 3);
    assert_eq!(check_queue_size(2), Err(VirtioError::InvalidQueueSize));
    assert_eq!(check_queue_size(1025), Err(VirtioError::InvalidQueueSize));
    assert!(check_queue_size(128).is_ok());
    assert_eq!(legacy_pfn(0x12345000), Ok(0x12345));
    assert_eq!(legacy_pfn(1 << 45), Err(VirtioError::QueueAboveLegacyRange));
    assert_eq!(capacity_of(2, 1), 0x1_0000_0002);
    let read = request_chain(0x8000, false);
    assert_eq!(read[1].flags, DESC_NEXT | DESC_WRITE);
    assert_eq!(read[2].address, 0x8000 + 528);
    let write = request_chain(0x8000, true);
    assert_eq!(write[1].flags, DESC_NEXT);
    assert!(request_status(0).is_ok());
    assert!(request_status(1).is_err());
    let mut queue = QueueState { queue_size: 3, avail_idx: u16::MAX, last_used: 0 };
    assert_eq!(queue.publish(), (0, 0));
    assert!(queue.completed(1));
    assert!(!queue.completed(1));
}

#[test]
fn input_prefers_keys_then_mouse_events() {
    let mut keyboard = Keyboard::new();
    let mut scancodes = ScancodeQueue::new();
    let mut mouse = MouseState::new();
    assert!(poll(&mut keyboard, &mut scancodes, &mut mouse).is_none());
    scancodes.push(0x2a); // shift down
    scancodes.push(0x1e); // a
    for byte in [0x08, 5, 0xfe] {
        mouse.push_byte(byte);
    }
    let key = poll(&mut keyboard, &mut scancodes, &mut mouse).unwrap();
    assert_eq!(key.kind, INPUT_KEY);
    assert_eq!(key.code, b'A' as u32);
    let motion = poll(&mut keyboard, &mut scancodes, &mut mouse).unwrap();
    assert_eq!(motion.kind, INPUT_MOUSE);
    assert_eq!(motion.x, 5);
    assert_eq!(motion.y, 2);
    assert!(poll(&mut keyboard, &mut scancodes, &mut mouse).is_none());
}

#[test]
fn drawing_reaches_the_framebuffer() {
    let geometry = FrameGeometry { width: 4, height: 3, stride: 4, bytes_per_pixel: 4, pixel_format: PixelLayout::Rgb };
    let mut display = Display::from_geometry(geometry);
    display.fill_rect(Rect::new(1, 1, 2, 1), Color::rgb(0x10, 0x20, 0x30));
    display.line(Point { x: 0, y: 0 }, Point { x: 3, y: 0 }, Color::white());
    let mut front = vec![0u8; 4 * 3 * 4];
    display.present(&mut front);
    // RGB layout: red in the lowest byte
    assert_eq!(&front[(1 * 4 + 1) * 4..(1 * 4 + 1) * 4 + 4], &[0x10, 0x20, 0x30, 0]);
    assert_eq!(&front[0..4], &[0xff, 0xff, 0xff, 0]);
    assert_eq!(&front[12..16], &[0xff, 0xff, 0xff, 0]);
    assert_eq!(&front[(2 * 4) * 4..(2 * 4) * 4 + 4], &[0, 0, 0, 0]);
}

#[test]
fn virtio_probe_brings_a_device_up() {
    let (probe, action) = VirtioProbe::start();
    assert_eq!(action, VirtioAction::WriteStatus(0));
    let steps: [(Option<u64>, VirtioAction); 14] = [
        (None, VirtioAction::WriteStatus(1)),
        (None, VirtioAction::WriteStatus(3)),
        (None, VirtioAction::Read32(0x00)),
        (Some(0xffff), VirtioAction::Write32(0x04, 0)),
        (None, VirtioAction::Write16(0x0e, 0)),
        (None, VirtioAction::Read16(0x0c)),
        (Some(128), VirtioAction::Read32(0x08)),
        (Some(0), VirtioAction::Allocate(2)),
        (Some(0x10_0000), VirtioAction::Allocate(1)),
        (Some(0x20_0000), VirtioAction::Write32(0x08, 0x100)),
        (None, VirtioAction::Read32(0x14)),
        (Some(2048), VirtioAction::Read32(0x18)),
        (Some(0), VirtioAction::WriteStatus(7)),
        (
            None,
            VirtioAction::Ready(VirtioDevice {
                capacity: 2048,
                queue_size: 128,
                queue_physical: 0x10_0000,
                request_physical: 0x20_0000,
            }),
        ),
    ];
    let mut probe = probe;
    for (reply, expected) in steps {
        let (next, action) = probe.advance(reply);
        assert_eq!(action, expected);
        probe = next;
    }
}

#[test]
fn virtio_probe_refuses_a_bad_queue() {
    let (mut probe, _) = VirtioProbe::start();
    for reply in [None, None, None, Some(0), None, None] {
        probe = probe.advance(reply).0;
    }
    let (probe, action) = probe.advance(Some(2));
    assert_eq!(action, VirtioAction::WriteStatus(128));
    let (_, action) = probe.advance(None);
    assert_eq!(action, VirtioAction::Failed(VirtioError::InvalidQueueSize));
    assert_eq!(VirtioError::InvalidQueueSize.message(), "virtio-blk reported invalid queue size");
}
