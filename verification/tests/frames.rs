use kernel_core::{FrameAllocator, MapError, Region, PAGE_SIZE};

#[test]
fn rounds_inward_and_never_allocates_null_frame() {
    let regions = [Region { start: 0, end: 4097 }, Region { start: 8193, end: 20479 }];
    let mut frames = FrameAllocator::new(&regions).unwrap();
    assert_eq!(frames.allocate(), Some(12288));
    assert_eq!(frames.allocate(), None);
    assert_eq!(frames.allocate(), None);
}

#[test]
fn crosses_holes_without_reuse() {
    let regions = [Region { start: 4096, end: 12288 }, Region { start: 32768, end: 36864 }];
    let mut frames = FrameAllocator::new(&regions).unwrap();
    assert_eq!(frames.allocate(), Some(4096));
    assert_eq!(frames.allocate(), Some(8192));
    assert_eq!(frames.allocate(), Some(32768));
    assert_eq!(frames.allocate(), None);
}

#[test]
fn rejects_invalid_maps() {
    assert!(matches!(FrameAllocator::new(&[Region { start: 2, end: 1 }]), Err(MapError::ReversedRange)));
    assert!(matches!(
        FrameAllocator::new(&[Region { start: 4096, end: 16384 }, Region { start: 8192, end: 32768 }]),
        Err(MapError::OverlapOrUnsorted)
    ));
}

#[test]
fn handles_empty_and_address_overflow() {
    assert_eq!(FrameAllocator::new(&[]).unwrap().allocate(), None);
    assert_eq!(
        FrameAllocator::new(&[Region { start: u64::MAX - 1024, end: u64::MAX }]).unwrap().allocate(),
        None
    );
}

#[test]
fn many_frames_are_aligned_unique_and_within_bounds() {
    let regions = [Region { start: 5001, end: 8 * 1024 * 1024 + 17 }];
    let mut frames = FrameAllocator::new(&regions).unwrap();
    let mut previous = 0;
    let mut count = 0;
    while let Some(frame) = frames.allocate() {
        assert_eq!(frame % PAGE_SIZE, 0);
        assert!(frame > previous && frame >= regions[0].start);
        assert!(frame + PAGE_SIZE <= regions[0].end);
        previous = frame;
        count += 1;
    }
    assert_eq!(count, 2046);
}
