use kernel_core::{PhysicalMemory, PhysicalMemoryError, Region, PAGE_SIZE};

#[test]
fn normalizes_regions_and_excludes_null_page() {
    let memory =
        PhysicalMemory::<8>::new(&[Region { start: 0, end: 5000 }, Region { start: 8193, end: 20000 }]).unwrap();

    assert_eq!(memory.total_bytes(), 3 * PAGE_SIZE);
    assert_eq!(memory.free_bytes(), 3 * PAGE_SIZE);
    assert_eq!(memory.managed_region_count(), 2);
}

#[test]
fn allocates_frees_and_coalesces() {
    let mut memory = PhysicalMemory::<8>::new(&[Region { start: PAGE_SIZE, end: PAGE_SIZE * 9 }]).unwrap();

    let a = memory.allocate_frame().unwrap().unwrap();
    let b = memory.allocate_frame().unwrap().unwrap();
    let c = memory.allocate_pages(2, 1).unwrap().unwrap();
    assert_eq!(a, PAGE_SIZE);
    assert_eq!(b, PAGE_SIZE * 2);
    assert_eq!(c, PAGE_SIZE * 3);
    assert_eq!(memory.used_bytes(), PAGE_SIZE * 4);

    memory.free_pages(b, 1).unwrap();
    memory.free_pages(a, 1).unwrap();
    memory.free_pages(c, 2).unwrap();

    assert_eq!(memory.free_bytes(), memory.total_bytes());
    assert_eq!(memory.free_region_count(), 1);
}

#[test]
fn honors_multi_page_alignment() {
    let mut memory = PhysicalMemory::<8>::new(&[Region { start: PAGE_SIZE, end: PAGE_SIZE * 32 }]).unwrap();

    let address = memory.allocate_pages(2, 4).unwrap().unwrap();
    assert_eq!(address % (PAGE_SIZE * 4), 0);
    assert_eq!(memory.used_bytes(), PAGE_SIZE * 2);
}

#[test]
fn rejects_double_free_and_out_of_range_free() {
    let mut memory = PhysicalMemory::<8>::new(&[Region { start: PAGE_SIZE, end: PAGE_SIZE * 8 }]).unwrap();

    let address = memory.allocate_frame().unwrap().unwrap();
    memory.free_pages(address, 1).unwrap();
    assert_eq!(memory.free_pages(address, 1), Err(PhysicalMemoryError::InvalidFree));
    assert_eq!(memory.free_pages(PAGE_SIZE * 100, 1), Err(PhysicalMemoryError::InvalidFree));
}

#[test]
fn rejects_bad_maps_and_requests() {
    assert!(matches!(
        PhysicalMemory::<8>::new(&[Region { start: 2, end: 1 }]),
        Err(PhysicalMemoryError::ReversedRange)
    ));
    assert!(matches!(
        PhysicalMemory::<8>::new(&[
            Region { start: PAGE_SIZE, end: PAGE_SIZE * 4 },
            Region { start: PAGE_SIZE * 3, end: PAGE_SIZE * 5 },
        ]),
        Err(PhysicalMemoryError::OverlapOrUnsorted)
    ));

    let mut memory = PhysicalMemory::<8>::new(&[Region { start: PAGE_SIZE, end: PAGE_SIZE * 8 }]).unwrap();
    assert_eq!(memory.allocate_pages(0, 1), Err(PhysicalMemoryError::InvalidRequest));
    assert_eq!(memory.allocate_pages(1, 3), Err(PhysicalMemoryError::InvalidRequest));
}

#[test]
fn freeing_what_was_just_taken_always_fits() {
    let mut memory = PhysicalMemory::<2>::new(&[Region { start: 0x1000, end: 0x10000 }]).unwrap();
    let address = memory.allocate_pages(1, 4).unwrap().unwrap();
    assert_eq!(address, 0x4000);
    assert_eq!(memory.free_region_count(), 2);
    assert_eq!(memory.free_pages(address, 1), Ok(()));
    assert_eq!(memory.free_region_count(), 1);
    assert_eq!(memory.free_bytes(), 0xf000);
}
