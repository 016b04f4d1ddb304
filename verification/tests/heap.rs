use kernel_core::heap::{HeapError, HeapState, MAX_FREE_RANGES};

fn heap() -> HeapState {
    let mut heap = HeapState::empty();
    heap.init(0x1000, 0x10000);
    heap
}

#[test]
fn allocation_before_init_fails() {
    let mut heap = HeapState::empty();
    assert_eq!(heap.allocate(16, 8), None);
    assert_eq!(heap.check_release(0x1000, 16), Err(HeapError::NotInitialized));
    assert_eq!(heap.total_bytes(), 0);
}

#[test]
fn first_fit_respects_alignment_and_counts_bytes() {
    let mut heap = heap();
    assert_eq!(heap.total_bytes(), 0x10000);
    assert_eq!(heap.free_bytes(), 0x10000);
    let small = heap.allocate(37, 8).unwrap();
    assert_eq!(small, 0x1000);
    let page = heap.allocate(4096, 4096).unwrap();
    assert_eq!(page % 4096, 0);
    assert_eq!(page, 0x2000);
    assert_eq!(heap.free_bytes(), 0x10000 - 37 - 4096);
}

#[test]
fn zero_size_takes_one_byte() {
    let mut heap = heap();
    let a = heap.allocate(0, 1).unwrap();
    let b = heap.allocate(0, 1).unwrap();
    assert_eq!(b, a + 1);
    assert_eq!(heap.free_bytes(), 0x10000 - 2);
}

#[test]
fn release_coalesces_back_to_one_range() {
    let mut heap = heap();
    let before = heap.free_bytes();
    let small = heap.allocate(37, 8).unwrap();
    let page = heap.allocate(4096, 4096).unwrap();
    assert_eq!(heap.check_release(page, 4096), Ok(()));
    heap.deallocate(page, 4096);
    assert_eq!(heap.check_release(small, 37), Ok(()));
    heap.deallocate(small, 37);
    assert_eq!(heap.free_bytes(), before);
    // the whole heap is one range again: a block of its full size fits
    assert_eq!(heap.allocate(0x10000, 1), Some(0x1000));
}

#[test]
fn refuses_double_free_and_foreign_blocks() {
    let mut heap = heap();
    let block = heap.allocate(64, 8).unwrap();
    heap.deallocate(block, 64);
    assert_eq!(heap.check_release(block, 64), Err(HeapError::Overlap));
    assert_eq!(heap.check_release(0x100, 16), Err(HeapError::OutsideHeap));
    assert_eq!(heap.check_release(usize::MAX, 16), Err(HeapError::AddressOverflow));
    assert_eq!(HeapError::Overlap.message(), "kernel heap double free or overlap");
}

#[test]
fn exhausted_heap_returns_none() {
    let mut heap = heap();
    assert_eq!(heap.allocate(0x10001, 1), None);
    assert!(heap.allocate(0x10000, 1).is_some());
    assert_eq!(heap.allocate(1, 1), None);
    assert_eq!(heap.free_bytes(), 0);
}

#[test]
fn metadata_limit_is_respected() {
    let mut heap = HeapState::empty();
    heap.init(0x10_0000, 4 * (MAX_FREE_RANGES * 2 + 1));
    // carve every other 4-byte block: each release in the middle makes a new range
    let mut blocks = Vec::new();
    while let Some(b) = heap.allocate(4, 1) {
        blocks.push(b);
    }
    let mut released = 0;
    let mut refused = false;
    for (i, b) in blocks.iter().enumerate() {
        if i % 2 == 0 {
            match heap.check_release(*b, 4) {
                Ok(()) => {
                    heap.deallocate(*b, 4);
                    released += 1;
                }
                Err(e) => {
                    assert_eq!(e, HeapError::MetadataExhausted);
                    refused = true;
                    break;
                }
            }
        }
    }
    assert_eq!(released, MAX_FREE_RANGES);
    assert!(refused);
}
