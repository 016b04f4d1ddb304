use kernel_core::files::{check_persistent_marker, create_root_directories, replace_file, verify_ramfs, BootError};
use kernel_core::memory::{
    check_table_accounting, check_user_page, heap_plan, mmio_plan, user_page_flags, MappingError, ENTRY_NO_EXECUTE,
    USER_ADDRESS_LIMIT,
};
use kernel_core::vfs::{NodeKind, RamFs, Vfs};

#[test]
fn user_page_requests_are_checked_in_order() {
    assert_eq!(check_user_page(0x40_0000, 100), Ok(()));
    assert_eq!(check_user_page(0x40_0001, 5000), Err(MappingError::UserUnaligned));
    assert_eq!(check_user_page(0x40_0000, 4097), Err(MappingError::UserDataTooLarge));
    assert_eq!(check_user_page(USER_ADDRESS_LIMIT, 0), Err(MappingError::UserBeyondLimit));
    assert_eq!(
        MappingError::UserBeyondLimit.message(),
        "user virtual address exceeds Generic userspace limit"
    );
}

#[test]
fn user_page_flags_follow_the_rights() {
    assert_eq!(user_page_flags(true, false), 1 | 4 | 2 | ENTRY_NO_EXECUTE);
    assert_eq!(user_page_flags(false, true), 1 | 4);
}

#[test]
fn mmio_plan_lists_page_pairs() {
    assert_eq!(mmio_plan(0x1000, 0x2000, 2), Ok(vec![(0x1000, 0x2000), (0x2000, 0x3000)]));
    assert_eq!(mmio_plan(0x1000, 0x2000, 0), Err(MappingError::MmioMisaligned));
    assert_eq!(mmio_plan(0x1000, 0x2010, 1), Err(MappingError::MmioMisaligned));
    assert_eq!(mmio_plan(u64::MAX - 0xfff, 0, 2), Err(MappingError::MmioVirtualOverflow));
    assert_eq!(mmio_plan(0, u64::MAX - 0xfff, 2), Err(MappingError::MmioPhysicalOverflow));
    assert_eq!(mmio_plan(u64::MAX - 0xfff, 0, 1), Ok(vec![(u64::MAX - 0xfff, 0)]));
}

#[test]
fn heap_plan_leaves_guard_pages() {
    let start = 0x0000_4444_0000_0000;
    let plan = heap_plan(start, 2 * 1024 * 1024);
    assert_eq!(plan.lower_guard, start - 4096);
    assert_eq!(plan.upper_guard, start + 2 * 1024 * 1024);
    assert_eq!(plan.first_page, start);
    assert_eq!(plan.last_page, start + 2 * 1024 * 1024 - 4096);
    assert_eq!(plan.pages, 512);
}

#[test]
fn table_accounting_must_match() {
    assert_eq!(check_table_accounting(10 * 4096, 7 * 4096, 3), Ok(()));
    assert_eq!(check_table_accounting(4096, 8192, 0), Err(MappingError::AccountingUnderflow));
    assert_eq!(check_table_accounting(8192, 4096, 2), Err(MappingError::AccountingMismatch));
}

fn vfs() -> Vfs<RamFs> {
    Vfs::new(Box::new(RamFs::new()))
}

#[test]
fn root_tree_is_created_and_checked() {
    let mut vfs = vfs();
    assert_eq!(create_root_directories(&mut vfs), Ok(()));
    for path in ["/bin", "/dev", "/etc", "/home", "/mnt", "/tmp"] {
        assert_eq!(vfs.metadata(path).unwrap().kind, NodeKind::Directory);
    }
    assert_eq!(verify_ramfs(&mut vfs), Ok(()));
    assert!(vfs.metadata("/tmp/.vfs-smoke").is_err());
    assert!(vfs.read_dir("/tmp").unwrap().is_empty());
}

#[test]
fn persistent_marker_is_written_then_recognized() {
    let mut vfs = vfs();
    vfs.create_dir("/mnt").unwrap();
    assert_eq!(check_persistent_marker(&mut vfs), Ok(false));
    assert_eq!(vfs.read_all("/mnt/.generic-persist").unwrap(), b"generic-persistent-v1");
    assert_eq!(check_persistent_marker(&mut vfs), Ok(true));
    replace_file(&mut vfs, "/mnt/.generic-persist", b"something else").unwrap();
    assert_eq!(check_persistent_marker(&mut vfs), Err(BootError::MarkerCorrupted));
}

#[test]
fn persistent_marker_must_be_a_file() {
    let mut vfs = vfs();
    vfs.create_dir("/mnt").unwrap();
    vfs.create_dir("/mnt/.generic-persist").unwrap();
    assert_eq!(check_persistent_marker(&mut vfs), Err(BootError::MarkerNotFile));
}

#[test]
fn seeding_replaces_contents() {
    let mut vfs = vfs();
    replace_file(&mut vfs, "/README", b"first version, long").unwrap();
    replace_file(&mut vfs, "/README", b"second").unwrap();
    assert_eq!(vfs.read_all("/README").unwrap(), b"second");
}
