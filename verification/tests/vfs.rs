use kernel_core::vfs::{normalize_path, NodeKind, RamFs, Vfs, VfsError};

fn vfs() -> Vfs<RamFs> {
    Vfs::new(Box::new(RamFs::new()))
}

#[test]
fn normalizes_absolute_and_relative_paths() {
    assert_eq!(normalize_path("/", "/a//b/./c").unwrap(), "/a/b/c");
    assert_eq!(normalize_path("/home/user", "../tmp/../notes").unwrap(), "/home/notes");
    assert_eq!(normalize_path("/", "../../../../etc").unwrap(), "/etc");
    assert_eq!(normalize_path("/a", ".").unwrap(), "/a");
}

#[test]
fn creates_reads_writes_and_truncates_files() {
    let mut vfs = vfs();
    vfs.create_dir("/etc").unwrap();
    let metadata = vfs.create_file("/etc/motd").unwrap();
    assert_eq!(metadata.kind, NodeKind::File);

    assert_eq!(vfs.write("/etc/motd", 0, b"Generic").unwrap(), 7);
    assert_eq!(vfs.write("/etc/motd", 7, b" OS").unwrap(), 3);
    assert_eq!(vfs.read_all("/etc/motd").unwrap(), b"Generic OS");

    vfs.truncate("/etc/motd", 7).unwrap();
    assert_eq!(vfs.read_all("/etc/motd").unwrap(), b"Generic");
    assert_eq!(vfs.metadata("/etc/motd").unwrap().len, 7);
}

#[test]
fn sparse_write_zero_fills_gap() {
    let mut vfs = vfs();
    vfs.create_file("/data").unwrap();
    vfs.write("/data", 3, b"x").unwrap();
    assert_eq!(vfs.read_all("/data").unwrap(), &[0, 0, 0, b'x']);
}

#[test]
fn directory_listing_is_sorted_and_remove_is_safe() {
    let mut vfs = vfs();
    vfs.create_dir("/tmp").unwrap();
    vfs.create_file("/tmp/z").unwrap();
    vfs.create_file("/tmp/a").unwrap();

    let entries = vfs.read_dir("/tmp").unwrap();
    assert_eq!(entries[0].name, "a");
    assert_eq!(entries[1].name, "z");
    assert_eq!(vfs.remove("/tmp"), Err(VfsError::DirectoryNotEmpty));

    vfs.remove("/tmp/a").unwrap();
    vfs.remove("/tmp/z").unwrap();
    vfs.remove("/tmp").unwrap();
    assert_eq!(vfs.metadata("/tmp"), Err(VfsError::NotFound));
}

#[test]
fn mount_routes_to_deepest_filesystem() {
    let mut vfs = vfs();
    vfs.create_dir("/mnt").unwrap();
    vfs.mount("/mnt", Box::new(RamFs::new())).unwrap();

    vfs.create_file("/root-file").unwrap();
    vfs.create_file("/mnt/mounted-file").unwrap();
    assert_eq!(vfs.write("/mnt/mounted-file", 0, b"mounted").unwrap(), 7);
    assert_eq!(vfs.read_all("/mnt/mounted-file").unwrap(), b"mounted");
    assert_eq!(vfs.mounts().len(), 2);
    assert_eq!(vfs.mount("/mnt", Box::new(RamFs::new())), Err(VfsError::AlreadyMounted));
}

#[test]
fn rejects_invalid_operations() {
    let mut vfs = vfs();
    vfs.create_file("/file").unwrap();
    assert_eq!(vfs.create_file("/file/child"), Err(VfsError::NotDirectory));
    assert_eq!(vfs.read_dir("/file"), Err(VfsError::NotDirectory));
    assert_eq!(vfs.read_all("/"), Err(VfsError::IsDirectory));
    assert_eq!(vfs.remove("/"), Err(VfsError::RootImmutable));
    assert_eq!(vfs.create_file("/file"), Err(VfsError::AlreadyExists));
}

#[test]
fn mount_listing_is_sorted_by_path() {
    let mut vfs = vfs();
    vfs.create_dir("/mnt").unwrap();
    vfs.create_dir("/data").unwrap();
    vfs.mount("/mnt", Box::new(RamFs::new())).unwrap();
    vfs.mount("/data", Box::new(RamFs::new())).unwrap();
    let paths: Vec<String> = vfs.mounts().into_iter().map(|m| m.path).collect();
    assert_eq!(paths, vec!["/".to_string(), "/data".to_string(), "/mnt".to_string()]);
}

#[test]
fn relative_paths_start_at_the_root_and_long_names_are_refused() {
    let mut vfs = vfs();
    vfs.create_file("relative").unwrap();
    assert!(vfs.metadata("/relative").is_ok());
    let long = format!("/{}", "n".repeat(300));
    assert_eq!(vfs.create_file(&long), Err(VfsError::NameTooLong));
}

#[test]
fn normalizing_twice_changes_nothing() {
    let once = normalize_path("/home/user", "../tmp/./x//y/..").unwrap();
    assert_eq!(once, "/home/tmp/x");
    assert_eq!(normalize_path("/", &once).unwrap(), once);
    assert_eq!(normalize_path("/elsewhere/deep", &once).unwrap(), once);
}
