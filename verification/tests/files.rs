use kernel_core::files::{canonicalize, mkdir, read_file, touch, write_file};
use kernel_core::initramfs::unpack;
use kernel_core::vfs::{NodeKind, RamFs, Vfs, VfsError};

fn vfs() -> Vfs<RamFs> {
    Vfs::new(Box::new(RamFs::new()))
}

fn archive(entries: &[(u8, &str, &[u8])]) -> Vec<u8> {
    let mut a = b"GIR1".to_vec();
    for (kind, path, data) in entries {
        a.push(*kind);
        a.extend_from_slice(&(path.len() as u16).to_le_bytes());
        a.extend_from_slice(&(data.len() as u32).to_le_bytes());
        a.extend_from_slice(path.as_bytes());
        a.extend_from_slice(data);
    }
    a.push(0);
    a
}

#[test]
fn unpacks_files_and_directories() {
    let mut vfs = vfs();
    let a = archive(&[(2, "bin", b""), (1, "bin/init", b"\x7fELF"), (1, "motd", b"hi")]);
    assert_eq!(unpack(&mut vfs, &a), Ok(2));
    assert_eq!(vfs.read_all("/bin/init").unwrap(), b"\x7fELF");
    assert_eq!(vfs.read_all("/motd").unwrap(), b"hi");
    assert_eq!(vfs.metadata("/bin").unwrap().kind, NodeKind::Directory);
}

#[test]
fn unpack_replaces_existing_files() {
    let mut vfs = vfs();
    vfs.create_file("/motd").unwrap();
    vfs.write("/motd", 0, b"a much longer text").unwrap();
    assert_eq!(unpack(&mut vfs, &archive(&[(1, "motd", b"new")])), Ok(1));
    assert_eq!(vfs.read_all("/motd").unwrap(), b"new");
}

#[test]
fn unpack_refuses_corrupt_archives() {
    let mut vfs = vfs();
    assert_eq!(unpack(&mut vfs, b"GIR"), Err(VfsError::CorruptFilesystem));
    assert_eq!(unpack(&mut vfs, b"XIR1\0"), Err(VfsError::CorruptFilesystem));
    let mut bad = archive(&[(1, "f", b"data")]);
    bad.truncate(bad.len() - 3);
    assert_eq!(unpack(&mut vfs, &bad), Err(VfsError::CorruptFilesystem));
    assert_eq!(unpack(&mut vfs, &archive(&[(2, "d", b"x")])), Err(VfsError::CorruptFilesystem));
    assert_eq!(unpack(&mut vfs, &archive(&[(7, "d", b"")])), Err(VfsError::CorruptFilesystem));
    assert_eq!(unpack(&mut vfs, &archive(&[(1, "\u{fffd}", b"")])), Ok(1));
    let mut not_utf8 = archive(&[(1, "ab", b"")]);
    not_utf8[11] = 0xff;
    assert_eq!(unpack(&mut vfs, &not_utf8), Err(VfsError::CorruptFilesystem));
}

#[test]
fn write_file_appends_or_replaces() {
    let mut vfs = vfs();
    assert_eq!(write_file(&mut vfs, "/note", b"one", false), Ok(3));
    assert_eq!(write_file(&mut vfs, "/note", b"two", true), Ok(3));
    assert_eq!(read_file(&vfs, "/note").unwrap(), b"onetwo");
    assert_eq!(write_file(&mut vfs, "/note", b"x", false), Ok(1));
    assert_eq!(read_file(&vfs, "/note").unwrap(), b"x");
    mkdir(&mut vfs, "/dir").unwrap();
    assert_eq!(write_file(&mut vfs, "/dir", b"x", false), Err(VfsError::IsDirectory));
}

#[test]
fn touch_creates_or_keeps_files() {
    let mut vfs = vfs();
    touch(&mut vfs, "/t").unwrap();
    assert_eq!(vfs.metadata("/t").unwrap().len, 0);
    vfs.write("/t", 0, b"keep").unwrap();
    touch(&mut vfs, "/t").unwrap();
    assert_eq!(read_file(&vfs, "/t").unwrap(), b"keep");
    mkdir(&mut vfs, "/d").unwrap();
    assert_eq!(touch(&mut vfs, "/d"), Err(VfsError::IsDirectory));
    assert_eq!(mkdir(&mut vfs, "/"), Err(VfsError::RootImmutable));
}

#[test]
fn canonicalize_follows_the_working_directory() {
    assert_eq!(canonicalize("/home", "notes/../todo").unwrap(), "/home/todo");
    assert_eq!(canonicalize("/", "/a/./b").unwrap(), "/a/b");
}

#[test]
fn empty_archive_unpacks_nothing() {
    let mut vfs = Vfs::new(Box::new(RamFs::new()));
    assert_eq!(unpack(&mut vfs, b"GIR1\0"), Ok(0));
    assert_eq!(vfs.read_dir("/").unwrap().len(), 0);
}

#[test]
fn unpack_keeps_entries_before_a_malformed_one() {
    let mut vfs = vfs();
    let mut a = archive(&[(1, "early", b"kept")]);
    a.pop();
    a.extend_from_slice(&[1, 9, 0]);
    assert_eq!(unpack(&mut vfs, &a), Err(VfsError::CorruptFilesystem));
    assert_eq!(read_file(&vfs, "/early"), Ok(b"kept".to_vec()));
}

#[test]
fn unpack_answers_the_vfs_error_of_a_failing_entry() {
    let mut vfs = vfs();
    let a = archive(&[(1, "thing", b"x"), (2, "thing", b"")]);
    assert_eq!(unpack(&mut vfs, &a), Err(VfsError::AlreadyExists));
}
