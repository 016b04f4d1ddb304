//! The kernel's file operations on its VFS, as the shell and the boot
//! sequence use them.

use crate::path::{normalize_path, normalized, normalized_components};
use crate::vfs::{law_kept_write_then_read, lemma_resolve_same, node_answer, vfs_entry_answer, FileSystem, Inode, Metadata, NodeKind, Vfs, VfsError};
use crate::ramfs::{resized, written};
use vstd::prelude::*;

verus! {

/// The absolute, normalized form of `path`, taken from `cwd` when relative.
pub fn canonicalize(cwd: &str, path: &str) -> (r: Result<String, VfsError>)
    ensures
        match normalized(cwd@, path@) {
            Ok(p) => r is Ok && r->Ok_0@ == p,
            Err(e) => r == Err::<String, VfsError>(e),
        },
{
    normalize_path(cwd, path)
}

/// The whole contents of the file at `path`.
pub fn read_file<F: FileSystem>(vfs: &Vfs<F>, path: &str) -> (r: Result<Vec<u8>, VfsError>)
    requires
        vfs.wf(),
    ensures
        match normalized_components(seq!['/'], path@) {
            Err(e) => r == Err::<Vec<u8>, VfsError>(e),
            Ok(c) => r is Ok ==> {
                let fs = vfs.filesystem_at(vfs.served_by(c));
                &&& vfs.resolved(c) is Some
                &&& r->Ok_0@ == fs.contents(vfs.resolved(c)->Some_0)
            },
        },
        normalized_components(seq!['/'], path@) matches Ok(c) ==> ({
            let fs = vfs.filesystem_at(vfs.served_by(c));
            fs.effects_stated() ==> match vfs.metadata_at(c) {
                Err(e) => r == Err::<Vec<u8>, VfsError>(e),
                Ok(m) => if m.kind == NodeKind::Directory {
                    r == Err::<Vec<u8>, VfsError>(VfsError::IsDirectory)
                } else if m.len > usize::MAX {
                    r == Err::<Vec<u8>, VfsError>(VfsError::OffsetOverflow)
                } else {
                    r is Ok && r->Ok_0@ == fs.contents(m.inode)
                },
            }
        }),
{
    vfs.read_all(path)
}

/// The VFS after a file operation at `path`: what the mounts serve changed at
/// most in the filesystem serving `path`, and the mounts are the same.
pub open spec fn touched<F: FileSystem>(before: Vfs<F>, after: Vfs<F>, path: Seq<char>) -> bool {
    &&& after.wf()
    &&& after.mount_points() == before.mount_points()
    &&& match normalized_components(seq!['/'], path) {
        Err(_) => after == before,
        Ok(c) => after.same_except(&before, before.served_by(c)),
    }
}

/// Writes `data` into the file at `path`: created where missing, cut to
/// nothing first unless `append`, and written from its end when `append`.
/// Gives the number of bytes written.
pub fn write_file<F: FileSystem>(vfs: &mut Vfs<F>, path: &str, data: &[u8], append: bool) -> (r: Result<
    usize,
    VfsError,
>)
    requires
        old(vfs).wf(),
    ensures
        touched(*old(vfs), *final(vfs), path@),
        normalized_components(seq!['/'], path@) matches Err(e) ==> r == Err::<usize, VfsError>(e),
        r is Ok ==> r == Ok::<usize, VfsError>(data@.len() as usize),
        normalized_components(seq!['/'], path@) matches Ok(c) ==> ({
            let i = old(vfs).served_by(c);
            let fs = old(vfs).filesystem_at(i);
            fs.effects_stated() ==> match old(vfs).metadata_at(c) {
                Ok(m) => if m.kind == NodeKind::Directory {
                    r == Err::<usize, VfsError>(VfsError::IsDirectory)
                } else if append && m.len + data@.len() > usize::MAX {
                    r == Err::<usize, VfsError>(VfsError::OffsetOverflow)
                } else {
                    &&& r == Ok::<usize, VfsError>(data@.len() as usize)
                    &&& final(vfs).resolution(c) == Ok::<Inode, VfsError>(m.inode)
                    &&& final(vfs).filesystem_at(i).contents(m.inode) == if append {
                        fs.contents(m.inode) + data@
                    } else {
                        data@
                    }
                },
                Err(VfsError::NotFound) => true,
                Err(e) => r == Err::<usize, VfsError>(e),
            }
        }),
        normalized_components(seq!['/'], path@) matches Ok(c) ==> ({
            let i = old(vfs).served_by(c);
            let fs = old(vfs).filesystem_at(i);
            (append && r is Ok) ==> (old(vfs).metadata_at(c) matches Ok(m) ==> (m.kind == NodeKind::File
                && fs.write_kept(m.inode, m.len as int, data@.len() as int) ==> {
                &&& final(vfs).resolution(c) == Ok::<Inode, VfsError>(m.inode)
                &&& final(vfs).filesystem_at(i).contents(m.inode) == fs.contents(m.inode) + data@
            }))
        }),
{
    let ghost before = *vfs;
    let ghost mid = *vfs;
    let _length = data.len();
    let offset = match vfs.metadata(path) {
        Ok(metadata) => {
            if metadata.kind == NodeKind::Directory {
                return Err(VfsError::IsDirectory);
            }
            if append {
                if metadata.len > usize::MAX as u64 {
                    return Err(VfsError::OffsetOverflow);
                }
                proof {
                    let c = normalized_components(seq!['/'], path@)->Ok_0;
                    assert(before.filesystem_at(before.served_by(c)).contents(metadata.inode).len() == metadata.len);
                    assert(before.metadata_at(c) == Ok::<Metadata, VfsError>(metadata));
                }
                metadata.len as usize
            } else {
                vfs.truncate(path, 0)?;
                proof {
                    mid = *vfs;
                    let c = normalized_components(seq!['/'], path@)->Ok_0;
                    let i = before.served_by(c);
                    if before.filesystem_at(i).effects_stated() {
                        assert(mid.mount_points() == before.mount_points());
                        lemma_resolve_same(
                            before.filesystem_at(i),
                            mid.filesystem_at(i),
                            before.filesystem_at(i).root_spec(),
                            c.skip(before.mount_points()[i].len() as int),
                        );
                    }
                }
                0
            }
        },
        Err(VfsError::NotFound) => {
            vfs.create_file(path)?;
            0
        },
        Err(error) => return Err(error),
    };
    let ghost mid2 = *vfs;
    proof {
        if let Ok(c) = normalized_components(seq!['/'], path@) {
            let i = before.served_by(c);
            if before.filesystem_at(i).effects_stated() {
                if let Ok(m) = before.metadata_at(c) {
                    if m.kind != NodeKind::Directory {
                        assert(mid2.mount_points() == before.mount_points());
                        assert(mid2.served_by(c) == i);
                        assert(mid2.resolution(c) == Ok::<Inode, VfsError>(m.inode));
                        assert(mid2.filesystem_at(i).node_metadata(m.inode) matches Some(mm) && mm.kind
                            == NodeKind::File);
                        assert(mid2.filesystem_at(i).effects_stated());
                    }
                }
            }
        }
    }
    let result = vfs.write(path, offset, data);
    proof {
        if let Ok(c) = normalized_components(seq!['/'], path@) {
            let i = before.served_by(c);
            if before.filesystem_at(i).effects_stated() {
                if let Ok(m) = before.metadata_at(c) {
                    if m.kind != NodeKind::Directory && !(append && m.len + data@.len() > usize::MAX) {
                        assert(result is Ok);
                    }
                }
            }
        }
    }
    proof {
        if let Ok(c) = normalized_components(seq!['/'], path@) {
            let i = before.served_by(c);
            if before.filesystem_at(i).effects_stated() && result is Ok {
                if let Ok(m) = before.metadata_at(c) {
                    if m.kind != NodeKind::Directory {
                        assert(mid2.mount_points() == before.mount_points());
                        lemma_resolve_same(
                            mid2.filesystem_at(i),
                            vfs.filesystem_at(i),
                            mid2.filesystem_at(i).root_spec(),
                            c.skip(before.mount_points()[i].len() as int),
                        );
                        if append {
                            assert(written(before.filesystem_at(i).contents(m.inode), m.len as int, data@)
                                =~= before.filesystem_at(i).contents(m.inode) + data@);
                        } else {
                            assert(written(resized(before.filesystem_at(i).contents(m.inode), 0), 0, data@) =~= data@);
                        }
                    }
                }
            }
        }
    }
    proof {
        if let Ok(c) = normalized_components(seq!['/'], path@) {
            let i = before.served_by(c);
            if append && result is Ok {
                if let Ok(m) = before.metadata_at(c) {
                    if m.kind == NodeKind::File && before.filesystem_at(i).write_kept(m.inode, m.len as int, data@.len() as int) {
                        assert(mid2 == before);
                        assert(offset == m.len);
                        law_kept_write_then_read(before, *vfs, c, offset, data@, result);
                        assert(written(before.filesystem_at(i).contents(m.inode), m.len as int, data@)
                            =~= before.filesystem_at(i).contents(m.inode) + data@);
                    }
                }
            }
        }
    }
    result
}

/// Makes sure a file exists at `path`, creating an empty one where nothing
/// is; a directory there is an error.
pub fn touch<F: FileSystem>(vfs: &mut Vfs<F>, path: &str) -> (r: Result<(), VfsError>)
    requires
        old(vfs).wf(),
    ensures
        touched(*old(vfs), *final(vfs), path@),
        normalized_components(seq!['/'], path@) matches Err(e) ==> r == Err::<(), VfsError>(e),
        normalized_components(seq!['/'], path@) matches Ok(c) ==> match old(vfs).metadata_at(c) {
            Ok(m) => if m.kind == NodeKind::File {
                r is Ok && *final(vfs) == *old(vfs)
            } else {
                r == Err::<(), VfsError>(VfsError::IsDirectory)
            },
            Err(VfsError::NotFound) => exists|made: Result<Option<Metadata>, VfsError>|
                    #[trigger] vfs_entry_answer(*old(vfs), *final(vfs), c, 0, made) && (made is Ok <==> r is Ok) && (made matches Err(e) ==> r == Err::<(), VfsError>(e)),
            Err(e) => r == Err::<(), VfsError>(e),
        },
{
    match vfs.metadata(path) {
        Ok(metadata) => {
            if metadata.kind == NodeKind::File {
                Ok(())
            } else {
                Err(VfsError::IsDirectory)
            }
        },
        Err(VfsError::NotFound) => {
            let made = vfs.create_file(path);
            proof {
                if let Ok(c) = normalized_components(seq!['/'], path@) {
                    let m = match made {
                        Ok(md) => Ok::<Option<Metadata>, VfsError>(Some(md)),
                        Err(e) => Err(e),
                    };
                    assert(vfs_entry_answer(*old(vfs), *vfs, c, 0, m));
                }
            }
            match made {
                Ok(_) => Ok(()),
                Err(e) => Err(e),
            }
        },
        Err(error) => Err(error),
    }
}

/// Creates a directory at `path`.
pub fn mkdir<F: FileSystem>(vfs: &mut Vfs<F>, path: &str) -> (r: Result<(), VfsError>)
    requires
        old(vfs).wf(),
    ensures
        touched(*old(vfs), *final(vfs), path@),
        match normalized_components(seq!['/'], path@) {
            Err(e) => r == Err::<(), VfsError>(e),
            Ok(c) => c.len() == old(vfs).mount_points()[old(vfs).served_by(c)].len() ==> r == Err::<
                (),
                VfsError,
            >(VfsError::RootImmutable),
        },
        normalized_components(seq!['/'], path@) matches Ok(c) ==> exists|made: Result<Option<Metadata>, VfsError>|
            #[trigger] vfs_entry_answer(*old(vfs), *final(vfs), c, 1, made) && (made is Ok <==> r is Ok) && (made matches Err(e) ==> r == Err::<(), VfsError>(e)),
{
    let made = vfs.create_dir(path);
    proof {
        if let Ok(c) = normalized_components(seq!['/'], path@) {
            let m = match made {
                Ok(md) => Ok::<Option<Metadata>, VfsError>(Some(md)),
                Err(e) => Err(e),
            };
            assert(vfs_entry_answer(*old(vfs), *vfs, c, 1, m));
        }
    }
    match made {
        Ok(_) => Ok(()),
        Err(e) => Err(e),
    }
}

/// Puts `data` in the file at `path` in place of what it held, creating the
/// file where nothing is; anything else there is an error.
/// What putting `data` in the file at `path` answers and leaves, from
/// `before` to `after`: only what serves the path changes; where that
/// filesystem states its effects, an existing file comes to hold exactly
/// `data` at the same node, anything else there is `AlreadyExists`, and the
/// path's other errors are answered as they are.
pub open spec fn replace_outcome<F: FileSystem>(before: Vfs<F>, after: Vfs<F>, path: Seq<char>, data: Seq<u8>, r: Result<(), VfsError>) -> bool {
    &&& touched(before, after, path)
    &&& normalized_components(seq!['/'], path) matches Err(e) ==> r == Err::<(), VfsError>(e)
    &&& normalized_components(seq!['/'], path) matches Ok(c) ==> ({
        let i = before.served_by(c);
        let fs = before.filesystem_at(i);
        fs.effects_stated() ==> match before.metadata_at(c) {
            Ok(m) => if m.kind != NodeKind::File {
                r == Err::<(), VfsError>(VfsError::AlreadyExists)
            } else {
                &&& r is Ok
                &&& after.resolution(c) == Ok::<Inode, VfsError>(m.inode)
                &&& after.filesystem_at(i).contents(m.inode) == data
            },
            Err(VfsError::NotFound) => true,
            Err(e) => r == Err::<(), VfsError>(e),
        }
    })
}

/// What making sure a directory exists at `path` answers and leaves, from
/// `before` to `after`: only what serves the path changes; where that
/// filesystem states its effects, an existing directory is kept as it is,
/// anything else there is `AlreadyExists`, a missing one is created as
/// `Vfs::create_dir` does, and the path's other errors are answered as they
/// are.
pub open spec fn dir_outcome<F: FileSystem>(before: Vfs<F>, after: Vfs<F>, path: Seq<char>, r: Result<(), VfsError>) -> bool {
    &&& touched(before, after, path)
    &&& normalized_components(seq!['/'], path) matches Err(e) ==> r == Err::<(), VfsError>(e)
    &&& normalized_components(seq!['/'], path) matches Ok(c) ==> ({
        let fs = before.filesystem_at(before.served_by(c));
        fs.effects_stated() ==> match before.metadata_at(c) {
            Ok(m) => if m.kind == NodeKind::Directory {
                r is Ok && after == before
            } else {
                r == Err::<(), VfsError>(VfsError::AlreadyExists)
            },
            Err(VfsError::NotFound) => exists|made: Result<Option<Metadata>, VfsError>|
                #[trigger] vfs_entry_answer(before, after, c, 1, made) && (made is Ok <==> r is Ok) && (made matches Err(
                    e,
                ) ==> r == Err::<(), VfsError>(e)),
            Err(e) => r == Err::<(), VfsError>(e),
        }
    })
}

pub fn replace_file<F: FileSystem>(vfs: &mut Vfs<F>, path: &str, data: &[u8]) -> (r: Result<(), VfsError>)
    requires
        old(vfs).wf(),
    ensures
        replace_outcome(*old(vfs), *final(vfs), path@, data@, r),
{
    let ghost before = *vfs;
    let _length = data.len();
    match vfs.metadata(path) {
        Ok(metadata) => {
            if metadata.kind == NodeKind::File {
                vfs.truncate(path, 0)?;
                proof {
                    let c = normalized_components(seq!['/'], path@)->Ok_0;
                    let i = before.served_by(c);
                    if before.filesystem_at(i).effects_stated() {
                        assert(vfs.mount_points() == before.mount_points());
                        lemma_resolve_same(
                            before.filesystem_at(i),
                            vfs.filesystem_at(i),
                            before.filesystem_at(i).root_spec(),
                            c.skip(before.mount_points()[i].len() as int),
                        );
                        assert(vfs.served_by(c) == i);
                        assert(vfs.resolution(c) == Ok::<Inode, VfsError>(metadata.inode));
                    }
                }
            } else {
                return Err(VfsError::AlreadyExists);
            }
        },
        Err(VfsError::NotFound) => {
            vfs.create_file(path)?;
        },
        Err(error) => return Err(error),
    }
    let ghost mid = *vfs;
    let result = vfs.write(path, 0, data);
    proof {
        if let Ok(c) = normalized_components(seq!['/'], path@) {
            let i = before.served_by(c);
            if before.filesystem_at(i).effects_stated() {
                if let Ok(m) = before.metadata_at(c) {
                    if m.kind == NodeKind::File {
                        assert(mid.mount_points() == before.mount_points());
                        assert(mid.served_by(c) == i);
                        if result is Ok {
                            lemma_resolve_same(
                                mid.filesystem_at(i),
                                vfs.filesystem_at(i),
                                mid.filesystem_at(i).root_spec(),
                                c.skip(before.mount_points()[i].len() as int),
                            );
                            assert(written(resized(before.filesystem_at(i).contents(m.inode), 0), 0, data@) =~= data@);
                        }
                    }
                }
            }
        }
    }
    match result {
        Ok(_) => Ok(()),
        Err(e) => Err(e),
    }
}

/// Makes sure a directory exists at `path`; a file there is an error.
pub fn ensure_dir<F: FileSystem>(vfs: &mut Vfs<F>, path: &str) -> (r: Result<(), VfsError>)
    requires
        old(vfs).wf(),
    ensures
        dir_outcome(*old(vfs), *final(vfs), path@, r),
{
    match vfs.metadata(path) {
        Ok(metadata) => {
            if metadata.kind == NodeKind::Directory {
                Ok(())
            } else {
                Err(VfsError::AlreadyExists)
            }
        },
        Err(VfsError::NotFound) => {
            let made = vfs.create_dir(path);
            proof {
                if let Ok(c) = normalized_components(seq!['/'], path@) {
                    let m = match made {
                        Ok(md) => Ok::<Option<Metadata>, VfsError>(Some(md)),
                        Err(e) => Err(e),
                    };
                    assert(vfs_entry_answer(*old(vfs), *vfs, c, 1, m));
                }
            }
            match made {
                Ok(_) => Ok(()),
                Err(e) => Err(e),
            }
        },
        Err(error) => Err(error),
    }
}


/// Why the kernel's file tree could not be set up at boot.
#[derive(Clone, Copy, Debug, PartialEq, Eq, Structural)]
pub enum BootError {
    /// A VFS operation failed.
    Vfs(VfsError),
    /// What the self-check wrote did not read back.
    ReadbackMismatch,
    /// The self-check's file was missing from its directory's listing.
    ListingMissing,
    /// The persistent volume's marker is not a file.
    MarkerNotFile,
    /// The persistent volume's marker holds something else.
    MarkerCorrupted,
}

/// The directories the root filesystem starts with.
pub open spec fn root_directories() -> Seq<Seq<char>> {
    seq!["/bin"@, "/dev"@, "/etc"@, "/home"@, "/mnt"@, "/tmp"@]
}

/// Creates the directories the root filesystem starts with, stopping at the
/// first failure.
pub fn create_root_directories<F: FileSystem>(vfs: &mut Vfs<F>) -> (r: Result<(), VfsError>)
    requires
        old(vfs).wf(),
    ensures
        final(vfs).wf(),
        final(vfs).mount_points() == old(vfs).mount_points(),
{
    let paths: [&str; 6] = ["/bin", "/dev", "/etc", "/home", "/mnt", "/tmp"];
    let mut k: usize = 0;
    while k < 6
        invariant
            vfs.wf(),
            vfs.mount_points() == old(vfs).mount_points(),
        decreases 6 - k,
    {
        vfs.create_dir(paths[k])?;
        k = k + 1;
    }
    Ok(())
}

/// The self-check of a fresh root filesystem: makes a directory and a file
/// in `/tmp`, writes and reads the file back, finds it in the listing, then
/// removes both.
pub fn verify_ramfs<F: FileSystem>(vfs: &mut Vfs<F>) -> (r: Result<(), BootError>)
    requires
        old(vfs).wf(),
    ensures
        final(vfs).wf(),
        final(vfs).mount_points() == old(vfs).mount_points(),
{
    let dir = "/tmp/.vfs-smoke";
    let file = "/tmp/.vfs-smoke/probe";
    let probe: [u8; 11] = [0x67, 0x65, 0x6e, 0x65, 0x72, 0x69, 0x63, 0x2d, 0x76, 0x66, 0x73];
    if let Err(e) = vfs.create_dir(dir) {
        return Err(BootError::Vfs(e));
    }
    if let Err(e) = vfs.create_file(file) {
        return Err(BootError::Vfs(e));
    }
    if let Err(e) = vfs.write(file, 0, &probe) {
        return Err(BootError::Vfs(e));
    }
    let data = match vfs.read_all(file) {
        Ok(data) => data,
        Err(e) => {
            return Err(BootError::Vfs(e));
        },
    };
    if data.len() != 11 {
        return Err(BootError::ReadbackMismatch);
    }
    let mut k: usize = 0;
    while k < 11
        invariant
            data@.len() == 11,
            vfs.wf(),
            vfs.mount_points() == old(vfs).mount_points(),
        decreases 11 - k,
    {
        if data[k] != probe[k] {
            return Err(BootError::ReadbackMismatch);
        }
        k = k + 1;
    }
    let entries = match vfs.read_dir(dir) {
        Ok(entries) => entries,
        Err(e) => {
            return Err(BootError::Vfs(e));
        },
    };
    let mut found = false;
    let mut j: usize = 0;
    while j < entries.len()
        invariant
            j <= entries@.len(),
            vfs.wf(),
            vfs.mount_points() == old(vfs).mount_points(),
        decreases entries@.len() - j,
    {
        if crate::genericfs::string_equals(&entries[j].name, "probe") {
            found = true;
        }
        j = j + 1;
    }
    if !found {
        return Err(BootError::ListingMissing);
    }
    if let Err(e) = vfs.remove(file) {
        return Err(BootError::Vfs(e));
    }
    if let Err(e) = vfs.remove(dir) {
        return Err(BootError::Vfs(e));
    }
    Ok(())
}

/// The bytes that mark a persistent volume.
pub open spec fn persistent_marker() -> Seq<u8> {
    seq![
        0x67u8, 0x65, 0x6e, 0x65, 0x72, 0x69, 0x63, 0x2d, 0x70, 0x65, 0x72, 0x73, 0x69, 0x73, 0x74, 0x65, 0x6e, 0x74,
        0x2d, 0x76, 0x31,
    ]
}

/// Checks the marker of the persistent volume mounted at `/mnt`, writing it
/// when the volume has none: `Ok(true)` when a marker with the right bytes
/// was found (the volume was recovered), `Ok(false)` when it was written.
pub fn check_persistent_marker<F: FileSystem>(vfs: &mut Vfs<F>) -> (r: Result<bool, BootError>)
    requires
        old(vfs).wf(),
    ensures
        final(vfs).wf(),
        final(vfs).mount_points() == old(vfs).mount_points(),
        r == Ok::<bool, BootError>(true) ==> *final(vfs) == *old(vfs) && (normalized_components(
            seq!['/'],
            "/mnt/.generic-persist"@,
        ) matches Ok(c) && ({
            let fs = old(vfs).filesystem_at(old(vfs).served_by(c));
            &&& old(vfs).resolved(c) is Some
            &&& fs.contents(old(vfs).resolved(c)->Some_0) == persistent_marker()
        })),
        normalized_components(seq!['/'], "/mnt/.generic-persist"@) matches Ok(c) ==> match old(vfs).metadata_at(c) {
            Err(VfsError::NotFound) => r != Ok::<bool, BootError>(true),
            Err(e) => r == Err::<bool, BootError>(BootError::Vfs(e)) && *final(vfs) == *old(vfs),
            Ok(m) => *final(vfs) == *old(vfs) && if m.kind != NodeKind::File {
                r == Err::<bool, BootError>(BootError::MarkerNotFile)
            } else {
                r != Ok::<bool, BootError>(false)
            },
        },
{
    let path = "/mnt/.generic-persist";
    let marker: [u8; 21] = [
        0x67, 0x65, 0x6e, 0x65, 0x72, 0x69, 0x63, 0x2d, 0x70, 0x65, 0x72, 0x73, 0x69, 0x73, 0x74, 0x65, 0x6e, 0x74,
        0x2d, 0x76, 0x31,
    ];
    match vfs.metadata(path) {
        Ok(metadata) => {
            if metadata.kind != NodeKind::File {
                return Err(BootError::MarkerNotFile);
            }
            let contents = match vfs.read_all(path) {
                Ok(contents) => contents,
                Err(e) => {
                    return Err(BootError::Vfs(e));
                },
            };
            if contents.len() != 21 {
                return Err(BootError::MarkerCorrupted);
            }
            proof {
                assert(marker@ =~= persistent_marker());
            }
            let mut k: usize = 0;
            while k < 21
                invariant
                    contents@.len() == 21,
                    marker@ == persistent_marker(),
                    vfs.wf(),
                    *vfs == *old(vfs),
                    forall|i: int| 0 <= i < k ==> contents@[i] == marker@[i],
                    normalized_components(seq!['/'], "/mnt/.generic-persist"@) matches Ok(c) ==> (old(
                        vfs,
                    ).metadata_at(c) matches Ok(m) && m.kind == NodeKind::File),
                decreases 21 - k,
            {
                if contents[k] != marker[k] {
                    return Err(BootError::MarkerCorrupted);
                }
                k = k + 1;
            }
            proof {
                assert(contents@ =~= persistent_marker());
            }
            Ok(true)
        },
        Err(VfsError::NotFound) => {
            if let Err(e) = vfs.create_file(path) {
                return Err(BootError::Vfs(e));
            }
            if let Err(e) = vfs.write(path, 0, &marker) {
                return Err(BootError::Vfs(e));
            }
            Ok(false)
        },
        Err(e) => Err(BootError::Vfs(e)),
    }
}
} // verus!
