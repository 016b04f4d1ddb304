//! The boot archive: the files and directories the root filesystem starts
//! with.
//!
//! An archive is the four bytes "GIR1" and a list of entries ending with a
//! zero byte. An entry is a kind byte (1 a file, 2 a directory), the length
//! of its path (16 bits) and of its data (32 bits), little-endian, the path
//! (UTF-8, relative to the root) and, for a file, its data.

use crate::bytes::{get_u16, get_u32, le16, le32};
use crate::files::{dir_outcome, ensure_dir, replace_file, replace_outcome, touched};
use crate::genericfs::str_from_utf8;
use crate::vfs::{FileSystem, Vfs, VfsError};
use vstd::prelude::*;
use vstd::string::StringExecFns;
use vstd::utf8::valid_utf8;

verus! {

/// One entry of an archive.
pub struct ArchiveEntry {
    pub kind: u8,
    pub path: Seq<u8>,
    pub data: Seq<u8>,
}

/// The entry at offset `o` and the offset after it; `None` at the end
/// marker; `Err` where the archive is malformed there.
pub open spec fn archive_entry(a: Seq<u8>, o: int) -> Result<Option<(ArchiveEntry, int)>, ()> {
    if o < 0 || o >= a.len() {
        Err(())
    } else if a[o] == 0 {
        Ok(None)
    } else if o + 7 > a.len() {
        Err(())
    } else {
        let path_len = le16(a, o + 1);
        let data_len = le32(a, o + 3);
        let p = o + 7;
        if p + path_len > a.len() {
            Err(())
        } else {
            let path = a.subrange(p, p + path_len);
            if !valid_utf8(path) {
                Err(())
            } else if a[o] == 1 {
                let d = p + path_len;
                if d + data_len > a.len() {
                    Err(())
                } else {
                    Ok(Some((ArchiveEntry { kind: 1, path, data: a.subrange(d, d + data_len) }, d + data_len)))
                }
            } else if a[o] == 2 {
                if data_len != 0 {
                    Err(())
                } else {
                    Ok(Some((ArchiveEntry { kind: 2, path, data: Seq::empty() }, p + path_len)))
                }
            } else {
                Err(())
            }
        }
    }
}

/// The entries from offset `o` to the end marker.
pub open spec fn archive_list(a: Seq<u8>, o: int) -> Result<Seq<ArchiveEntry>, ()>
    decreases a.len() - o,
{
    match archive_entry(a, o) {
        Err(_) => Err(()),
        Ok(None) => Ok(Seq::empty()),
        Ok(Some((e, next))) => if next <= o || next > a.len() {
            Err(())
        } else {
            match archive_list(a, next) {
                Err(_) => Err(()),
                Ok(rest) => Ok(seq![e] + rest),
            }
        },
    }
}

/// The archive starts with "GIR1" and holds more than its magic.
pub open spec fn archive_header_ok(a: Seq<u8>) -> bool {
    &&& a.len() >= 5
    &&& a[0] == 0x47 && a[1] == 0x49 && a[2] == 0x52 && a[3] == 0x31
}

/// The number of files among `s`.
pub open spec fn file_count(s: Seq<ArchiveEntry>) -> nat
    decreases s.len(),
{
    if s.len() == 0 {
        0
    } else {
        file_count(s.drop_first()) + if s[0].kind == 1 {
            1nat
        } else {
            0nat
        }
    }
}

/// The absolute path of archive entry `e`.
pub open spec fn entry_path(e: ArchiveEntry) -> Seq<char> {
    seq!['/'] + vstd::utf8::decode_utf8(e.path)
}

/// Putting entry `e` into the VFS took it from `before` to `after`,
/// answering `r`: a file given the entry's data as `replace_file` does, a
/// directory made sure of as `ensure_dir` does.
pub open spec fn entry_outcome<F: FileSystem>(before: Vfs<F>, after: Vfs<F>, e: ArchiveEntry, r: Result<(), VfsError>) -> bool {
    if e.kind == 1 {
        replace_outcome(before, after, entry_path(e), e.data, r)
    } else {
        dir_outcome(before, after, entry_path(e), r)
    }
}

/// Entry `e` was put into the VFS, taking it from `before` to `after`.
pub open spec fn entry_applied<F: FileSystem>(before: Vfs<F>, after: Vfs<F>, e: ArchiveEntry) -> bool {
    entry_outcome(before, after, e, Ok(()))
}

/// The well-formed entries from offset `o` on, up to the end marker or to
/// the first malformed place, whichever comes first.
pub open spec fn walk_prefix(a: Seq<u8>, o: int) -> Seq<ArchiveEntry>
    decreases a.len() - o,
{
    match archive_entry(a, o) {
        Ok(Some((e, next))) => if next <= o || next > a.len() {
            Seq::empty()
        } else {
            seq![e] + walk_prefix(a, next)
        },
        _ => Seq::empty(),
    }
}

/// Unpacking archive `a` failed with `err`, taking the VFS from `before` to
/// `after`: the first `k` well-formed entries were put in, in order; then
/// either the archive is malformed right after them and the answer is
/// `CorruptFilesystem`, or putting in entry `k` failed with `err`.
pub open spec fn unpack_failed<F: FileSystem>(before: Vfs<F>, after: Vfs<F>, a: Seq<u8>, err: VfsError) -> bool {
    let prefix = walk_prefix(a, 4);
    exists|k: int, states: Seq<Vfs<F>>|
        0 <= k <= prefix.len() && #[trigger] applied_in_order(states, before, states.last(), prefix.take(k)) && if k
            == prefix.len() {
            &&& archive_list(a, 4) is Err
            &&& err == VfsError::CorruptFilesystem
            &&& after == states.last()
        } else {
            entry_outcome(states.last(), after, prefix[k], Err(err))
        }
}

/// `states` runs from `before` to `after` through the entries `list`, each
/// put into the VFS in order.
pub open spec fn applied_in_order<F: FileSystem>(states: Seq<Vfs<F>>, before: Vfs<F>, after: Vfs<F>, list: Seq<ArchiveEntry>) -> bool {
    &&& states.len() == list.len() + 1
    &&& states[0] == before
    &&& states.last() == after
    &&& forall|k: int| 0 <= k < list.len() ==> #[trigger] entry_applied(states[k], states[k + 1], list[k])
}

/// The entries `list` were put into the VFS in order, taking it from
/// `before` to `after`.
pub open spec fn unpacked<F: FileSystem>(before: Vfs<F>, after: Vfs<F>, list: Seq<ArchiveEntry>) -> bool {
    exists|states: Seq<Vfs<F>>| #[trigger] applied_in_order(states, before, after, list)
}

/// An entry was read from an archive.
pub struct Entry {
    pub kind: u8,
    pub path: String,
    pub data_start: usize,
    pub data_len: usize,
    pub next: usize,
}

/// Reads the entry at `offset`; `None` at the end marker.
pub fn read_entry(archive: &[u8], offset: usize) -> (r: Result<Option<Entry>, VfsError>)
    ensures
        match archive_entry(archive@, offset as int) {
            Err(_) => r == Err::<Option<Entry>, VfsError>(VfsError::CorruptFilesystem),
            Ok(None) => r matches Ok(None),
            Ok(Some((e, next))) => r matches Ok(Some(got)) && {
                &&& got.kind == e.kind
                &&& got.path@ == seq!['/'] + vstd::utf8::decode_utf8(e.path)
                &&& got.next == next
                &&& got.data_start + got.data_len <= archive@.len()
                &&& archive@.subrange(got.data_start as int, got.data_start + got.data_len) == e.data
            },
        },
{
    if offset >= archive.len() {
        return Err(VfsError::CorruptFilesystem);
    }
    let kind = archive[offset];
    if kind == 0 {
        return Ok(None);
    }
    if archive.len() - offset < 7 {
        return Err(VfsError::CorruptFilesystem);
    }
    let path_len = get_u16(archive, offset + 1) as usize;
    let data_len = get_u32(archive, offset + 3) as usize;
    let path_start = offset + 7;
    if archive.len() - path_start < path_len {
        return Err(VfsError::CorruptFilesystem);
    }
    let path_bytes = slice_range(archive, path_start, path_len);
    let text = match str_from_utf8(path_bytes) {
        Some(text) => text,
        None => return Err(VfsError::CorruptFilesystem),
    };
    let mut path = "/".to_owned();
    path.append(text);
    proof {
        reveal_strlit("/");
    }
    let data_start = path_start + path_len;
    if kind == 1 {
        if archive.len() - data_start < data_len {
            return Err(VfsError::CorruptFilesystem);
        }
        Ok(Some(Entry { kind, path, data_start, data_len, next: data_start + data_len }))
    } else if kind == 2 {
        if data_len != 0 {
            return Err(VfsError::CorruptFilesystem);
        }
        proof {
            assert(archive@.subrange(data_start as int, data_start as int) =~= Seq::<u8>::empty());
        }
        Ok(Some(Entry { kind, path, data_start, data_len: 0, next: data_start }))
    } else {
        Err(VfsError::CorruptFilesystem)
    }
}

/// The `len` bytes of `data` from `start` on.
fn slice_range(data: &[u8], start: usize, len: usize) -> (r: &[u8])
    requires
        start + len <= data@.len(),
    ensures
        r@ == data@.subrange(start as int, start + len),
{
    let _total = data.len();
    vstd::slice::slice_subrange(data, start, start + len)
}

/// Fills `vfs` from `archive`: each file is created (or emptied) and given
/// its data, each directory created where missing. Gives the number of
/// files.
pub fn unpack<F: FileSystem>(vfs: &mut Vfs<F>, archive: &[u8]) -> (r: Result<usize, VfsError>)
    requires
        old(vfs).wf(),
    ensures
        final(vfs).wf(),
        final(vfs).mount_points() == old(vfs).mount_points(),
        !archive_header_ok(archive@) ==> r == Err::<usize, VfsError>(VfsError::CorruptFilesystem)
            && *final(vfs) == *old(vfs),
        archive_header_ok(archive@) && archive_list(archive@, 4) is Err ==> r is Err,
        archive_header_ok(archive@) ==> (r matches Err(e) ==> unpack_failed(*old(vfs), *final(vfs), archive@, e)),
        r matches Ok(n) ==> archive_list(archive@, 4) matches Ok(list) && n == file_count(list) && unpacked(
            *old(vfs),
            *final(vfs),
            list,
        ),
        archive_header_ok(archive@) && archive_list(archive@, 4) == Ok::<Seq<ArchiveEntry>, ()>(Seq::empty()) ==> r
            == Ok::<usize, VfsError>(0) && *final(vfs) == *old(vfs),
{
    if archive.len() < 5 || archive[0] != 0x47 || archive[1] != 0x49 || archive[2] != 0x52 || archive[3] != 0x31 {
        return Err(VfsError::CorruptFilesystem);
    }
    let mut offset: usize = 4;
    let mut files: usize = 0;
    let ghost a = archive@;
    let ghost before = *vfs;
    let ghost mut done: Seq<ArchiveEntry> = Seq::empty();
    let ghost mut states: Seq<Vfs<F>> = seq![before];
    loop
        invariant
            a == archive@,
            vfs.wf(),
            vfs.mount_points() == before.mount_points(),
            before == *old(vfs),
            archive_header_ok(a),
            4 <= offset <= a.len(),
            files <= offset,
            archive_list(a, 4) is Ok <==> archive_list(a, offset as int) is Ok,
            archive_list(a, offset as int) matches Ok(rest) ==> file_count(archive_list(a, 4)->Ok_0)
                == files + file_count(rest),
            archive_list(a, offset as int) matches Ok(rest) ==> archive_list(a, 4) == Ok::<Seq<ArchiveEntry>, ()>(
                done + rest,
            ),
            applied_in_order(states, before, *vfs, done),
            offset == 4 ==> done.len() == 0 && *vfs == before,
            walk_prefix(a, 4) == done + walk_prefix(a, offset as int),
        decreases a.len() - offset,
    {
        let entry = match read_entry(archive, offset) {
            Ok(Some(entry)) => entry,
            Ok(None) => {
                proof {
                    assert(archive_list(a, offset as int) == Ok::<Seq<ArchiveEntry>, ()>(Seq::empty()));
                    assert(done + Seq::<ArchiveEntry>::empty() =~= done);
                    assert(applied_in_order(states, before, *vfs, done));
                }
                return Ok(files);
            },
            Err(e) => {
                proof {
                    let prefix = walk_prefix(a, 4);
                    assert(walk_prefix(a, offset as int) =~= Seq::<ArchiveEntry>::empty());
                    assert(prefix =~= done);
                    assert(prefix.take(done.len() as int) =~= done);
                    assert(archive_list(a, offset as int) is Err);
                    assert(applied_in_order(states, before, states.last(), prefix.take(done.len() as int)));
                }
                return Err(e);
            },
        };
        let ghost e = archive_entry(a, offset as int)->Ok_0->Some_0.0;
        proof {
            assert(walk_prefix(a, offset as int) == seq![e] + walk_prefix(a, entry.next as int));
        }
        proof {
            match archive_list(a, entry.next as int) {
                Ok(rest) => {
                    assert(archive_list(a, offset as int) == Ok::<Seq<ArchiveEntry>, ()>(seq![e] + rest));
                    assert((seq![e] + rest).drop_first() =~= rest);
                    assert((seq![e] + rest)[0] == e);
                },
                Err(_) => {},
            }
        }
        let ghost mid = *vfs;
        let outcome = if entry.kind == 1 {
            let data = slice_range(archive, entry.data_start, entry.data_len);
            replace_file(vfs, entry.path.as_str(), data)
        } else {
            ensure_dir(vfs, entry.path.as_str())
        };
        proof {
            assert(entry_outcome(mid, *vfs, e, outcome));
        }
        if let Err(error) = outcome {
            proof {
                let prefix = walk_prefix(a, 4);
                let k = done.len() as int;
                assert(prefix == done + (seq![e] + walk_prefix(a, entry.next as int)));
                assert(prefix.take(k) =~= done);
                assert(prefix[k] == e);
                assert(states.last() == mid);
                assert(applied_in_order(states, before, states.last(), prefix.take(k)));
            }
            return Err(error);
        }
        if entry.kind == 1 {
            files = files + 1;
        }
        proof {
            assert(entry_applied(mid, *vfs, e));
            let extended = done.push(e);
            let grown = states.push(*vfs);
            assert forall|k: int| 0 <= k < extended.len() implies #[trigger] entry_applied(grown[k], grown[k + 1], extended[k]) by {
                if k < done.len() {
                    assert(entry_applied(states[k], states[k + 1], done[k]));
                }
            }
            assert(applied_in_order(grown, before, *vfs, extended));
            if let Ok(rest) = archive_list(a, entry.next as int) {
                assert(done + (seq![e] + rest) =~= extended + rest);
            }
            assert(done + (seq![e] + walk_prefix(a, entry.next as int)) =~= extended + walk_prefix(a, entry.next as int));
            states = grown;
            done = extended;
        }
        offset = entry.next;
    }
}

} // verus!
