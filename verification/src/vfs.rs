//! The virtual filesystem: node metadata, the backend contract and the
//! mount table with its pathname routing.

use crate::path::{chars_of, join, name_error, normalize_parts, normalized_components, texts, validate_name};
use crate::ramfs::{resized, written};
pub use crate::path::normalize_path;
pub use crate::ramfs::RamFs;
use vstd::prelude::*;
use vstd::string::StrSliceExecFns;

verus! {

broadcast use vstd::string::group_string_axioms;

pub type Inode = u64;

#[derive(Debug, Clone, Copy, PartialEq, Eq, Structural)]
pub enum NodeKind {
    File,
    Directory,
}

#[derive(Debug, Clone, Copy, PartialEq, Eq, Structural)]
pub struct Metadata {
    pub inode: Inode,
    pub kind: NodeKind,
    pub len: u64,
}

#[derive(Debug, Clone, PartialEq, Eq)]
pub struct DirEntry {
    pub name: String,
    pub metadata: Metadata,
}

#[derive(Debug, Clone, PartialEq, Eq)]
pub struct MountInfo {
    pub path: String,
    pub filesystem: &'static str,
}

#[derive(Debug, Clone, Copy, PartialEq, Eq, Structural)]
pub enum VfsError {
    InvalidPath,
    InvalidName,
    NameTooLong,
    NotFound,
    AlreadyExists,
    NotDirectory,
    IsDirectory,
    DirectoryNotEmpty,
    RootImmutable,
    AlreadyMounted,
    MountPointNotDirectory,
    OffsetOverflow,
    InodeExhausted,
    Io,
    NoSpace,
    CorruptFilesystem,
}

/// The text that describes `e`.
pub open spec fn error_text(e: VfsError) -> Seq<char> {
    match e {
        VfsError::InvalidPath => "invalid path"@,
        VfsError::InvalidName => "invalid file name"@,
        VfsError::NameTooLong => "name or path too long"@,
        VfsError::NotFound => "no such file or directory"@,
        VfsError::AlreadyExists => "file or directory already exists"@,
        VfsError::NotDirectory => "not a directory"@,
        VfsError::IsDirectory => "is a directory"@,
        VfsError::DirectoryNotEmpty => "directory not empty"@,
        VfsError::RootImmutable => "cannot remove filesystem root"@,
        VfsError::AlreadyMounted => "mount point already has a filesystem"@,
        VfsError::MountPointNotDirectory => "mount point is not a directory"@,
        VfsError::OffsetOverflow => "file offset overflow"@,
        VfsError::InodeExhausted => "inode space exhausted"@,
        VfsError::Io => "filesystem I/O error"@,
        VfsError::NoSpace => "no space left on device"@,
        VfsError::CorruptFilesystem => "corrupt or unsupported filesystem"@,
    }
}

impl VfsError {
    /// A one-line description of the error.
    pub fn message(&self) -> (r: &'static str)
        ensures
            r@ == error_text(*self),
    {
        match self {
            VfsError::InvalidPath => "invalid path",
            VfsError::InvalidName => "invalid file name",
            VfsError::NameTooLong => "name or path too long",
            VfsError::NotFound => "no such file or directory",
            VfsError::AlreadyExists => "file or directory already exists",
            VfsError::NotDirectory => "not a directory",
            VfsError::IsDirectory => "is a directory",
            VfsError::DirectoryNotEmpty => "directory not empty",
            VfsError::RootImmutable => "cannot remove filesystem root",
            VfsError::AlreadyMounted => "mount point already has a filesystem",
            VfsError::MountPointNotDirectory => "mount point is not a directory",
            VfsError::OffsetOverflow => "file offset overflow",
            VfsError::InodeExhausted => "inode space exhausted",
            VfsError::Io => "filesystem I/O error",
            VfsError::NoSpace => "no space left on device",
            VfsError::CorruptFilesystem => "corrupt or unsupported filesystem",
        }
    }
}

/// `a` sorts strictly before `b`, comparing characters by code point.
pub open spec fn name_less(a: Seq<char>, b: Seq<char>) -> bool
    decreases a.len(),
{
    if b.len() == 0 {
        false
    } else if a.len() == 0 {
        true
    } else if a[0] != b[0] {
        (a[0] as u32) < (b[0] as u32)
    } else {
        name_less(a.drop_first(), b.drop_first())
    }
}

/// Names are never below themselves.
pub proof fn lemma_name_less_irreflexive(a: Seq<char>)
    ensures
        !name_less(a, a),
    decreases a.len(),
{
    if a.len() > 0 {
        lemma_name_less_irreflexive(a.drop_first());
    }
}

/// The name order is transitive.
pub proof fn lemma_name_less_transitive(a: Seq<char>, b: Seq<char>, c: Seq<char>)
    requires
        name_less(a, b),
        name_less(b, c),
    ensures
        name_less(a, c),
    decreases a.len(),
{
    if a.len() > 0 && b.len() > 0 && c.len() > 0 && a[0] == b[0] && b[0] == c[0] {
        lemma_name_less_transitive(a.drop_first(), b.drop_first(), c.drop_first());
    }
}

/// Two different names are ordered one way or the other.
pub proof fn lemma_name_less_total(a: Seq<char>, b: Seq<char>)
    requires
        a != b,
    ensures
        name_less(a, b) || name_less(b, a),
    decreases a.len(),
{
    if a.len() > 0 && b.len() > 0 {
        if a[0] == b[0] {
            if a.drop_first() == b.drop_first() {
                assert(a =~= seq![a[0]] + a.drop_first());
                assert(b =~= seq![b[0]] + b.drop_first());
            }
            lemma_name_less_total(a.drop_first(), b.drop_first());
        } else {
            assert((a[0] as u32) != (b[0] as u32)) by {
                vstd::utf8::char_u32_cast(a[0], a[0] as u32);
                vstd::utf8::char_u32_cast(b[0], b[0] as u32);
            }
        }
    } else if a.len() == 0 && b.len() == 0 {
        assert(a =~= b);
    }
}

/// The name order is asymmetric.
pub proof fn lemma_name_less_asymmetric(a: Seq<char>, b: Seq<char>)
    requires
        name_less(a, b),
    ensures
        !name_less(b, a),
{
    if name_less(b, a) {
        lemma_name_less_transitive(a, b, a);
        lemma_name_less_irreflexive(a);
    }
}

/// Whether `a` sorts strictly before `b`.
pub fn compare_less(a: &Vec<char>, b: &Vec<char>) -> (r: bool)
    ensures
        r == name_less(a@, b@),
{
    let mut i: usize = 0;
    assert(a@.skip(0) =~= a@);
    assert(b@.skip(0) =~= b@);
    while i < a.len() && i < b.len()
        invariant
            i <= a@.len(),
            i <= b@.len(),
            a@.take(i as int) == b@.take(i as int),
            name_less(a@, b@) == name_less(a@.skip(i as int), b@.skip(i as int)),
        decreases a@.len() - i,
    {
        if a[i] != b[i] {
            proof {
                vstd::utf8::char_u32_cast(a@[i as int], a@[i as int] as u32);
                vstd::utf8::char_u32_cast(b@[i as int], b@[i as int] as u32);
            }
            return (a[i] as u32) < (b[i] as u32);
        }
        proof {
            assert(a@.skip(i as int).drop_first() =~= a@.skip(i + 1));
            assert(b@.skip(i as int).drop_first() =~= b@.skip(i + 1));
            assert(a@.take(i + 1) =~= a@.take(i as int).push(a@[i as int]));
            assert(b@.take(i + 1) =~= b@.take(i as int).push(b@[i as int]));
        }
        i = i + 1;
    }
    i < b.len()
}

/// The name and metadata a directory entry reports.
pub open spec fn entry_view(e: DirEntry) -> (Seq<char>, Metadata) {
    (e.name@, e.metadata)
}

/// The bytes a read of `count` bytes from `offset` places in the buffer:
/// `count` is what the file holds from `offset` on, at most the buffer's
/// length, and the rest of the buffer keeps its bytes.
pub open spec fn read_window(
    contents: Seq<u8>,
    offset: int,
    before: Seq<u8>,
    after: Seq<u8>,
    count: int,
) -> bool {
    let available = if offset >= contents.len() {
        0
    } else {
        contents.len() - offset
    };
    &&& count == if before.len() < available {
        before.len() as int
    } else {
        available
    }
    &&& after.len() == before.len()
    &&& forall|k: int| 0 <= k < count ==> after[k] == contents[offset + k]
    &&& forall|k: int| count <= k < after.len() ==> after[k] == before[k]
}

/// Filesystem backend contract used by the Generic VFS.
///
/// Pathname parsing and mount routing stay in Vfs. Backends only operate on
/// inode-like object identities and directory child names. Each backend
/// describes its tree through the spec functions below; what an operation
/// returns on success agrees with them.
pub trait FileSystem: Sized {
    /// The metadata of `inode`, when it names a node.
    spec fn node_metadata(&self, inode: Inode) -> Option<Metadata>;

    /// The child called `name` of directory `parent`, when there is one.
    spec fn child(&self, parent: Inode, name: Seq<char>) -> Option<Inode>;

    /// The bytes of file `inode`.
    spec fn contents(&self, inode: Inode) -> Seq<u8>;

    /// The root directory.
    spec fn root_spec(&self) -> Inode;

    /// The name of the filesystem's kind.
    spec fn name_spec(&self) -> Seq<char>;

    /// What asking for the metadata of `inode` gives.
    spec fn metadata_spec(&self, inode: Inode) -> Result<Metadata, VfsError>;

    /// What looking up `name` in directory `parent` gives.
    spec fn lookup_spec(&self, parent: Inode, name: Seq<char>) -> Result<Inode, VfsError>;

    /// Whether this filesystem's contracts pin down what its mutations
    /// leave behind: answers, the tree and the files' bytes.
    spec fn effects_stated(&self) -> bool;

    /// How many more files and directories can surely be made: where the
    /// effects are stated, a create that is otherwise in order fails with
    /// `InodeExhausted` only when this is 0, and one that succeeds uses up
    /// at most one.
    spec fn inode_room(&self) -> nat;

    /// Whether a successful write of `n` bytes at `offset` into node
    /// `inode` is promised to leave the file holding exactly its old bytes
    /// with the new ones written in, and the directory tree as it was. A
    /// filesystem whose writes can fail part-way says here when it keeps
    /// that promise.
    spec fn write_kept(&self, inode: Inode, offset: int, n: int) -> bool;

    fn name(&self) -> (r: &'static str)
        ensures
            r@ == self.name_spec(),
    ;

    fn root_inode(&self) -> (r: Inode)
        ensures
            r == self.root_spec(),
    ;

    fn metadata(&self, inode: Inode) -> (r: Result<Metadata, VfsError>)
        ensures
            r == self.metadata_spec(inode),
            r is Ok ==> {
                let m = r->Ok_0;
                &&& self.node_metadata(inode) == Some(m)
                &&& m.inode == inode
                &&& m.kind == NodeKind::File ==> m.len == self.contents(inode).len()
            },
    ;

    fn lookup(&self, parent: Inode, name: &str) -> (r: Result<Inode, VfsError>)
        ensures
            r == self.lookup_spec(parent, name@),
            r is Ok ==> self.child(parent, name@) == Some(r->Ok_0),
    ;

    fn read_dir(&self, inode: Inode) -> (r: Result<Vec<DirEntry>, VfsError>)
        ensures
            self.effects_stated() ==> match self.node_metadata(inode) {
                None => r == Err::<Vec<DirEntry>, VfsError>(VfsError::NotFound),
                Some(m) => if m.kind != NodeKind::Directory {
                    r == Err::<Vec<DirEntry>, VfsError>(VfsError::NotDirectory)
                } else {
                    r is Ok && forall|n: Seq<char>|
                        #[trigger] self.child(inode, n) is Some ==> exists|k: int|
                            0 <= k < r->Ok_0@.len() && (#[trigger] r->Ok_0@[k]).name@ == n
                },
            },
            r is Ok ==> {
                let entries = r->Ok_0@;
                &&& forall|k: int|
                    0 <= k < entries.len() ==> {
                        let e = #[trigger] entries[k];
                        &&& self.child(inode, e.name@) is Some
                        &&& self.node_metadata(e.metadata.inode) == Some(e.metadata)
                    }
                &&& forall|j: int, k: int|
                    0 <= j < k < entries.len() ==> !name_less(
                        #[trigger] entries[k].name@,
                        #[trigger] entries[j].name@,
                    )
            },
    ;

    fn create_file(&mut self, parent: Inode, name: &str) -> (r: Result<Inode, VfsError>)
        ensures
            r is Ok ==> forall|offset: int, n: int| #[trigger] final(self).write_kept(r->Ok_0, offset, n),
            old(self).effects_stated() ==> match (if name_error(name@) is Some {
                name_error(name@)
            } else {
                match old(self).node_metadata(parent) {
                    None => Some(VfsError::NotFound),
                    Some(m) => if m.kind != NodeKind::Directory {
                        Some(VfsError::NotDirectory)
                    } else if old(self).child(parent, name@) is Some {
                        Some(VfsError::AlreadyExists)
                    } else {
                        None
                    },
                }
            }) {
                Some(e) => r == Err::<Inode, VfsError>(e) && *final(self) == *old(self),
                None => match r {
                    Err(e) => e == VfsError::InodeExhausted && old(self).inode_room() == 0 && *final(self) == *old(self),
                    Ok(i) => {
                        &&& old(self).node_metadata(i) is None
                        &&& final(self).inode_room() + 1 >= old(self).inode_room()
                        &&& final(self).effects_stated()
                        &&& final(self).root_spec() == old(self).root_spec()
                        &&& final(self).child(parent, name@) == Some(i)
                        &&& final(self).lookup_spec(parent, name@) == Ok::<Inode, VfsError>(i)
                        &&& final(self).node_metadata(i) == Some(Metadata { inode: i, kind: NodeKind::File, len: 0 })
                        &&& final(self).metadata_spec(i) == Ok::<Metadata, VfsError>(Metadata { inode: i, kind: NodeKind::File, len: 0 })
                        &&& final(self).contents(i).len() == 0
                        &&& forall|n: Seq<char>| #[trigger] final(self).child(i, n) is None
                        &&& (forall|p: Inode, n: Seq<char>| #![trigger final(self).lookup_spec(p, n)] #![trigger final(self).child(p, n)] old(self).node_metadata(p) is Some && p != i && !(p == parent && n == name@) ==> final(self).lookup_spec(p, n) == old(self).lookup_spec(p, n) && final(self).child(p, n) == old(self).child(p, n))
                        &&& (forall|k: Inode| #![trigger final(self).node_metadata(k)] #![trigger final(self).contents(k)] #![trigger final(self).metadata_spec(k)] k != i ==> final(self).node_metadata(k) == old(self).node_metadata(k) && final(self).metadata_spec(k) == old(self).metadata_spec(k) && final(self).contents(k) == old(self).contents(k))
                    },
                },
            },
    ;

    fn create_dir(&mut self, parent: Inode, name: &str) -> (r: Result<Inode, VfsError>)
        ensures
            old(self).effects_stated() ==> match (if name_error(name@) is Some {
                name_error(name@)
            } else {
                match old(self).node_metadata(parent) {
                    None => Some(VfsError::NotFound),
                    Some(m) => if m.kind != NodeKind::Directory {
                        Some(VfsError::NotDirectory)
                    } else if old(self).child(parent, name@) is Some {
                        Some(VfsError::AlreadyExists)
                    } else {
                        None
                    },
                }
            }) {
                Some(e) => r == Err::<Inode, VfsError>(e) && *final(self) == *old(self),
                None => match r {
                    Err(e) => e == VfsError::InodeExhausted && old(self).inode_room() == 0 && *final(self) == *old(self),
                    Ok(i) => {
                        &&& old(self).node_metadata(i) is None
                        &&& final(self).inode_room() + 1 >= old(self).inode_room()
                        &&& final(self).effects_stated()
                        &&& final(self).root_spec() == old(self).root_spec()
                        &&& final(self).child(parent, name@) == Some(i)
                        &&& final(self).lookup_spec(parent, name@) == Ok::<Inode, VfsError>(i)
                        &&& final(self).node_metadata(i) == Some(Metadata { inode: i, kind: NodeKind::Directory, len: 0 })
                        &&& final(self).metadata_spec(i) == Ok::<Metadata, VfsError>(Metadata { inode: i, kind: NodeKind::Directory, len: 0 })
                        &&& final(self).contents(i).len() == 0
                        &&& forall|n: Seq<char>| #[trigger] final(self).child(i, n) is None
                        &&& (forall|p: Inode, n: Seq<char>| #![trigger final(self).lookup_spec(p, n)] #![trigger final(self).child(p, n)] old(self).node_metadata(p) is Some && p != i && !(p == parent && n == name@) ==> final(self).lookup_spec(p, n) == old(self).lookup_spec(p, n) && final(self).child(p, n) == old(self).child(p, n))
                        &&& (forall|k: Inode| #![trigger final(self).node_metadata(k)] #![trigger final(self).contents(k)] #![trigger final(self).metadata_spec(k)] k != i ==> final(self).node_metadata(k) == old(self).node_metadata(k) && final(self).metadata_spec(k) == old(self).metadata_spec(k) && final(self).contents(k) == old(self).contents(k))
                    },
                },
            },
    ;

    fn read(&self, inode: Inode, offset: usize, buffer: &mut [u8]) -> (r: Result<usize, VfsError>)
        ensures
            final(buffer)@.len() == old(buffer)@.len(),
            self.effects_stated() ==> match file_error(self.node_metadata(inode)) {
                Some(e) => r == Err::<usize, VfsError>(e),
                None => r is Ok,
            },
            r is Ok ==> read_window(
                self.contents(inode),
                offset as int,
                old(buffer)@,
                final(buffer)@,
                r->Ok_0 as int,
            ),
    ;

    /// Writes `data` into file `inode` from `offset` on; all of it, when it
    /// succeeds.
    fn write(&mut self, inode: Inode, offset: usize, data: &[u8]) -> (r: Result<usize, VfsError>)
        ensures
            r is Ok ==> r == Ok::<usize, VfsError>(data@.len() as usize),
            r is Ok && old(self).write_kept(inode, offset as int, data@.len() as int) ==> {
                &&& final(self).contents(inode) == written(old(self).contents(inode), offset as int, data@)
                &&& final(self).root_spec() == old(self).root_spec()
                &&& forall|p: Inode, n: Seq<char>| #[trigger] final(self).lookup_spec(p, n) == old(self).lookup_spec(p, n)
                &&& forall|p: Inode, n: Seq<char>| #[trigger] final(self).child(p, n) == old(self).child(p, n)
            },
            old(self).effects_stated() ==> match file_error(old(self).node_metadata(inode)) {
                Some(e) => r == Err::<usize, VfsError>(e) && *final(self) == *old(self),
                None => if offset + data@.len() > usize::MAX {
                    r == Err::<usize, VfsError>(VfsError::OffsetOverflow) && *final(self) == *old(self)
                } else {
                    &&& r == Ok::<usize, VfsError>(data@.len() as usize)
                    &&& (final(self).effects_stated() && final(self).root_spec() == old(self).root_spec() && (forall|p: Inode, n: Seq<char>| #[trigger] final(self).lookup_spec(p, n) == old(self).lookup_spec(p, n)) && (forall|p: Inode, n: Seq<char>| #[trigger] final(self).child(p, n) == old(self).child(p, n)))
                    &&& (forall|i: Inode| #![trigger final(self).node_metadata(i)] #![trigger final(self).contents(i)] #![trigger final(self).metadata_spec(i)] i != inode ==> final(self).node_metadata(i) == old(self).node_metadata(i) && final(self).metadata_spec(i) == old(self).metadata_spec(i) && final(self).contents(i) == old(self).contents(i))
                    &&& (final(self).contents(inode) == written(old(self).contents(inode), offset as int, data@) && final(self).node_metadata(inode) == Some(Metadata { inode: inode, kind: NodeKind::File, len: (written(old(self).contents(inode), offset as int, data@)).len() as u64 }) && final(self).metadata_spec(inode) == Ok::<Metadata, VfsError>(Metadata { inode: inode, kind: NodeKind::File, len: (written(old(self).contents(inode), offset as int, data@)).len() as u64 }))
                },
            },
    ;

    fn truncate(&mut self, inode: Inode, len: usize) -> (r: Result<(), VfsError>)
        ensures
            old(self).effects_stated() ==> match file_error(old(self).node_metadata(inode)) {
                Some(e) => r == Err::<(), VfsError>(e) && *final(self) == *old(self),
                None => {
                    &&& r is Ok
                    &&& (final(self).effects_stated() && final(self).root_spec() == old(self).root_spec() && (forall|p: Inode, n: Seq<char>| #[trigger] final(self).lookup_spec(p, n) == old(self).lookup_spec(p, n)) && (forall|p: Inode, n: Seq<char>| #[trigger] final(self).child(p, n) == old(self).child(p, n)))
                    &&& (forall|i: Inode| #![trigger final(self).node_metadata(i)] #![trigger final(self).contents(i)] #![trigger final(self).metadata_spec(i)] i != inode ==> final(self).node_metadata(i) == old(self).node_metadata(i) && final(self).metadata_spec(i) == old(self).metadata_spec(i) && final(self).contents(i) == old(self).contents(i))
                    &&& (final(self).contents(inode) == resized(old(self).contents(inode), len as int) && final(self).node_metadata(inode) == Some(Metadata { inode: inode, kind: NodeKind::File, len: (resized(old(self).contents(inode), len as int)).len() as u64 }) && final(self).metadata_spec(inode) == Ok::<Metadata, VfsError>(Metadata { inode: inode, kind: NodeKind::File, len: (resized(old(self).contents(inode), len as int)).len() as u64 }))
                },
            },
    ;

    fn remove(&mut self, parent: Inode, name: &str) -> (r: Result<(), VfsError>)
        ensures
            old(self).effects_stated() ==> match (if name_error(name@) is Some {
                name_error(name@)
            } else {
                match old(self).node_metadata(parent) {
                    None => Some(VfsError::NotFound),
                    Some(m) => if m.kind != NodeKind::Directory {
                        Some(VfsError::NotDirectory)
                    } else {
                        match old(self).child(parent, name@) {
                            None => Some(VfsError::NotFound),
                            Some(t) => if old(self).node_metadata(t) matches Some(tm) && tm.kind == NodeKind::Directory
                                && exists|n: Seq<char>| #[trigger] old(self).child(t, n) is Some {
                                Some(VfsError::DirectoryNotEmpty)
                            } else {
                                None
                            },
                        }
                    },
                }
            }) {
                Some(e) => r == Err::<(), VfsError>(e) && *final(self) == *old(self),
                None => {
                    let t = old(self).child(parent, name@)->Some_0;
                    &&& r == Ok::<(), VfsError>(())
                    &&& final(self).effects_stated()
                    &&& final(self).root_spec() == old(self).root_spec()
                    &&& final(self).child(parent, name@) is None
                    &&& final(self).lookup_spec(parent, name@) == Err::<Inode, VfsError>(VfsError::NotFound)
                    &&& final(self).node_metadata(t) is None
                    &&& (forall|p: Inode, n: Seq<char>| #![trigger final(self).lookup_spec(p, n)] #![trigger final(self).child(p, n)] old(self).node_metadata(p) is Some && p != t && !(p == parent && n == name@) ==> final(self).lookup_spec(p, n) == old(self).lookup_spec(p, n) && final(self).child(p, n) == old(self).child(p, n))
                    &&& (forall|i: Inode| #![trigger final(self).node_metadata(i)] #![trigger final(self).contents(i)] #![trigger final(self).metadata_spec(i)] i != t ==> final(self).node_metadata(i) == old(self).node_metadata(i) && final(self).metadata_spec(i) == old(self).metadata_spec(i) && final(self).contents(i) == old(self).contents(i))
                },
            },
    ;
}

/// Why an operation on the bytes of node `m` fails, if it does: no such
/// node, or a directory.
pub open spec fn file_error(m: Option<Metadata>) -> Option<VfsError> {
    match m {
        None => Some(VfsError::NotFound),
        Some(m) => if m.kind == NodeKind::Directory {
            Some(VfsError::IsDirectory)
        } else {
            None
        },
    }
}

/// `after` keeps the tree of `before`: the same root, and every lookup and
/// child the same.
pub open spec fn tree_kept<F: FileSystem>(before: F, after: F) -> bool {
    &&& after.effects_stated()
    &&& after.root_spec() == before.root_spec()
    &&& forall|p: Inode, n: Seq<char>| #[trigger] after.lookup_spec(p, n) == before.lookup_spec(p, n)
    &&& forall|p: Inode, n: Seq<char>| #[trigger] after.child(p, n) == before.child(p, n)
}

/// A write of `data` at `offset` into node `inode` left the file holding
/// its old bytes with `data` written in (grown with zeros to reach it), and
/// the directory tree as it was.
pub open spec fn write_kept_effect<F: FileSystem>(before: F, after: F, inode: Inode, offset: int, data: Seq<u8>) -> bool {
    &&& after.contents(inode) == written(before.contents(inode), offset, data)
    &&& after.root_spec() == before.root_spec()
    &&& forall|p: Inode, n: Seq<char>| #[trigger] after.lookup_spec(p, n) == before.lookup_spec(p, n)
    &&& forall|p: Inode, n: Seq<char>| #[trigger] after.child(p, n) == before.child(p, n)
}

/// What a successful write through a resolved path promises, where the
/// filesystem promises it: see `write_kept_effect`.
pub open spec fn kept_write_answer<F: FileSystem>(
    before: F,
    after: F,
    resolution: Result<Inode, VfsError>,
    op: u8,
    offset: usize,
    data: Seq<u8>,
    r: Result<usize, VfsError>,
) -> bool {
    op == 0 && r is Ok && resolution is Ok && before.write_kept(resolution->Ok_0, offset as int, data.len() as int)
        ==> write_kept_effect(before, after, resolution->Ok_0, offset as int, data)
}

/// Every node but `changed` reads in `after` as in `before`.
pub open spec fn nodes_kept<F: FileSystem>(before: F, after: F, changed: Inode) -> bool {
    forall|i: Inode|
        #![trigger after.node_metadata(i)]
        #![trigger after.contents(i)]
        #![trigger after.metadata_spec(i)]
        i != changed ==> {
            &&& after.node_metadata(i) == before.node_metadata(i)
            &&& after.metadata_spec(i) == before.metadata_spec(i)
            &&& after.contents(i) == before.contents(i)
        }
}

/// File `inode` of `after` holds `bytes`, and its metadata says so.
pub open spec fn file_holds<F: FileSystem>(after: F, inode: Inode, bytes: Seq<u8>) -> bool {
    let m = Metadata { inode, kind: NodeKind::File, len: bytes.len() as u64 };
    &&& after.contents(inode) == bytes
    &&& after.node_metadata(inode) == Some(m)
    &&& after.metadata_spec(inode) == Ok::<Metadata, VfsError>(m)
}

/// What writing `data` into node `inode` from `offset` on answers, and what
/// it leaves: the file's bytes with `data` spliced in (grown with zeros to
/// reach it), everything else as it was; on an error nothing changes.
pub open spec fn write_answer<F: FileSystem>(
    before: F,
    after: F,
    inode: Inode,
    offset: usize,
    data: Seq<u8>,
    r: Result<usize, VfsError>,
) -> bool {
    match file_error(before.node_metadata(inode)) {
        Some(e) => r == Err::<usize, VfsError>(e) && after == before,
        None => if offset + data.len() > usize::MAX {
            r == Err::<usize, VfsError>(VfsError::OffsetOverflow) && after == before
        } else {
            &&& r == Ok::<usize, VfsError>(data.len() as usize)
            &&& tree_kept(before, after)
            &&& nodes_kept(before, after, inode)
            &&& file_holds(after, inode, written(before.contents(inode), offset as int, data))
        },
    }
}

/// What setting the length of node `inode` to `len` answers, and what it
/// leaves: the file's bytes cut or grown with zeros, everything else as it
/// was; on an error nothing changes.
pub open spec fn truncate_answer<F: FileSystem>(before: F, after: F, inode: Inode, len: usize, r: Result<(), VfsError>) -> bool {
    match file_error(before.node_metadata(inode)) {
        Some(e) => r == Err::<(), VfsError>(e) && after == before,
        None => {
            &&& r is Ok
            &&& tree_kept(before, after)
            &&& nodes_kept(before, after, inode)
            &&& file_holds(after, inode, resized(before.contents(inode), len as int))
        },
    }
}

/// Why creating `name` in `parent` fails before any allocation, if it does.
pub open spec fn create_error<F: FileSystem>(before: F, parent: Inode, name: Seq<char>) -> Option<VfsError> {
    if name_error(name) is Some {
        name_error(name)
    } else {
        match before.node_metadata(parent) {
            None => Some(VfsError::NotFound),
            Some(m) => if m.kind != NodeKind::Directory {
                Some(VfsError::NotDirectory)
            } else if before.child(parent, name) is Some {
                Some(VfsError::AlreadyExists)
            } else {
                None
            },
        }
    }
}

/// Every lookup and child from a node of `before` other than entry `name`
/// of `parent`, and other than from `gone`, is the same in `after`.
pub open spec fn other_entries_kept<F: FileSystem>(before: F, after: F, parent: Inode, name: Seq<char>, gone: Inode) -> bool {
    forall|p: Inode, n: Seq<char>|
        #![trigger after.lookup_spec(p, n)]
        #![trigger after.child(p, n)]
        before.node_metadata(p) is Some && p != gone && !(p == parent && n == name) ==> {
            &&& after.lookup_spec(p, n) == before.lookup_spec(p, n)
            &&& after.child(p, n) == before.child(p, n)
        }
}

/// What creating `name` of `kind` in directory `parent` answers, and what it
/// leaves: a new empty node under that name, everything else as it was; on
/// an error nothing changes. Past the checks, only running out of inodes
/// can fail.
pub open spec fn create_answer<F: FileSystem>(
    before: F,
    after: F,
    parent: Inode,
    name: Seq<char>,
    kind: NodeKind,
    r: Result<Inode, VfsError>,
) -> bool {
    match create_error(before, parent, name) {
        Some(e) => r == Err::<Inode, VfsError>(e) && after == before,
        None => match r {
            Err(e) => e == VfsError::InodeExhausted && before.inode_room() == 0 && after == before,
            Ok(i) => {
                let m = Metadata { inode: i, kind, len: 0 };
                &&& before.node_metadata(i) is None
                &&& after.inode_room() + 1 >= before.inode_room()
                &&& after.effects_stated()
                &&& after.root_spec() == before.root_spec()
                &&& after.child(parent, name) == Some(i)
                &&& after.lookup_spec(parent, name) == Ok::<Inode, VfsError>(i)
                &&& after.node_metadata(i) == Some(m)
                &&& after.metadata_spec(i) == Ok::<Metadata, VfsError>(m)
                &&& after.contents(i).len() == 0
                &&& forall|n: Seq<char>| #[trigger] after.child(i, n) is None
                &&& other_entries_kept(before, after, parent, name, i)
                &&& nodes_kept(before, after, i)
            },
        },
    }
}

/// Why removing `name` from `parent` fails, if it does.
pub open spec fn remove_error<F: FileSystem>(before: F, parent: Inode, name: Seq<char>) -> Option<VfsError> {
    if name_error(name) is Some {
        name_error(name)
    } else {
        match before.node_metadata(parent) {
            None => Some(VfsError::NotFound),
            Some(m) => if m.kind != NodeKind::Directory {
                Some(VfsError::NotDirectory)
            } else {
                match before.child(parent, name) {
                    None => Some(VfsError::NotFound),
                    Some(t) => if before.node_metadata(t) matches Some(tm) && tm.kind == NodeKind::Directory
                        && exists|n: Seq<char>| #[trigger] before.child(t, n) is Some {
                        Some(VfsError::DirectoryNotEmpty)
                    } else {
                        None
                    },
                }
            },
        }
    }
}

/// What removing `name` from directory `parent` answers, and what it
/// leaves: the name and its node gone, everything else as it was; on an
/// error nothing changes.
pub open spec fn remove_answer<F: FileSystem>(before: F, after: F, parent: Inode, name: Seq<char>, r: Result<(), VfsError>) -> bool {
    match remove_error(before, parent, name) {
        Some(e) => r == Err::<(), VfsError>(e) && after == before,
        None => {
            let t = before.child(parent, name)->Some_0;
            &&& r is Ok
            &&& after.effects_stated()
            &&& after.root_spec() == before.root_spec()
            &&& after.child(parent, name) is None
            &&& after.lookup_spec(parent, name) == Err::<Inode, VfsError>(VfsError::NotFound)
            &&& after.node_metadata(t) is None
            &&& other_entries_kept(before, after, parent, name, t)
            &&& nodes_kept(before, after, t)
        },
    }
}


/// The node reached from `inode` by following the names in `comps`.
/// What following the names `comps` from `inode` gives: the node reached,
/// or the first lookup's error.
pub open spec fn resolve_spec<F: FileSystem>(fs: F, inode: Inode, comps: Seq<Seq<char>>) -> Result<Inode, VfsError>
    decreases comps.len(),
{
    if comps.len() == 0 {
        Ok(inode)
    } else {
        match fs.lookup_spec(inode, comps[0]) {
            Ok(next) => resolve_spec(fs, next, comps.drop_first()),
            Err(e) => Err(e),
        }
    }
}

pub open spec fn walk<F: FileSystem>(fs: F, inode: Inode, comps: Seq<Seq<char>>) -> Option<Inode>
    decreases comps.len(),
{
    if comps.len() == 0 {
        Some(inode)
    } else {
        match fs.child(inode, comps[0]) {
            Some(next) => walk(fs, next, comps.drop_first()),
            None => None,
        }
    }
}

/// `prefix` is a leading part of `comps`.
pub open spec fn is_prefix(prefix: Seq<Seq<char>>, comps: Seq<Seq<char>>) -> bool {
    prefix.len() <= comps.len() && comps.take(prefix.len() as int) == prefix
}

/// Mount `index` is the one that serves `comps`: the root mount when no other
/// mount point is a leading part of the path, else the deepest mount point
/// that is.
pub open spec fn routes_to(points: Seq<Seq<Seq<char>>>, comps: Seq<Seq<char>>, index: int) -> bool {
    &&& 0 <= index < points.len()
    &&& is_prefix(points[index], comps)
    &&& forall|i: int|
        1 <= i < points.len() && is_prefix(#[trigger] points[i], comps) ==> index != 0
            && points[i].len() <= points[index].len()
}

struct Mount<F: FileSystem> {
    path: String,
    components: Vec<String>,
    filesystem: Box<F>,
}

/// Generic pathname and mount layer.
///
/// The root filesystem is always mounted at /. Additional filesystems are
/// routed using longest-prefix mount matching.
pub struct Vfs<F: FileSystem> {
    mounts: Vec<Mount<F>>,
}

impl<F: FileSystem> Vfs<F> {
    /// The mount table is well formed: the root mount comes first, every
    /// other mount point is a distinct, non-root path.
    pub closed spec fn wf(&self) -> bool {
        let m = self.mounts@;
        &&& m.len() >= 1
        &&& texts(m[0].components@).len() == 0
        &&& forall|i: int| 0 <= i < m.len() ==> (#[trigger] m[i]).path@ == join(texts(m[i].components@))
        &&& forall|i: int| 1 <= i < m.len() ==> texts((#[trigger] m[i]).components@).len() > 0
        &&& forall|i: int, j: int|
            0 <= i < j < m.len() ==> texts((#[trigger] m[i]).components@) != texts(
                (#[trigger] m[j]).components@,
            )
    }

    /// The mount points, as component lists, in mount order.
    pub closed spec fn mount_points(&self) -> Seq<Seq<Seq<char>>> {
        self.mounts@.map_values(|m: Mount<F>| texts(m.components@))
    }

    /// The filesystem of mount `i`.
    pub closed spec fn filesystem_at(&self, i: int) -> F {
        *self.mounts@[i].filesystem
    }

    /// The mount point paths, in mount order.
    pub open spec fn mount_paths(&self) -> Seq<Seq<char>> {
        self.mount_points().map_values(|c: Seq<Seq<char>>| join(c))
    }

    /// The number of mounts.
    pub closed spec fn mount_count(&self) -> int {
        self.mounts@.len() as int
    }

    pub fn new(root: Box<F>) -> (r: Self)
        ensures
            r.wf(),
            r.mount_count() == 1,
            r.mount_points()[0] == Seq::<Seq<char>>::empty(),
            r.filesystem_at(0) == *root,
    {
        let path = "/".to_owned();
        proof {
            reveal_strlit("/");
        }
        let components: Vec<String> = Vec::new();
        assert(texts(components@) =~= Seq::<Seq<char>>::empty());
        let mut mounts: Vec<Mount<F>> = Vec::new();
        mounts.push(Mount { path, components, filesystem: root });
        assert(mounts@[0].path@ =~= join(texts(mounts@[0].components@)));
        Vfs { mounts }
    }

    /// The mount that serves `comps`.
    fn route(&self, comps: &Vec<String>) -> (r: usize)
        requires
            self.wf(),
        ensures
            routes_to(self.mount_points(), texts(comps@), r as int),
            r as int == self.served_by(texts(comps@)),
    {
        let ghost points = self.mount_points();
        let mut best: usize = 0;
        let mut best_len: usize = 0;
        let mut index: usize = 1;
        assert(is_prefix(points[0], texts(comps@))) by {
            assert(texts(comps@).take(0) =~= points[0]);
        }
        while index < self.mounts.len()
            invariant
                points == self.mount_points(),
                points.len() == self.mounts@.len(),
                1 <= index <= points.len(),
                best < index,
                best_len == points[best as int].len(),
                is_prefix(points[best as int], texts(comps@)),
                best == 0 ==> best_len == 0,
                forall|i: int| 1 <= i < points.len() ==> (#[trigger] points[i]).len() > 0,
                forall|i: int|
                    1 <= i < index && is_prefix(#[trigger] points[i], texts(comps@)) ==> best
                        != 0 && points[i].len() <= best_len,
            decreases points.len() - index,
        {
            let candidate = &self.mounts[index].components;
            assert(texts(candidate@) == points[index as int]);
            if candidate.len() > best_len && components_prefix(candidate, comps) {
                best = index;
                best_len = candidate.len();
            }
            index = index + 1;
        }
        proof {
            self.lemma_route_unique(texts(comps@), best as int);
        }
        best
    }

    /// The mount that serves the path with components `comps`.
    pub open spec fn served_by(&self, comps: Seq<Seq<char>>) -> int {
        choose|i: int| routes_to(self.mount_points(), comps, i)
    }

    /// The node the path with components `comps` names, if any.
    pub open spec fn resolved(&self, comps: Seq<Seq<char>>) -> Option<Inode> {
        let i = self.served_by(comps);
        let fs = self.filesystem_at(i);
        walk(fs, fs.root_spec(), comps.skip(self.mount_points()[i].len() as int))
    }

    /// What resolving `comps` in the filesystem that serves them gives: the
    /// node reached, or the first lookup's error.
    pub open spec fn resolution(&self, comps: Seq<Seq<char>>) -> Result<Inode, VfsError> {
        let i = self.served_by(comps);
        let fs = self.filesystem_at(i);
        resolve_spec(fs, fs.root_spec(), comps.skip(self.mount_points()[i].len() as int))
    }

    /// What asking for the metadata of the node at the normalized
    /// components `comps` gives.
    pub open spec fn metadata_at(&self, comps: Seq<Seq<char>>) -> Result<Metadata, VfsError> {
        match self.resolution(comps) {
            Err(e) => Err(e),
            Ok(i) => self.filesystem_at(self.served_by(comps)).metadata_spec(i),
        }
    }

    /// Only one mount serves a path.
    pub proof fn lemma_route_unique(&self, comps: Seq<Seq<char>>, i: int)
        requires
            self.wf(),
            routes_to(self.mount_points(), comps, i),
        ensures
            self.served_by(comps) == i,
    {
        let points = self.mount_points();
        let j = self.served_by(comps);
        assert(routes_to(points, comps, j));
        if i != j {
            if i != 0 && j != 0 {
                assert(points[i].len() == points[j].len());
                assert(points[i] =~= comps.take(points[i].len() as int));
                assert(points[j] =~= comps.take(points[j].len() as int));
                let (a, b) = if i < j {
                    (i, j)
                } else {
                    (j, i)
                };
                assert(texts(self.mounts@[a].components@) != texts(self.mounts@[b].components@));
            }
        }
    }

    /// Everything but the filesystem of mount `i` is as in `other`.
    pub open spec fn same_except(&self, other: &Self, i: int) -> bool {
        &&& self.wf()
        &&& self.mount_points() == other.mount_points()
        &&& self.mount_count() == other.mount_count()
        &&& forall|j: int| 0 <= j < self.mount_count() && j != i ==> self.filesystem_at(j) == other.filesystem_at(j)
    }

    /// Attaches `filesystem` at the existing directory `path`.
    pub fn mount(&mut self, path: &str, filesystem: Box<F>) -> (r: Result<(), VfsError>)
        requires
            old(self).wf(),
        ensures
            final(self).wf(),
            match normalized_components(seq!['/'], path@) {
                Err(e) => r == Err::<(), VfsError>(e) && *final(self) == *old(self),
                Ok(c) => if c.len() == 0 || old(self).mount_points().contains(c) {
                    r == Err::<(), VfsError>(VfsError::AlreadyMounted) && *final(self) == *old(self)
                } else {
                    &&& match old(self).metadata_at(c) {
                        Err(e) => r == Err::<(), VfsError>(e),
                        Ok(m) => if m.kind != NodeKind::Directory {
                            r == Err::<(), VfsError>(VfsError::MountPointNotDirectory)
                        } else {
                            r is Ok
                        },
                    }
                    &&& match r {
                        Ok(()) => {
                            &&& old(self).resolved(c) is Some
                            &&& final(self).mount_points() == old(self).mount_points().push(c)
                            &&& final(self).mount_count() == old(self).mount_count() + 1
                            &&& final(self).filesystem_at(old(self).mount_count()) == *filesystem
                            &&& forall|j: int|
                                0 <= j < old(self).mount_count() ==> final(self).filesystem_at(j)
                                    == old(self).filesystem_at(j)
                        },
                        Err(_) => *final(self) == *old(self),
                    }
                },
            },
    {
        let root = "/";
        proof {
            reveal_strlit("/");
            assert(root@ =~= seq!['/']);
        }
        let (components, normalized) = normalize_parts(root, path)?;
        if components.len() == 0 {
            return Err(VfsError::AlreadyMounted);
        }
        let mut i: usize = 0;
        while i < self.mounts.len()
            invariant
                self.wf(),
                *self == *old(self),
                normalized_components(seq!['/'], path@) == Ok::<Seq<Seq<char>>, VfsError>(
                    texts(components@),
                ),
                components@.len() > 0,
                i <= self.mounts@.len(),
                forall|k: int| 0 <= k < i ==> self.mount_points()[k] != texts(components@),
            decreases self.mounts@.len() - i,
        {
            if components_equal(&self.mounts[i].components, &components) {
                assert(self.mount_points()[i as int] == texts(components@));
                return Err(VfsError::AlreadyMounted);
            }
            i = i + 1;
        }
        assert(!self.mount_points().contains(texts(components@)));
        let metadata = self.metadata_of(&components)?;
        if metadata.kind != NodeKind::Directory {
            return Err(VfsError::MountPointNotDirectory);
        }
        let ghost before = self.mounts@;
        self.mounts.push(Mount { path: normalized, components, filesystem });
        proof {
            assert(self.mount_points() =~= old(self).mount_points().push(texts(components@)));
            assert forall|a: int, b: int|
                0 <= a < b < self.mounts@.len() implies texts(
                    (#[trigger] self.mounts@[a]).components@,
                ) != texts((#[trigger] self.mounts@[b]).components@) by {
                if b == before.len() {
                    assert(self.mount_points()[a] == old(self).mount_points()[a]);
                }
            }
        }
        Ok(())
    }

    /// The metadata of the node at the normalized components `comps`.
    fn metadata_of(&self, comps: &Vec<String>) -> (r: Result<Metadata, VfsError>)
        requires
            self.wf(),
        ensures
            r == self.metadata_at(texts(comps@)),
            r is Ok ==> self.resolution(texts(comps@)) == Ok::<Inode, VfsError>(r->Ok_0.inode),
            r is Ok ==> {
                let c = texts(comps@);
                let fs = self.filesystem_at(self.served_by(c));
                &&& self.resolved(c) == Some(r->Ok_0.inode)
                &&& fs.node_metadata(r->Ok_0.inode) == Some(r->Ok_0)
                &&& r->Ok_0.kind == NodeKind::File ==> r->Ok_0.len == fs.contents(
                    r->Ok_0.inode,
                ).len()
            },
    {
        let index = self.route(comps);
        let filesystem = &*self.mounts[index].filesystem;
        let skip = self.mounts[index].components.len();
        proof {
            assert(texts(comps@).skip(skip as int).take(comps@.len() - skip) =~= texts(comps@).skip(
                skip as int,
            ));
        }
        let inode = resolve_inode(filesystem, comps, skip, comps.len())?;
        filesystem.metadata(inode)
    }

    /// The metadata of the node at `path`.
    pub fn metadata(&self, path: &str) -> (r: Result<Metadata, VfsError>)
        requires
            self.wf(),
        ensures
            match normalized_components(seq!['/'], path@) {
                Err(e) => r == Err::<Metadata, VfsError>(e),
                Ok(c) => r == self.metadata_at(c) && (r is Ok ==> {
                    let fs = self.filesystem_at(self.served_by(c));
                    &&& self.resolution(c) == Ok::<Inode, VfsError>(r->Ok_0.inode)
                    &&& self.resolved(c) == Some(r->Ok_0.inode)
                    &&& fs.node_metadata(r->Ok_0.inode) == Some(r->Ok_0)
                    &&& r->Ok_0.kind == NodeKind::File ==> r->Ok_0.len == fs.contents(
                        r->Ok_0.inode,
                    ).len()
                }),
            },
    {
        let root = "/";
        proof {
            reveal_strlit("/");
            assert(root@ =~= seq!['/']);
        }
        let (components, _) = normalize_parts(root, path)?;
        self.metadata_of(&components)
    }

    /// The entries of the directory at `path`, sorted by name.
    pub fn read_dir(&self, path: &str) -> (r: Result<Vec<DirEntry>, VfsError>)
        requires
            self.wf(),
        ensures
            match normalized_components(seq!['/'], path@) {
                Err(e) => r == Err::<Vec<DirEntry>, VfsError>(e),
                Ok(c) => r is Ok ==> {
                    let fs = self.filesystem_at(self.served_by(c));
                    let dir = self.resolved(c)->Some_0;
                    let entries = r->Ok_0@;
                    &&& self.resolved(c) is Some
                    &&& forall|k: int|
                        0 <= k < entries.len() ==> {
                            let e = #[trigger] entries[k];
                            &&& fs.child(dir, e.name@) is Some
                            &&& fs.node_metadata(e.metadata.inode) == Some(e.metadata)
                        }
                    &&& forall|j: int, k: int|
                        0 <= j < k < entries.len() ==> !name_less(
                            #[trigger] entries[k].name@,
                            #[trigger] entries[j].name@,
                        )
                },
            },
            normalized_components(seq!['/'], path@) matches Ok(c) ==> (self.resolution(c) matches Ok(dir)
                ==> self.resolved(c) == Some(dir)),
            normalized_components(seq!['/'], path@) matches Ok(c) ==> ({
                let fs = self.filesystem_at(self.served_by(c));
                fs.effects_stated() ==> match self.resolution(c) {
                    Err(e) => r == Err::<Vec<DirEntry>, VfsError>(e),
                    Ok(dir) => match fs.node_metadata(dir) {
                        None => r == Err::<Vec<DirEntry>, VfsError>(VfsError::NotFound),
                        Some(m) => if m.kind != NodeKind::Directory {
                            r == Err::<Vec<DirEntry>, VfsError>(VfsError::NotDirectory)
                        } else {
                            r is Ok && forall|n: Seq<char>|
                                #[trigger] fs.child(dir, n) is Some ==> exists|k: int|
                                    0 <= k < r->Ok_0@.len() && (#[trigger] r->Ok_0@[k]).name@ == n
                        },
                    },
                }
            }),
    {
        let root = "/";
        proof {
            reveal_strlit("/");
            assert(root@ =~= seq!['/']);
        }
        let (components, _) = normalize_parts(root, path)?;
        let index = self.route(&components);
        let filesystem = &*self.mounts[index].filesystem;
        let skip = self.mounts[index].components.len();
        proof {
            assert(texts(components@).skip(skip as int).take(components@.len() - skip)
                =~= texts(components@).skip(skip as int));
        }
        let inode = resolve_inode(filesystem, &components, skip, components.len())?;
        filesystem.read_dir(inode)
    }

    /// Reads from the file at `path`, starting at `offset`, into `buffer`.
    pub fn read(&self, path: &str, offset: usize, buffer: &mut [u8]) -> (r: Result<
        usize,
        VfsError,
    >)
        requires
            self.wf(),
        ensures
            final(buffer)@.len() == old(buffer)@.len(),
            match normalized_components(seq!['/'], path@) {
                Err(e) => r == Err::<usize, VfsError>(e) && final(buffer)@ == old(buffer)@,
                Ok(c) => r is Ok ==> {
                    let fs = self.filesystem_at(self.served_by(c));
                    &&& self.resolved(c) is Some
                    &&& read_window(
                        fs.contents(self.resolved(c)->Some_0),
                        offset as int,
                        old(buffer)@,
                        final(buffer)@,
                        r->Ok_0 as int,
                    )
                },
            },
            normalized_components(seq!['/'], path@) matches Ok(c) ==> ({
                let fs = self.filesystem_at(self.served_by(c));
                fs.effects_stated() ==> match self.resolution(c) {
                    Err(e) => r == Err::<usize, VfsError>(e),
                    Ok(n) => match file_error(fs.node_metadata(n)) {
                        Some(e) => r == Err::<usize, VfsError>(e),
                        None => r is Ok,
                    },
                }
            }),
    {
        let root = "/";
        proof {
            reveal_strlit("/");
            assert(root@ =~= seq!['/']);
        }
        let (components, _) = normalize_parts(root, path)?;
        let index = self.route(&components);
        let filesystem = &*self.mounts[index].filesystem;
        let skip = self.mounts[index].components.len();
        proof {
            assert(texts(components@).skip(skip as int).take(components@.len() - skip)
                =~= texts(components@).skip(skip as int));
        }
        let inode = resolve_inode(filesystem, &components, skip, components.len())?;
        filesystem.read(inode, offset, buffer)
    }

    /// The whole contents of the file at `path`.
    pub fn read_all(&self, path: &str) -> (r: Result<Vec<u8>, VfsError>)
        requires
            self.wf(),
        ensures
            match normalized_components(seq!['/'], path@) {
                Err(e) => r == Err::<Vec<u8>, VfsError>(e),
                Ok(c) => r is Ok ==> {
                    let fs = self.filesystem_at(self.served_by(c));
                    &&& self.resolved(c) is Some
                    &&& r->Ok_0@ == fs.contents(self.resolved(c)->Some_0)
                },
            },
            normalized_components(seq!['/'], path@) matches Ok(c) ==> ({
                let fs = self.filesystem_at(self.served_by(c));
                fs.effects_stated() ==> match self.metadata_at(c) {
                    Err(e) => r == Err::<Vec<u8>, VfsError>(e),
                    Ok(m) => if m.kind == NodeKind::Directory {
                        r == Err::<Vec<u8>, VfsError>(VfsError::IsDirectory)
                    } else if m.len > usize::MAX {
                        r == Err::<Vec<u8>, VfsError>(VfsError::OffsetOverflow)
                    } else {
                        r is Ok && r->Ok_0@ == fs.contents(m.inode)
                    },
                }
            }),
    {
        let metadata = self.metadata(path)?;
        if metadata.kind == NodeKind::Directory {
            return Err(VfsError::IsDirectory);
        }
        if metadata.len > usize::MAX as u64 {
            return Err(VfsError::OffsetOverflow);
        }
        let len = metadata.len as usize;
        let mut data: Vec<u8> = vec![0u8; len];
        let read = self.read(path, 0, data.as_mut_slice())?;
        data.truncate(read);
        proof {
            let c = normalized_components(seq!['/'], path@)->Ok_0;
            let fs = self.filesystem_at(self.served_by(c));
            let contents = fs.contents(self.resolved(c)->Some_0);
            assert(data@ =~= contents);
        }
        Ok(data)
    }
}

impl<F: FileSystem> Vfs<F> {
    /// Runs `op` on the filesystem that serves `comps`, for a path that must
    /// name something below that filesystem's root.
    fn with_parent(&mut self, comps: &Vec<String>, op: u8, data: &[u8], offset: usize) -> (r: Result<
        Option<Metadata>,
        VfsError,
    >)
        requires
            old(self).wf(),
        ensures
            ({
                let i = old(self).served_by(texts(comps@));
                &&& final(self).same_except(&*old(self), i)
                &&& texts(comps@).len() == old(self).mount_points()[i].len() ==> r
                    == Err::<Option<Metadata>, VfsError>(VfsError::RootImmutable) && *final(self)
                    == *old(self)
                &&& (op == 0 || op == 1) ==> (r is Ok ==> r->Ok_0 is Some && final(self).filesystem_at(i).node_metadata(r->Ok_0->Some_0.inode) == Some(r->Ok_0->Some_0))
                &&& op == 0 && r is Ok ==> forall|off: int, n: int| #[trigger] final(self).filesystem_at(i).write_kept(r->Ok_0->Some_0.inode, off, n)
            }),
            vfs_entry_answer(*old(self), *final(self), texts(comps@), op, r),
    {
        let index = self.route(comps);
        let skip = self.mounts[index].components.len();
        if skip == comps.len() {
            return Err(VfsError::RootImmutable);
        }
        let name = comps[comps.len() - 1].as_str();
        proof {
            assert(name@ == texts(comps@).skip(skip as int).last());
        }
        validate_name(name)?;
        let ghost before = self.mounts@;
        let mut mount = self.mounts.remove(index);
        let result = parent_op(&mut *mount.filesystem, comps, skip, op, data, offset);
        self.mounts.insert(index, mount);
        proof {
            assert(self.mounts@ =~= before.update(index as int, self.mounts@[index as int]));
            assert(self.mount_points() =~= old(self).mount_points());
            assert forall|a: int, b: int|
                0 <= a < b < self.mounts@.len() implies texts(
                    (#[trigger] self.mounts@[a]).components@,
                ) != texts((#[trigger] self.mounts@[b]).components@) by {
                assert(self.mount_points()[a] == old(self).mount_points()[a]);
                assert(self.mount_points()[b] == old(self).mount_points()[b]);
            }
        }
        result
    }

    /// Runs `op` on the node the path names, below the root of the
    /// filesystem that serves it.
    fn with_node(&mut self, comps: &Vec<String>, op: u8, data: &[u8], offset: usize) -> (r: Result<
        usize,
        VfsError,
    >)
        requires
            old(self).wf(),
        ensures
            final(self).same_except(&*old(self), old(self).served_by(texts(comps@))),
            op == 0 && r is Ok ==> r == Ok::<usize, VfsError>(data@.len() as usize),
            old(self).resolution(texts(comps@)) matches Err(e) ==> r == Err::<usize, VfsError>(e),
            ({
                let i = old(self).served_by(texts(comps@));
                old(self).filesystem_at(i).effects_stated() ==> node_answer(
                    old(self).filesystem_at(i),
                    final(self).filesystem_at(i),
                    old(self).resolution(texts(comps@)),
                    op,
                    offset,
                    data@,
                    r,
                )
            }),
            kept_write_answer(
                old(self).filesystem_at(old(self).served_by(texts(comps@))),
                final(self).filesystem_at(old(self).served_by(texts(comps@))),
                old(self).resolution(texts(comps@)),
                op,
                offset,
                data@,
                r,
            ),
    {
        let index = self.route(comps);
        let skip = self.mounts[index].components.len();
        let ghost before = self.mounts@;
        let mut mount = self.mounts.remove(index);
        let result = node_op(&mut *mount.filesystem, comps, skip, op, data, offset);
        self.mounts.insert(index, mount);
        proof {
            assert(self.mounts@ =~= before.update(index as int, self.mounts@[index as int]));
            assert(self.mount_points() =~= old(self).mount_points());
            assert forall|a: int, b: int|
                0 <= a < b < self.mounts@.len() implies texts(
                    (#[trigger] self.mounts@[a]).components@,
                ) != texts((#[trigger] self.mounts@[b]).components@) by {
                assert(self.mount_points()[a] == old(self).mount_points()[a]);
                assert(self.mount_points()[b] == old(self).mount_points()[b]);
            }
        }
        result
    }

    /// Creates an empty file at `path`, in an existing directory.
    pub fn create_file(&mut self, path: &str) -> (r: Result<Metadata, VfsError>)
        requires
            old(self).wf(),
        ensures
            changed_at(*old(self), *final(self), path@),
            match normalized_components(seq!['/'], path@) {
                Err(e) => r == Err::<Metadata, VfsError>(e),
                Ok(c) => {
                    let i = old(self).served_by(c);
                    &&& c.len() == old(self).mount_points()[i].len() ==> r == Err::<
                        Metadata,
                        VfsError,
                    >(VfsError::RootImmutable)
                    &&& r is Ok ==> final(self).filesystem_at(i).node_metadata(r->Ok_0.inode)
                        == Some(r->Ok_0)
                    &&& r is Ok ==> forall|off: int, n: int| #[trigger] final(self).filesystem_at(i).write_kept(r->Ok_0.inode, off, n)
                },
            },
            normalized_components(seq!['/'], path@) matches Ok(c) ==> vfs_entry_answer(
                *old(self),
                *final(self),
                c,
                0,
                match r {
                    Ok(m) => Ok::<Option<Metadata>, VfsError>(Some(m)),
                    Err(e) => Err(e),
                },
            ),
    {
        self.create(path, 0)
    }

    /// Creates an empty directory at `path`, in an existing directory.
    pub fn create_dir(&mut self, path: &str) -> (r: Result<Metadata, VfsError>)
        requires
            old(self).wf(),
        ensures
            changed_at(*old(self), *final(self), path@),
            match normalized_components(seq!['/'], path@) {
                Err(e) => r == Err::<Metadata, VfsError>(e),
                Ok(c) => {
                    let i = old(self).served_by(c);
                    &&& c.len() == old(self).mount_points()[i].len() ==> r == Err::<
                        Metadata,
                        VfsError,
                    >(VfsError::RootImmutable)
                    &&& r is Ok ==> final(self).filesystem_at(i).node_metadata(r->Ok_0.inode)
                        == Some(r->Ok_0)
                },
            },
            normalized_components(seq!['/'], path@) matches Ok(c) ==> vfs_entry_answer(
                *old(self),
                *final(self),
                c,
                1,
                match r {
                    Ok(m) => Ok::<Option<Metadata>, VfsError>(Some(m)),
                    Err(e) => Err(e),
                },
            ),
    {
        self.create(path, 1)
    }

    fn create(&mut self, path: &str, op: u8) -> (r: Result<Metadata, VfsError>)
        requires
            old(self).wf(),
            op == 0 || op == 1,
        ensures
            changed_at(*old(self), *final(self), path@),
            match normalized_components(seq!['/'], path@) {
                Err(e) => r == Err::<Metadata, VfsError>(e),
                Ok(c) => {
                    let i = old(self).served_by(c);
                    &&& c.len() == old(self).mount_points()[i].len() ==> r == Err::<
                        Metadata,
                        VfsError,
                    >(VfsError::RootImmutable)
                    &&& r is Ok ==> final(self).filesystem_at(i).node_metadata(r->Ok_0.inode)
                        == Some(r->Ok_0)
                    &&& op == 0 && r is Ok ==> forall|off: int, n: int| #[trigger] final(self).filesystem_at(i).write_kept(r->Ok_0.inode, off, n)
                },
            },
            normalized_components(seq!['/'], path@) matches Ok(c) ==> vfs_entry_answer(
                *old(self),
                *final(self),
                c,
                op,
                match r {
                    Ok(m) => Ok::<Option<Metadata>, VfsError>(Some(m)),
                    Err(e) => Err(e),
                },
            ),
    {
        let root = "/";
        proof {
            reveal_strlit("/");
            assert(root@ =~= seq!['/']);
        }
        let (components, _) = normalize_parts(root, path)?;
        let empty: [u8; 0] = [];
        match self.with_parent(&components, op, &empty, 0)? {
            Some(metadata) => Ok(metadata),
            None => Err(VfsError::NotFound),
        }
    }

    /// Removes the file or empty directory at `path`.
    pub fn remove(&mut self, path: &str) -> (r: Result<(), VfsError>)
        requires
            old(self).wf(),
        ensures
            changed_at(*old(self), *final(self), path@),
            match normalized_components(seq!['/'], path@) {
                Err(e) => r == Err::<(), VfsError>(e),
                Ok(c) => c.len() == old(self).mount_points()[old(self).served_by(c)].len() ==> r
                    == Err::<(), VfsError>(VfsError::RootImmutable),
            },
            normalized_components(seq!['/'], path@) matches Ok(c) ==> vfs_entry_answer(
                *old(self),
                *final(self),
                c,
                2,
                match r {
                    Ok(_) => Ok::<Option<Metadata>, VfsError>(None),
                    Err(e) => Err(e),
                },
            ),
    {
        let root = "/";
        proof {
            reveal_strlit("/");
            assert(root@ =~= seq!['/']);
        }
        let (components, _) = normalize_parts(root, path)?;
        let empty: [u8; 0] = [];
        let result = self.with_parent(&components, 2, &empty, 0);
        match result {
            Ok(_) => Ok(()),
            Err(e) => Err(e),
        }
    }

    /// Writes `data` into the file at `path` from `offset` on.
    pub fn write(&mut self, path: &str, offset: usize, data: &[u8]) -> (r: Result<
        usize,
        VfsError,
    >)
        requires
            old(self).wf(),
        ensures
            changed_at(*old(self), *final(self), path@),
            normalized_components(seq!['/'], path@) matches Err(e) ==> r == Err::<usize, VfsError>(
                e,
            ),
            r is Ok ==> r == Ok::<usize, VfsError>(data@.len() as usize),
            normalized_components(seq!['/'], path@) matches Ok(c) ==> ({
                let i = old(self).served_by(c);
                old(self).filesystem_at(i).effects_stated() ==> node_answer(
                    old(self).filesystem_at(i),
                    final(self).filesystem_at(i),
                    old(self).resolution(c),
                    0,
                    offset,
                    data@,
                    r,
                )
            }),
            normalized_components(seq!['/'], path@) matches Ok(c) ==> kept_write_answer(
                old(self).filesystem_at(old(self).served_by(c)),
                final(self).filesystem_at(old(self).served_by(c)),
                old(self).resolution(c),
                0,
                offset,
                data@,
                r,
            ),
    {
        let root = "/";
        proof {
            reveal_strlit("/");
            assert(root@ =~= seq!['/']);
        }
        let (components, _) = normalize_parts(root, path)?;
        self.with_node(&components, 0, data, offset)
    }

    /// Sets the length of the file at `path`, new bytes being zero.
    pub fn truncate(&mut self, path: &str, len: usize) -> (r: Result<(), VfsError>)
        requires
            old(self).wf(),
        ensures
            changed_at(*old(self), *final(self), path@),
            normalized_components(seq!['/'], path@) matches Err(e) ==> r == Err::<(), VfsError>(e),
            normalized_components(seq!['/'], path@) matches Ok(c) ==> ({
                let i = old(self).served_by(c);
                old(self).filesystem_at(i).effects_stated() ==> match old(self).resolution(c) {
                    Err(e) => r == Err::<(), VfsError>(e) && final(self).filesystem_at(i) == old(self).filesystem_at(i),
                    Ok(n) => truncate_answer(old(self).filesystem_at(i), final(self).filesystem_at(i), n, len, r),
                }
            }),
    {
        let root = "/";
        proof {
            reveal_strlit("/");
            assert(root@ =~= seq!['/']);
        }
        let (components, _) = normalize_parts(root, path)?;
        let empty: [u8; 0] = [];
        let result = self.with_node(&components, 1, &empty, len);
        match result {
            Ok(_) => Ok(()),
            Err(e) => Err(e),
        }
    }

    /// `info` reports one of the mounts: its path, and the name of the
    /// filesystem mounted there.
    pub open spec fn lists_mount(&self, info: MountInfo) -> bool {
        exists|j: int|
            0 <= j < self.mount_count() && info.path@ == self.mount_paths()[j] && info.filesystem@
                == #[trigger] self.filesystem_at(j).name_spec()
    }

    /// The mounts, sorted by path.
    pub fn mounts(&self) -> (r: Vec<MountInfo>)
        requires
            self.wf(),
        ensures
            r@.len() == self.mount_count(),
            same_paths(info_paths(r@), self.mount_paths()),
            sorted_paths(info_paths(r@)),
            forall|k: int| 0 <= k < r@.len() ==> #[trigger] self.lists_mount(r@[k]),
    {
        let ghost points = self.mount_points();
        let ghost joined = self.mount_paths();
        let mut out: Vec<MountInfo> = Vec::new();
        let mut j: usize = 0;
        while j < self.mounts.len()
            invariant
                self.wf(),
                points == self.mount_points(),
                joined == self.mount_paths(),
                self.mounts@.len() == self.mount_count(),
                points.len() == self.mounts@.len(),
                j <= self.mounts@.len(),
                out@.len() == j,
                same_paths(info_paths(out@), joined.take(j as int)),
                sorted_paths(info_paths(out@)),
                forall|k: int| 0 <= k < out@.len() ==> #[trigger] self.lists_mount(out@[k]),
            decreases self.mounts@.len() - j,
        {
            let path_chars = chars_of(self.mounts[j].path.as_str());
            let ghost ps = info_paths(out@);
            let mut position: usize = 0;
            let mut searching = true;
            while searching && position < out.len()
                invariant
                    ps == info_paths(out@),
                    position <= out@.len(),
                    forall|k: int| 0 <= k < position ==> name_less(ps[k], path_chars@),
                    !searching ==> position < out@.len() && !name_less(
                        ps[position as int],
                        path_chars@,
                    ),
                decreases out@.len() - position + if searching {
                    1int
                } else {
                    0int
                },
            {
                let other = chars_of(out[position].path.as_str());
                if !compare_less(&other, &path_chars) {
                    searching = false;
                } else {
                    position = position + 1;
                }
            }
            let info = MountInfo {
                path: self.mounts[j].path.as_str().to_owned(),
                filesystem: self.mounts[j].filesystem.name(),
            };
            assert(self.lists_mount(info)) by {
                assert(self.mount_paths()[j as int] == join(self.mount_points()[j as int]));
                assert(info.path@ == self.mount_paths()[j as int]);
                assert(info.filesystem@ == self.filesystem_at(j as int).name_spec());
                assert(0 <= j < self.mount_count());
            }
            let ghost prior = out@;
            out.insert(position, info);
            proof {
                assert forall|k: int| 0 <= k < out@.len() implies #[trigger] self.lists_mount(out@[k]) by {
                    if k < position {
                        assert(out@[k] == prior[k]);
                    } else if k > position {
                        assert(out@[k] == prior[k - 1]);
                    }
                }
                assert(path_chars@ == joined[j as int]);
                assert(info_paths(out@) =~= ps.insert(position as int, path_chars@));
                lemma_sorted_insert(ps, position as int, path_chars@);
                lemma_same_paths_insert(ps, joined.take(j as int), position as int, joined[j as int]);
                assert(joined.take(j as int).push(joined[j as int]) =~= joined.take(j + 1));
            }
            j = j + 1;
        }
        proof {
            assert(joined.take(j as int) =~= joined);
        }
        out
    }
}

/// The paths a mount listing reports.
pub open spec fn info_paths(v: Seq<MountInfo>) -> Seq<Seq<char>> {
    v.map_values(|m: MountInfo| m.path@)
}

/// No path sorts before an earlier one.
pub open spec fn sorted_paths(s: Seq<Seq<char>>) -> bool {
    forall|a: int, b: int| 0 <= a < b < s.len() ==> !name_less(#[trigger] s[b], #[trigger] s[a])
}

/// `s` and `t` hold the same paths, each of either found in the other.
pub open spec fn same_paths(s: Seq<Seq<char>>, t: Seq<Seq<char>>) -> bool {
    &&& s.len() == t.len()
    &&& forall|k: int| 0 <= k < s.len() ==> t.contains(#[trigger] s[k])
    &&& forall|i: int| 0 <= i < t.len() ==> s.contains(#[trigger] t[i])
}

/// Inserting `x` after everything below it keeps a listing sorted.
proof fn lemma_sorted_insert(s: Seq<Seq<char>>, p: int, x: Seq<char>)
    requires
        sorted_paths(s),
        0 <= p <= s.len(),
        forall|k: int| 0 <= k < p ==> name_less(s[k], x),
        p < s.len() ==> !name_less(s[p], x),
    ensures
        sorted_paths(s.insert(p, x)),
{
    let n = s.insert(p, x);
    assert forall|a: int, b: int| 0 <= a < b < n.len() implies !name_less(
        #[trigger] n[b],
        #[trigger] n[a],
    ) by {
        if b == p {
            lemma_name_less_asymmetric(s[a], x);
        } else if a == p {
            assert(n[b] == s[b - 1]);
            if name_less(s[b - 1], x) && b - 1 > p {
                if s[b - 1] != s[p] {
                    lemma_name_less_total(s[b - 1], s[p]);
                    lemma_name_less_transitive(s[p], s[b - 1], x);
                }
            }
        } else {
            let aa = if a < p {
                a
            } else {
                a - 1
            };
            let bb = if b < p {
                b
            } else {
                b - 1
            };
            assert(n[a] == s[aa]);
            assert(n[b] == s[bb]);
        }
    }
}

/// Adding the same path to both sides keeps them holding the same paths.
proof fn lemma_same_paths_insert(s: Seq<Seq<char>>, t: Seq<Seq<char>>, p: int, x: Seq<char>)
    requires
        same_paths(s, t),
        0 <= p <= s.len(),
    ensures
        same_paths(s.insert(p, x), t.push(x)),
{
    let n = s.insert(p, x);
    let m = t.push(x);
    assert forall|k: int| 0 <= k < n.len() implies m.contains(#[trigger] n[k]) by {
        if k == p {
            assert(n[k] == m[t.len() as int]);
        } else {
            let kk = if k < p {
                k
            } else {
                k - 1
            };
            assert(n[k] == s[kk]);
            assert(t.contains(s[kk]));
            let i = choose|i: int| 0 <= i < t.len() && t[i] == s[kk];
            assert(m[i] == t[i]);
        }
    }
    assert forall|i: int| 0 <= i < m.len() implies n.contains(#[trigger] m[i]) by {
        if i == t.len() {
            assert(n[p] == x);
        } else {
            assert(m[i] == t[i]);
            assert(s.contains(t[i]));
            let k = choose|k: int| 0 <= k < s.len() && s[k] == t[i];
            if k < p {
                assert(n[k] == s[k]);
            } else {
                assert(n[k + 1] == s[k]);
            }
        }
    }
}

/// Everything but the filesystem that serves `path` stays as it was, and
/// the mount table stays well formed.
pub open spec fn changed_at<F: FileSystem>(before: Vfs<F>, after: Vfs<F>, path: Seq<char>) -> bool {
    match normalized_components(seq!['/'], path) {
        Err(_) => after == before,
        Ok(c) => after.same_except(&before, before.served_by(c)),
    }
}

/// Runs `op` with the parent directory of the last name of `comps[skip..]`:
/// 0 creates a file there, 1 a directory, 2 removes the name.
fn parent_op<F: FileSystem>(
    fs: &mut F,
    comps: &Vec<String>,
    skip: usize,
    op: u8,
    data: &[u8],
    offset: usize,
) -> (r: Result<Option<Metadata>, VfsError>)
    requires
        skip < comps@.len(),
    ensures
        (op == 0 || op == 1) ==> (r is Ok ==> r->Ok_0 is Some && final(fs).node_metadata(
            r->Ok_0->Some_0.inode,
        ) == Some(r->Ok_0->Some_0)),
        match resolve_spec(*old(fs), old(fs).root_spec(), texts(comps@).skip(skip as int).take(comps@.len() - 1 - skip)) {
            Err(e) => r == Err::<Option<Metadata>, VfsError>(e),
            Ok(parent) => match old(fs).metadata_spec(parent) {
                Err(e) => r == Err::<Option<Metadata>, VfsError>(e),
                Ok(m) => m.kind != NodeKind::Directory ==> r == Err::<Option<Metadata>, VfsError>(
                    VfsError::NotDirectory,
                ),
            },
        },
        old(fs).effects_stated() ==> entry_answer(*old(fs), *final(fs), texts(comps@).skip(skip as int), op, r),
        op == 0 && r is Ok ==> forall|off: int, n: int| #[trigger] final(fs).write_kept(r->Ok_0->Some_0.inode, off, n),
{
    proof {
        assert(texts(comps@).skip(skip as int).take(comps@.len() - 1 - skip) =~= texts(comps@).skip(skip as int).drop_last());
    }
    let last = comps.len() - 1;
    let parent = resolve_inode(&*fs, comps, skip, last)?;
    let metadata = fs.metadata(parent)?;
    if metadata.kind != NodeKind::Directory {
        return Err(VfsError::NotDirectory);
    }
    let name = comps[last].as_str();
    assert(name@ == texts(comps@).skip(skip as int).last());
    let ghost before = *fs;
    if op == 0 {
        let inode = fs.create_file(parent, name)?;
        let m = fs.metadata(inode)?;
        proof {
            if before.effects_stated() {
                assert(create_answer(before, *fs, parent, name@, NodeKind::File, Ok::<Inode, VfsError>(inode)));
            }
        }
        Ok(Some(m))
    } else if op == 1 {
        let inode = fs.create_dir(parent, name)?;
        let m = fs.metadata(inode)?;
        proof {
            if before.effects_stated() {
                assert(create_answer(before, *fs, parent, name@, NodeKind::Directory, Ok::<Inode, VfsError>(inode)));
            }
        }
        Ok(Some(m))
    } else {
        fs.remove(parent, name)?;
        proof {
            if before.effects_stated() {
                assert(remove_answer(before, *fs, parent, name@, Ok::<(), VfsError>(())));
            }
        }
        Ok(None)
    }
}

/// What creating (`op` 0 a file, 1 a directory) or removing (2) at the path
/// with components `c` answers and leaves, from `before` to `after`, when
/// the path is below the root of a filesystem that states its effects: the
/// name's error, or what that filesystem's create or remove answers.
pub open spec fn vfs_entry_answer<F: FileSystem>(
    before: Vfs<F>,
    after: Vfs<F>,
    c: Seq<Seq<char>>,
    op: u8,
    r: Result<Option<Metadata>, VfsError>,
) -> bool {
    let i = before.served_by(c);
    let rest = c.skip(before.mount_points()[i].len() as int);
    c.len() > before.mount_points()[i].len() && before.filesystem_at(i).effects_stated() ==> match name_error(
        rest.last(),
    ) {
        Some(e) => r == Err::<Option<Metadata>, VfsError>(e) && after.filesystem_at(i) == before.filesystem_at(i),
        None => entry_answer(before.filesystem_at(i), after.filesystem_at(i), rest, op, r),
    }
}

/// What creating (`op` 0 a file, 1 a directory) or removing (2) the last
/// name of `rest`, in the directory its other names reach, answers and
/// leaves, from `before` to `after`: the errors of reaching a directory with
/// nothing changed, then what the filesystem's create or remove answers.
pub open spec fn entry_answer<F: FileSystem>(
    before: F,
    after: F,
    rest: Seq<Seq<char>>,
    op: u8,
    r: Result<Option<Metadata>, VfsError>,
) -> bool {
    let name = rest.last();
    match resolve_spec(before, before.root_spec(), rest.drop_last()) {
        Err(e) => r == Err::<Option<Metadata>, VfsError>(e) && after == before,
        Ok(p) => match before.metadata_spec(p) {
            Err(e) => r == Err::<Option<Metadata>, VfsError>(e) && after == before,
            Ok(m) => if m.kind != NodeKind::Directory {
                r == Err::<Option<Metadata>, VfsError>(VfsError::NotDirectory) && after == before
            } else if op == 0 || op == 1 {
                let kind = if op == 0 {
                    NodeKind::File
                } else {
                    NodeKind::Directory
                };
                &&& create_answer(
                    before,
                    after,
                    p,
                    name,
                    kind,
                    match r {
                        Ok(Some(md)) => Ok::<Inode, VfsError>(md.inode),
                        Ok(None) => Err(VfsError::NotFound),
                        Err(e) => Err(e),
                    },
                )
                &&& r matches Ok(o) ==> o matches Some(md) && md == Metadata { inode: md.inode, kind, len: 0 }
            } else {
                &&& remove_answer(
                    before,
                    after,
                    p,
                    name,
                    match r {
                        Ok(_) => Ok::<(), VfsError>(()),
                        Err(e) => Err(e),
                    },
                )
                &&& r is Ok ==> r == Ok::<Option<Metadata>, VfsError>(None)
            },
        },
    }
}

/// Runs `op` on the node `comps[skip..]` names: 0 writes `data` at
/// `offset`, 1 truncates to `offset` bytes.
fn node_op<F: FileSystem>(
    fs: &mut F,
    comps: &Vec<String>,
    skip: usize,
    op: u8,
    data: &[u8],
    offset: usize,
) -> (r: Result<usize, VfsError>)
    requires
        skip <= comps@.len(),
    ensures
        op == 0 && r is Ok ==> r == Ok::<usize, VfsError>(data@.len() as usize),
        resolve_spec(*old(fs), old(fs).root_spec(), texts(comps@).skip(skip as int)) matches Err(e) ==> r == Err::<
            usize,
            VfsError,
        >(e),
        old(fs).effects_stated() ==> node_answer(
            *old(fs),
            *final(fs),
            resolve_spec(*old(fs), old(fs).root_spec(), texts(comps@).skip(skip as int)),
            op,
            offset,
            data@,
            r,
        ),
        kept_write_answer(
            *old(fs),
            *final(fs),
            resolve_spec(*old(fs), old(fs).root_spec(), texts(comps@).skip(skip as int)),
            op,
            offset,
            data@,
            r,
        ),
{
    proof {
        assert(texts(comps@).skip(skip as int).take(comps@.len() - skip) =~= texts(comps@).skip(skip as int));
    }
    let inode = resolve_inode(&*fs, comps, skip, comps.len())?;
    if op == 0 {
        fs.write(inode, offset, data)
    } else {
        let result = fs.truncate(inode, offset);
        match result {
            Ok(()) => Ok(0),
            Err(e) => Err(e),
        }
    }
}

/// What running `op` (0 write, 1 truncate) on the node `resolution` names
/// answers and leaves, from `before` to `after`: the resolution's error with
/// nothing changed, or what the write or truncate answers.
pub open spec fn node_answer<F: FileSystem>(
    before: F,
    after: F,
    resolution: Result<Inode, VfsError>,
    op: u8,
    offset: usize,
    data: Seq<u8>,
    r: Result<usize, VfsError>,
) -> bool {
    match resolution {
        Err(e) => r == Err::<usize, VfsError>(e) && after == before,
        Ok(n) => if op == 0 {
            write_answer(before, after, n, offset, data, r)
        } else {
            truncate_answer(
                before,
                after,
                n,
                offset,
                match r {
                    Ok(_) => Ok::<(), VfsError>(()),
                    Err(e) => Err(e),
                },
            ) && (r is Ok ==> r == Ok::<usize, VfsError>(0))
        },
    }
}

/// Follows the names `comps[from..to]` from the root of `fs`.
fn resolve_inode<F: FileSystem>(fs: &F, comps: &Vec<String>, from: usize, to: usize) -> (r: Result<
    Inode,
    VfsError,
>)
    requires
        from <= to <= comps@.len(),
    ensures
        r == resolve_spec(*fs, fs.root_spec(), texts(comps@).skip(from as int).take(to - from)),
        r is Ok ==> walk(
            *fs,
            fs.root_spec(),
            texts(comps@).skip(from as int).take(to - from),
        ) == Some(r->Ok_0),
{
    let ghost all = texts(comps@).skip(from as int).take(to - from);
    let mut inode = fs.root_inode();
    let mut i = from;
    assert(all.skip(0) =~= all);
    while i < to
        invariant
            from <= i <= to <= comps@.len(),
            all == texts(comps@).skip(from as int).take(to - from),
            walk(*fs, fs.root_spec(), all) == walk(*fs, inode, all.skip(i - from)),
            resolve_spec(*fs, fs.root_spec(), all) == resolve_spec(*fs, inode, all.skip(i - from)),
        decreases to - i,
    {
        let next = fs.lookup(inode, comps[i].as_str())?;
        proof {
            let rest = all.skip(i - from);
            assert(rest[0] == comps@[i as int]@);
            assert(rest.drop_first() =~= all.skip(i + 1 - from));
        }
        inode = next;
        i = i + 1;
    }
    proof {
        assert(all.skip(to - from).len() == 0);
        assert(all.skip(0) =~= all);
    }
    Ok(inode)
}

/// Whether two component lists hold the same texts.
fn components_equal(a: &Vec<String>, b: &Vec<String>) -> (r: bool)
    ensures
        r == (texts(a@) == texts(b@)),
{
    if a.len() != b.len() {
        return false;
    }
    let r = components_prefix(a, b);
    proof {
        if r {
            assert(texts(b@).take(a@.len() as int) =~= texts(b@));
        } else {
            if texts(a@) == texts(b@) {
                assert(texts(b@).take(a@.len() as int) =~= texts(b@));
            }
        }
    }
    r
}

/// Whether the texts of `prefix` are a leading part of those of `comps`.
fn components_prefix(prefix: &Vec<String>, comps: &Vec<String>) -> (r: bool)
    ensures
        r == is_prefix(texts(prefix@), texts(comps@)),
{
    if prefix.len() > comps.len() {
        return false;
    }
    let mut i: usize = 0;
    while i < prefix.len()
        invariant
            prefix@.len() <= comps@.len(),
            i <= prefix@.len(),
            forall|k: int| 0 <= k < i ==> prefix@[k]@ == comps@[k]@,
        decreases prefix@.len() - i,
    {
        if !string_eq(&prefix[i], &comps[i]) {
            assert(texts(comps@).take(prefix@.len() as int)[i as int] == comps@[i as int]@);
            return false;
        }
        i = i + 1;
    }
    assert(texts(comps@).take(prefix@.len() as int) =~= texts(prefix@));
    true
}

/// Whether two strings hold the same text.
fn string_eq(a: &String, b: &String) -> (r: bool)
    ensures
        r == (a@ == b@),
{
    *a == *b
}


/// A read gives back what a file holds: when bytes `d` sit at `offset` of
/// the contents, a read from `offset` fills the buffer with them, as many as
/// the buffer holds, and no fewer than `d` has when the buffer is large
/// enough.
pub proof fn law_read_returns(contents: Seq<u8>, offset: int, d: Seq<u8>, before: Seq<u8>, after: Seq<u8>, count: int)
    requires
        0 <= offset,
        offset + d.len() <= contents.len(),
        forall|j: int| 0 <= j < d.len() ==> contents[offset + j] == d[j],
        read_window(contents, offset, before, after, count),
    ensures
        count >= if before.len() < d.len() {
            before.len() as int
        } else {
            d.len() as int
        },
        forall|k: int| 0 <= k < count && k < d.len() ==> after[k] == d[k],
{
}
/// Following names from `inode` reaches the same node, or fails the same
/// way, in two filesystems whose lookups all agree.
pub proof fn lemma_resolve_same<F: FileSystem>(a: F, b: F, inode: Inode, comps: Seq<Seq<char>>)
    requires
        forall|p: Inode, n: Seq<char>| #[trigger] b.lookup_spec(p, n) == a.lookup_spec(p, n),
    ensures
        resolve_spec(b, inode, comps) == resolve_spec(a, inode, comps),
    decreases comps.len(),
{
    if comps.len() > 0 {
        assert(b.lookup_spec(inode, comps[0]) == a.lookup_spec(inode, comps[0]));
        if let Ok(next) = a.lookup_spec(inode, comps[0]) {
            lemma_resolve_same(a, b, next, comps.drop_first());
        }
    }
}

/// What a read gives back of a write: after a successful write of `data`
/// at `offset` to the file at the path with components `c`, served by a
/// filesystem that states its effects, the path names the same file, whose
/// bytes are its old ones with `data` spliced in (grown with zeros to reach
/// it), and whose metadata gives that length.
pub proof fn law_write_then_read<F: FileSystem>(
    before: Vfs<F>,
    after: Vfs<F>,
    c: Seq<Seq<char>>,
    offset: usize,
    data: Seq<u8>,
    r: Result<usize, VfsError>,
)
    requires
        before.wf(),
        after.same_except(&before, before.served_by(c)),
        before.filesystem_at(before.served_by(c)).effects_stated(),
        node_answer(
            before.filesystem_at(before.served_by(c)),
            after.filesystem_at(before.served_by(c)),
            before.resolution(c),
            0,
            offset,
            data,
            r,
        ),
        r is Ok,
    ensures
        after.served_by(c) == before.served_by(c),
        after.resolution(c) == before.resolution(c),
        before.resolution(c) is Ok,
        ({
            let i = before.served_by(c);
            let n = before.resolution(c)->Ok_0;
            let bytes = written(before.filesystem_at(i).contents(n), offset as int, data);
            &&& after.filesystem_at(i).contents(n) == bytes
            &&& after.metadata_at(c) == Ok::<Metadata, VfsError>(
                Metadata { inode: n, kind: NodeKind::File, len: bytes.len() as u64 },
            )
        }),
{
    let i = before.served_by(c);
    let a = before.filesystem_at(i);
    let b = after.filesystem_at(i);
    assert(after.mount_points() == before.mount_points());
    lemma_resolve_same(a, b, a.root_spec(), c.skip(before.mount_points()[i].len() as int));
}

/// Walking names through two filesystems with the same children reaches
/// the same node.
pub proof fn lemma_walk_same<F: FileSystem>(a: F, b: F, inode: Inode, comps: Seq<Seq<char>>)
    requires
        forall|p: Inode, n: Seq<char>| #[trigger] b.child(p, n) == a.child(p, n),
    ensures
        walk(b, inode, comps) == walk(a, inode, comps),
    decreases comps.len(),
{
    if comps.len() > 0 {
        assert(b.child(inode, comps[0]) == a.child(inode, comps[0]));
        if let Some(next) = a.child(inode, comps[0]) {
            lemma_walk_same(a, b, next, comps.drop_first());
        }
    }
}

/// What a read gives back of a write on any filesystem that promised it
/// (`write_kept`), one whose writes can fail included: after a successful
/// write of `data` at `offset` to the file at the path with components
/// `c`, the path names the same node, and that node's bytes are its old
/// ones with `data` written in (grown with zeros to reach it).
pub proof fn law_kept_write_then_read<F: FileSystem>(
    before: Vfs<F>,
    after: Vfs<F>,
    c: Seq<Seq<char>>,
    offset: usize,
    data: Seq<u8>,
    r: Result<usize, VfsError>,
)
    requires
        before.wf(),
        after.same_except(&before, before.served_by(c)),
        kept_write_answer(
            before.filesystem_at(before.served_by(c)),
            after.filesystem_at(before.served_by(c)),
            before.resolution(c),
            0,
            offset,
            data,
            r,
        ),
        r is Ok,
        before.resolution(c) is Ok,
        before.filesystem_at(before.served_by(c)).write_kept(before.resolution(c)->Ok_0, offset as int, data.len() as int),
    ensures
        after.served_by(c) == before.served_by(c),
        after.resolution(c) == before.resolution(c),
        after.resolved(c) == before.resolved(c),
        after.filesystem_at(before.served_by(c)).contents(before.resolution(c)->Ok_0) == written(
            before.filesystem_at(before.served_by(c)).contents(before.resolution(c)->Ok_0),
            offset as int,
            data,
        ),
{
    let i = before.served_by(c);
    let a = before.filesystem_at(i);
    let b = after.filesystem_at(i);
    assert(after.mount_points() == before.mount_points());
    lemma_resolve_same(a, b, a.root_spec(), c.skip(before.mount_points()[i].len() as int));
    lemma_walk_same(a, b, a.root_spec(), c.skip(before.mount_points()[i].len() as int));
}

} // verus!
