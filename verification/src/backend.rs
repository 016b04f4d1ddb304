//! The filesystems the kernel mounts, as one type: the in-memory root and
//! GenericFS volumes on a block device.

use crate::block::BlockDevice;
use crate::genericfs::{
    create_outcome_disk, disk_read_dir_outcome, disk_read_outcome, disk_remove_outcome,
    disk_truncate_outcome, disk_write_outcome, GenericFs,
};
use crate::ramfs::{
    create_outcome, ram_read_dir_outcome, ram_read_outcome, ram_truncate_outcome, ram_write_outcome,
    remove_outcome, RamFs,
};
use crate::vfs::{DirEntry, FileSystem, Inode, Metadata, NodeKind, VfsError};
use vstd::prelude::*;

verus! {

pub enum Backend<D: BlockDevice> {
    Ram(RamFs),
    Disk(GenericFs<D>),
}

impl<D: BlockDevice> FileSystem for Backend<D> {
    open spec fn name_spec(&self) -> Seq<char> {
        match self {
            Backend::Ram(fs) => fs.name_spec(),
            Backend::Disk(fs) => fs.name_spec(),
        }
    }

    open spec fn metadata_spec(&self, inode: Inode) -> Result<Metadata, VfsError> {
        match self {
            Backend::Ram(fs) => fs.metadata_spec(inode),
            Backend::Disk(fs) => fs.metadata_spec(inode),
        }
    }

    open spec fn lookup_spec(&self, parent: Inode, name: Seq<char>) -> Result<Inode, VfsError> {
        match self {
            Backend::Ram(fs) => fs.lookup_spec(parent, name),
            Backend::Disk(fs) => fs.lookup_spec(parent, name),
        }
    }

    open spec fn node_metadata(&self, inode: Inode) -> Option<Metadata> {
        match self {
            Backend::Ram(fs) => fs.node_metadata(inode),
            Backend::Disk(fs) => fs.node_metadata(inode),
        }
    }

    open spec fn child(&self, parent: Inode, name: Seq<char>) -> Option<Inode> {
        match self {
            Backend::Ram(fs) => fs.child(parent, name),
            Backend::Disk(fs) => fs.child(parent, name),
        }
    }

    open spec fn contents(&self, inode: Inode) -> Seq<u8> {
        match self {
            Backend::Ram(fs) => fs.contents(inode),
            Backend::Disk(fs) => fs.contents(inode),
        }
    }

    open spec fn effects_stated(&self) -> bool {
        match self {
            Backend::Ram(fs) => fs.effects_stated(),
            Backend::Disk(fs) => fs.effects_stated(),
        }
    }

    open spec fn write_kept(&self, inode: Inode, offset: int, n: int) -> bool {
        match self {
            Backend::Ram(fs) => fs.write_kept(inode, offset, n),
            Backend::Disk(fs) => fs.write_kept(inode, offset, n),
        }
    }

    open spec fn inode_room(&self) -> nat {
        match self {
            Backend::Ram(fs) => fs.inode_room(),
            Backend::Disk(fs) => fs.inode_room(),
        }
    }

    open spec fn root_spec(&self) -> Inode {
        match self {
            Backend::Ram(fs) => fs.root_spec(),
            Backend::Disk(fs) => fs.root_spec(),
        }
    }

    fn name(&self) -> &'static str {
        match self {
            Backend::Ram(fs) => fs.name(),
            Backend::Disk(fs) => fs.name(),
        }
    }

    fn root_inode(&self) -> (r: Inode) {
        match self {
            Backend::Ram(fs) => fs.root_inode(),
            Backend::Disk(fs) => fs.root_inode(),
        }
    }

    fn metadata(&self, inode: Inode) -> (r: Result<Metadata, VfsError>) {
        match self {
            Backend::Ram(fs) => fs.metadata(inode),
            Backend::Disk(fs) => fs.metadata(inode),
        }
    }

    fn lookup(&self, parent: Inode, name: &str) -> (r: Result<Inode, VfsError>) {
        match self {
            Backend::Ram(fs) => fs.lookup(parent, name),
            Backend::Disk(fs) => fs.lookup(parent, name),
        }
    }

    fn read_dir(&self, inode: Inode) -> (r: Result<Vec<DirEntry>, VfsError>)
        ensures
            match *self {
                Backend::Ram(fs) => ram_read_dir_outcome(fs, inode, r),
                Backend::Disk(fs) => disk_read_dir_outcome(fs, inode, r),
            },
    {
        match self {
            Backend::Ram(fs) => fs.read_dir(inode),
            Backend::Disk(fs) => fs.read_dir(inode),
        }
    }

    fn create_file(&mut self, parent: Inode, name: &str) -> (r: Result<Inode, VfsError>)
        ensures
            match (*old(self), *final(self)) {
                (Backend::Ram(a), Backend::Ram(b)) => create_outcome(a, b, parent, name@, NodeKind::File, r),
                (Backend::Disk(a), Backend::Disk(b)) => create_outcome_disk(a, b, parent, name@, 1, r),
                _ => false,
            },
    {
        match self {
            Backend::Ram(fs) => fs.create_file(parent, name),
            Backend::Disk(fs) => fs.create_file(parent, name),
        }
    }

    fn create_dir(&mut self, parent: Inode, name: &str) -> (r: Result<Inode, VfsError>)
        ensures
            match (*old(self), *final(self)) {
                (Backend::Ram(a), Backend::Ram(b)) => create_outcome(a, b, parent, name@, NodeKind::Directory, r),
                (Backend::Disk(a), Backend::Disk(b)) => create_outcome_disk(a, b, parent, name@, 2, r),
                _ => false,
            },
    {
        match self {
            Backend::Ram(fs) => fs.create_dir(parent, name),
            Backend::Disk(fs) => fs.create_dir(parent, name),
        }
    }

    fn read(&self, inode: Inode, offset: usize, buffer: &mut [u8]) -> (r: Result<usize, VfsError>)
        ensures
            match *self {
                Backend::Ram(fs) => ram_read_outcome(fs, inode, old(buffer)@, final(buffer)@, r),
                Backend::Disk(fs) => disk_read_outcome(fs, inode, offset, old(buffer)@, r),
            },
    {
        match self {
            Backend::Ram(fs) => fs.read(inode, offset, buffer),
            Backend::Disk(fs) => fs.read(inode, offset, buffer),
        }
    }

    fn write(&mut self, inode: Inode, offset: usize, data: &[u8]) -> (r: Result<usize, VfsError>)
        ensures
            match (*old(self), *final(self)) {
                (Backend::Ram(a), Backend::Ram(b)) => ram_write_outcome(a, b, inode, offset, data@, r),
                (Backend::Disk(a), Backend::Disk(b)) => disk_write_outcome(a, b, inode, offset, data@, r),
                _ => false,
            },
    {
        match self {
            Backend::Ram(fs) => fs.write(inode, offset, data),
            Backend::Disk(fs) => fs.write(inode, offset, data),
        }
    }

    fn truncate(&mut self, inode: Inode, len: usize) -> (r: Result<(), VfsError>)
        ensures
            match (*old(self), *final(self)) {
                (Backend::Ram(a), Backend::Ram(b)) => ram_truncate_outcome(a, b, inode, len, r),
                (Backend::Disk(a), Backend::Disk(b)) => disk_truncate_outcome(a, b, inode, len, r),
                _ => false,
            },
    {
        match self {
            Backend::Ram(fs) => fs.truncate(inode, len),
            Backend::Disk(fs) => fs.truncate(inode, len),
        }
    }

    fn remove(&mut self, parent: Inode, name: &str) -> (r: Result<(), VfsError>)
        ensures
            match (*old(self), *final(self)) {
                (Backend::Ram(a), Backend::Ram(b)) => remove_outcome(a, b, parent, name@, r),
                (Backend::Disk(a), Backend::Disk(b)) => disk_remove_outcome(a, b, parent, name@, r),
                _ => false,
            },
    {
        proof {
            lemma_children_match(*self, self.child(parent, name@)->Some_0);
        }
        match self {
            Backend::Ram(fs) => fs.remove(parent, name),
            Backend::Disk(fs) => fs.remove(parent, name),
        }
    }
}

/// Node `t` of a backend has a child exactly when it has one in the
/// filesystem the backend holds.
proof fn lemma_children_match<D: BlockDevice>(b: Backend<D>, t: Inode)
    ensures
        (exists|n: Seq<char>| #[trigger] b.child(t, n) is Some) <==> match b {
            Backend::Ram(f) => exists|n: Seq<char>| #[trigger] f.child(t, n) is Some,
            Backend::Disk(f) => exists|n: Seq<char>| #[trigger] f.child(t, n) is Some,
        },
{
    if exists|n: Seq<char>| #[trigger] b.child(t, n) is Some {
        let n = choose|n: Seq<char>| #[trigger] b.child(t, n) is Some;
        match b {
            Backend::Ram(f) => assert(f.child(t, n) is Some),
            Backend::Disk(f) => assert(f.child(t, n) is Some),
        }
    }
    match b {
        Backend::Ram(f) => {
            if exists|n: Seq<char>| #[trigger] f.child(t, n) is Some {
                let n = choose|n: Seq<char>| #[trigger] f.child(t, n) is Some;
                assert(b.child(t, n) is Some);
            }
        },
        Backend::Disk(f) => {
            if exists|n: Seq<char>| #[trigger] f.child(t, n) is Some {
                let n = choose|n: Seq<char>| #[trigger] f.child(t, n) is Some;
                assert(b.child(t, n) is Some);
            }
        },
    }
}

} // verus!
