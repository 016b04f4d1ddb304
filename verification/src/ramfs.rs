//! A read-write filesystem held entirely in memory.

use crate::path::{chars_of, name_error, validate_name};
use crate::vfs::{
    compare_less, read_window, lemma_name_less_irreflexive, lemma_name_less_total,
    lemma_name_less_transitive, name_less, DirEntry, FileSystem, Inode, Metadata, NodeKind,
    VfsError,
};
use std::collections::BTreeMap;
use vstd::prelude::*;

verus! {

broadcast use vstd::laws_cmp::group_laws_cmp, vstd::std_specs::btree::group_btree_axioms;

/// A directory's entries: names with their inodes.
pub open spec fn entries_view(children: Seq<(String, Inode)>) -> Seq<(Seq<char>, Inode)> {
    children.map_values(|p: (String, Inode)| (p.0@, p.1))
}

/// The inode that `name` maps to in `entries`, if any.
pub open spec fn find_entry(entries: Seq<(Seq<char>, Inode)>, name: Seq<char>) -> Option<Inode>
    decreases entries.len(),
{
    if entries.len() == 0 {
        None
    } else if entries[0].0 == name {
        Some(entries[0].1)
    } else {
        find_entry(entries.drop_first(), name)
    }
}

/// The names of `entries` are strictly increasing.
pub open spec fn sorted_entries(entries: Seq<(Seq<char>, Inode)>) -> bool {
    forall|j: int, k: int|
        0 <= j < k < entries.len() ==> name_less(#[trigger] entries[j].0, #[trigger] entries[k].0)
}

/// `c` resized to `len` bytes, new bytes being zero.
pub open spec fn resized(c: Seq<u8>, len: int) -> Seq<u8> {
    if len <= c.len() {
        c.take(len)
    } else {
        c + Seq::new((len - c.len()) as nat, |i: int| 0u8)
    }
}

/// `c` after writing `d` at `offset`, the file first growing with zeros to
/// reach the end of the write.
pub open spec fn written(c: Seq<u8>, offset: int, d: Seq<u8>) -> Seq<u8> {
    let end = offset + d.len();
    let grown = if end > c.len() {
        resized(c, end)
    } else {
        c
    };
    grown.take(offset) + d + grown.skip(end)
}

/// What a write puts at `offset` is what a read from `offset` gives back:
/// reading the written contents from `offset` fills the buffer with the
/// written bytes, as many as the buffer holds, and no fewer than the write
/// had when the buffer is large enough.
pub proof fn law_read_back_write(c: Seq<u8>, offset: int, d: Seq<u8>, before: Seq<u8>, after: Seq<u8>, count: int)
    requires
        0 <= offset,
        read_window(written(c, offset, d), offset, before, after, count),
    ensures
        count >= if before.len() < d.len() {
            before.len() as int
        } else {
            d.len() as int
        },
        forall|k: int| 0 <= k < count && k < d.len() ==> after[k] == d[k],
{
    let end = offset + d.len();
    let grown = if end > c.len() {
        resized(c, end)
    } else {
        c
    };
    assert(grown.len() >= end);
    let w = written(c, offset, d);
    assert(w.len() == grown.len());
    assert forall|k: int| 0 <= k < d.len() implies w[offset + k] == d[k] by {}
    crate::vfs::law_read_returns(w, offset, d, before, after, count);
}

/// Node `i` of `nodes` is well placed in the tree: files hold no entries and
/// no entry names the root.
spec fn tree_node_ok(nodes: Map<Inode, RamNode>, i: Inode) -> bool {
    &&& nodes[i].kind == NodeKind::File ==> nodes[i].children@.len() == 0
    &&& forall|k: int| 0 <= k < nodes[i].children@.len() ==> #[trigger] nodes[i].children@[k].1 != 1
}

struct RamNode {
    kind: NodeKind,
    children: Vec<(String, Inode)>,
    data: Vec<u8>,
}

impl RamNode {
    fn directory() -> (r: Self)
        ensures
            r.kind == NodeKind::Directory,
            r.children@.len() == 0,
            r.data@.len() == 0,
    {
        RamNode { kind: NodeKind::Directory, children: Vec::new(), data: Vec::new() }
    }

    fn file() -> (r: Self)
        ensures
            r.kind == NodeKind::File,
            r.children@.len() == 0,
            r.data@.len() == 0,
    {
        RamNode { kind: NodeKind::File, children: Vec::new(), data: Vec::new() }
    }
}

/// Simple read-write memory filesystem used as Generic's first VFS backend.
pub struct RamFs {
    nodes: BTreeMap<Inode, RamNode>,
    next_inode: Inode,
}

impl RamFs {
    #[verifier::type_invariant]
    closed spec fn inv(&self) -> bool {
        let nodes = self.nodes@;
        &&& nodes.contains_key(1)
        &&& nodes[1].kind == NodeKind::Directory
        &&& self.next_inode >= 2
        &&& forall|i: Inode| #[trigger] nodes.contains_key(i) ==> 1 <= i < self.next_inode
        &&& forall|i: Inode|
            #[trigger] nodes.contains_key(i) ==> {
                let entries = entries_view(nodes[i].children@);
                &&& sorted_entries(entries)
                &&& forall|k: int|
                    0 <= k < entries.len() ==> nodes.contains_key(#[trigger] entries[k].1)
            }
        &&& forall|i: Inode| #[trigger] nodes.contains_key(i) ==> tree_node_ok(nodes, i)
        &&& forall|i: Inode, j: Inode, k: int, l: int|
            #![trigger nodes[i].children@[k], nodes[j].children@[l]]
            nodes.contains_key(i) && nodes.contains_key(j) && 0 <= k < nodes[i].children@.len()
                && 0 <= l < nodes[j].children@.len() && nodes[i].children@[k].1
                == nodes[j].children@[l].1 ==> i == j && k == l
    }

    /// Whether `inode` names a node.
    pub closed spec fn has_node(&self, inode: Inode) -> bool {
        self.nodes@.contains_key(inode)
    }

    /// The kind of node `inode`.
    pub closed spec fn kind_of(&self, inode: Inode) -> NodeKind {
        self.nodes@[inode].kind
    }

    /// The entries of directory `inode`, in name order.
    pub closed spec fn entries_of(&self, inode: Inode) -> Seq<(Seq<char>, Inode)> {
        entries_view(self.nodes@[inode].children@)
    }

    /// The bytes of file `inode`.
    pub closed spec fn data_of(&self, inode: Inode) -> Seq<u8> {
        self.nodes@[inode].data@
    }

    /// The inode the next node created gets.
    pub closed spec fn next_spec(&self) -> Inode {
        self.next_inode
    }

    pub fn new() -> (r: Self)
        ensures
            r.has_node(1),
            r.kind_of(1) == NodeKind::Directory,
            r.entries_of(1).len() == 0,
            forall|i: Inode| r.has_node(i) <==> i == 1,
            r.next_spec() == 2,
    {
        let mut nodes: BTreeMap<Inode, RamNode> = BTreeMap::new();
        nodes.insert(1, RamNode::directory());
        assert(entries_view(nodes@[1].children@) =~= Seq::empty());
        RamFs { nodes, next_inode: 2 }
    }

    /// Adds an empty file or directory called `name` to directory `parent`.
    fn create_node(&mut self, parent: Inode, name: &str, kind: NodeKind) -> (r: Result<
        Inode,
        VfsError,
    >)
        ensures
            create_outcome(*old(self), *final(self), parent, name@, kind, r),
    {
        proof {
            use_type_invariant(&*self);
        }
        validate_name(name)?;
        let name_chars = chars_of(name);
        let position = match self.nodes.get(&parent) {
            None => {
                return Err(VfsError::NotFound);
            },
            Some(directory) => {
                if directory.kind != NodeKind::Directory {
                    return Err(VfsError::NotDirectory);
                }
                match insert_position(&directory.children, &name_chars) {
                    Err(_) => {
                        return Err(VfsError::AlreadyExists);
                    },
                    Ok(position) => position,
                }
            },
        };
        if self.next_inode == u64::MAX {
            return Err(VfsError::InodeExhausted);
        }
        let inode = self.next_inode;
        let node = match kind {
            NodeKind::File => RamNode::file(),
            NodeKind::Directory => RamNode::directory(),
        };
        let ghost old_nodes = self.nodes@;
        let mut taken = RamFs::new();
        std::mem::swap(self, &mut taken);
        let RamFs { mut nodes, next_inode: _ } = taken;
        let mut directory = nodes.remove(&parent).unwrap();
        let ghost old_entries = entries_view(directory.children@);
        directory.children.insert(position, (name.to_owned(), inode));
        proof {
            assert(entries_view(directory.children@) =~= old_entries.insert(
                position as int,
                (name@, inode),
            ));
            lemma_insert_sorted(old_entries, position as int, name@, inode);
        }
        nodes.insert(parent, directory);
        nodes.insert(inode, node);
        proof {
            assert(entries_view(nodes@[inode].children@) =~= Seq::empty());
            assert forall|i: Inode| #[trigger] nodes@.contains_key(i) implies {
                let entries = entries_view(nodes@[i].children@);
                &&& sorted_entries(entries)
                &&& forall|k: int|
                    0 <= k < entries.len() ==> nodes@.contains_key(#[trigger] entries[k].1)
            } by {
                if i != parent && i != inode {
                    assert(nodes@[i] == old_nodes[i]);
                    let entries = entries_view(nodes@[i].children@);
                    assert forall|k: int| 0 <= k < entries.len() implies nodes@.contains_key(
                        #[trigger] entries[k].1,
                    ) by {
                        assert(old_nodes.contains_key(entries[k].1));
                    }
                }
                if i == parent && i != inode {
                    let entries = entries_view(nodes@[i].children@);
                    assert forall|k: int| 0 <= k < entries.len() implies nodes@.contains_key(
                        #[trigger] entries[k].1,
                    ) by {
                        if k < position {
                            assert(entries[k] == old_entries[k]);
                            assert(old_nodes.contains_key(old_entries[k].1));
                        } else if k > position {
                            assert(entries[k] == old_entries[k - 1]);
                            assert(old_nodes.contains_key(old_entries[k - 1].1));
                        }
                    }
                }
            }
        }
        proof {
            assert(!old_nodes.contains_key(inode));
            assert forall|i: Inode| #[trigger] nodes@.contains_key(i) implies tree_node_ok(
                nodes@,
                i,
            ) by {
                if i != inode && i != parent {
                    assert(nodes@[i] == old_nodes[i]);
                    assert(tree_node_ok(old_nodes, i));
                } else if i == parent {
                    assert(tree_node_ok(old_nodes, i));
                    assert forall|k: int| 0 <= k < nodes@[i].children@.len() implies #[trigger] nodes@[i].children@[k].1 != 1 by {
                        if k < position {
                            assert(nodes@[i].children@[k] == old_nodes[i].children@[k]);
                        } else if k > position {
                            assert(nodes@[i].children@[k] == old_nodes[i].children@[k - 1]);
                        }
                    }
                }
            }
            assert forall|i: Inode, j: Inode, k: int, l: int|
                #![trigger nodes@[i].children@[k], nodes@[j].children@[l]]
                nodes@.contains_key(i) && nodes@.contains_key(j) && 0 <= k
                    < nodes@[i].children@.len() && 0 <= l < nodes@[j].children@.len()
                    && nodes@[i].children@[k].1 == nodes@[j].children@[l].1 implies i == j && k
                == l by {
                assert(i != inode && j != inode);
                let kk = if i == parent && k > position {
                    k - 1
                } else {
                    k
                };
                let ll = if j == parent && l > position {
                    l - 1
                } else {
                    l
                };
                if i == parent && k == position {
                    if !(j == parent && l == position) {
                        assert(nodes@[j].children@[l] == old_nodes[j].children@[ll]);
                        assert(old_nodes.contains_key(entries_view(old_nodes[j].children@)[ll].1));
                    }
                } else if j == parent && l == position {
                    assert(nodes@[i].children@[k] == old_nodes[i].children@[kk]);
                    assert(old_nodes.contains_key(entries_view(old_nodes[i].children@)[kk].1));
                } else {
                    assert(nodes@[i].children@[k] == old_nodes[i].children@[kk]);
                    assert(nodes@[j].children@[l] == old_nodes[j].children@[ll]);
                }
            }
        }
        *self = RamFs { nodes, next_inode: inode + 1 };
        proof {
            lemma_find_entry_insert(old_entries, position as int, name@, inode);
        }
        Ok(inode)
    }
}


impl RamFs {
    /// Takes the node table out, leaving an empty filesystem behind.
    fn take_nodes(&mut self) -> (r: (BTreeMap<Inode, RamNode>, Inode))
        ensures
            r.0@ == old(self).nodes@,
            r.1 == old(self).next_inode,
    {
        let mut taken = RamFs::new();
        std::mem::swap(self, &mut taken);
        let RamFs { nodes, next_inode } = taken;
        (nodes, next_inode)
    }

    /// The file `inode`, for the operations that work on file contents.
    fn file_node(&self, inode: Inode) -> (r: Result<&RamNode, VfsError>)
        ensures
            match r {
                Ok(node) => self.has_node(inode) && self.kind_of(inode) == NodeKind::File
                    && node.data@ == self.data_of(inode),
                Err(e) => e == if !self.has_node(inode) {
                    VfsError::NotFound
                } else {
                    VfsError::IsDirectory
                } && (self.has_node(inode) ==> self.kind_of(inode) == NodeKind::Directory),
            },
    {
        match self.nodes.get(&inode) {
            None => Err(VfsError::NotFound),
            Some(node) => {
                if node.kind == NodeKind::Directory {
                    Err(VfsError::IsDirectory)
                } else {
                    Ok(node)
                }
            },
        }
    }

    /// Replaces the bytes of file `inode`.
    fn set_data(&mut self, inode: Inode, data: Vec<u8>)
        requires
            old(self).has_node(inode),
            old(self).kind_of(inode) == NodeKind::File,
        ensures
            final(self).data_of(inode) == data@,
            final(self).next_spec() == old(self).next_spec(),
            forall|i: Inode| final(self).has_node(i) <==> old(self).has_node(i),
            forall|i: Inode|
                old(self).has_node(i) ==> final(self).kind_of(i) == old(self).kind_of(i)
                    && final(self).entries_of(i) == old(self).entries_of(i),
            forall|i: Inode| old(self).has_node(i) && i != inode ==> final(self).data_of(i) == old(self).data_of(i),
    {
        proof {
            use_type_invariant(&*self);
        }
        let ghost old_nodes = self.nodes@;
        let (mut nodes, next_inode) = self.take_nodes();
        let mut node = nodes.remove(&inode).unwrap();
        node.data = data;
        nodes.insert(inode, node);
        proof {
            assert forall|i: Inode| #[trigger] nodes@.contains_key(i) implies nodes@[i].children
                == old_nodes[i].children by {}
            assert forall|i: Inode, j: Inode, k: int, l: int|
                #![trigger nodes@[i].children@[k], nodes@[j].children@[l]]
                nodes@.contains_key(i) && nodes@.contains_key(j) && 0 <= k
                    < nodes@[i].children@.len() && 0 <= l < nodes@[j].children@.len()
                    && nodes@[i].children@[k].1 == nodes@[j].children@[l].1 implies i == j && k
                == l by {
                assert(old_nodes.contains_key(i) && old_nodes.contains_key(j));
                assert(nodes@[i].children == old_nodes[i].children);
                assert(nodes@[j].children == old_nodes[j].children);
                assert(old_nodes[i].children@[k] == nodes@[i].children@[k]);
                assert(old_nodes[j].children@[l] == nodes@[j].children@[l]);
            }
        }
        *self = RamFs { nodes, next_inode };
    }
}

impl Default for RamFs {
    fn default() -> (r: Self)
        ensures
            r.has_node(1),
            r.kind_of(1) == NodeKind::Directory,
            r.entries_of(1).len() == 0,
            forall|i: Inode| r.has_node(i) <==> i == 1,
            r.next_spec() == 2,
    {
        RamFs::new()
    }
}

/// The bytes a read leaves in a buffer of `len` bytes: `count` bytes of the
/// file from `offset`, the rest unchanged.
fn copy_out(source: &Vec<u8>, offset: usize, buffer: &mut [u8]) -> (count: usize)
    ensures
        read_window(source@, offset as int, old(buffer)@, final(buffer)@, count as int),
{
    if offset >= source.len() {
        return 0;
    }
    let available = source.len() - offset;
    let count = if buffer.len() < available {
        buffer.len()
    } else {
        available
    };
    let n = source.len();
    let mut i: usize = 0;
    while i < count
        invariant
            n == source@.len(),
            count <= buffer@.len(),
            offset + count <= source@.len(),
            i <= count,
            buffer@.len() == old(buffer)@.len(),
            forall|k: int| 0 <= k < i ==> buffer@[k] == source@[offset + k],
            forall|k: int| count <= k < buffer@.len() ==> buffer@[k] == old(buffer)@[k],
        decreases count - i,
    {
        buffer[i] = source[offset + i];
        i = i + 1;
    }
    count
}

impl RamFs {
    fn write_bytes(&mut self, inode: Inode, offset: usize, data: &[u8]) -> (r: Result<usize, VfsError>)
        ensures
            ram_write_outcome(*old(self), *final(self), inode, offset, data@, r),
    {
        let node = self.file_node(inode)?;
        if offset > usize::MAX - data.len() {
            return Err(VfsError::OffsetOverflow);
        }
        let end = offset + data.len();
        let mut bytes = node.data.clone();
        let ghost old_bytes = bytes@;
        if end > bytes.len() {
            bytes.resize(end, 0u8);
            assert(bytes@ =~= resized(old_bytes, end as int));
        }
        let ghost grown = bytes@;
        let mut i: usize = 0;
        while i < data.len()
            invariant
                end == offset + data@.len(),
                end <= bytes@.len(),
                grown.len() == bytes@.len(),
                i <= data@.len(),
                forall|k: int| 0 <= k < offset ==> bytes@[k] == grown[k],
                forall|k: int| end <= k < bytes@.len() ==> bytes@[k] == grown[k],
                forall|k: int| 0 <= k < i ==> bytes@[offset + k] == data@[k],
                forall|k: int| offset + i <= k < end ==> bytes@[k] == grown[k],
            decreases data@.len() - i,
        {
            bytes.set(offset + i, data[i]);
            i = i + 1;
        }
        assert(bytes@ =~= written(old_bytes, offset as int, data@));
        self.set_data(inode, bytes);
        Ok(data.len())
    }

    fn resize_file(&mut self, inode: Inode, len: usize) -> (r: Result<(), VfsError>)
        ensures
            ram_truncate_outcome(*old(self), *final(self), inode, len, r),
    {
        let node = self.file_node(inode)?;
        let mut bytes = node.data.clone();
        let ghost old_bytes = bytes@;
        bytes.resize(len, 0u8);
        assert(bytes@ =~= resized(old_bytes, len as int));
        self.set_data(inode, bytes);
        Ok(())
    }
}


/// A name `find_entry` finds is among the entries.
proof fn lemma_find_entry_found(entries: Seq<(Seq<char>, Inode)>, name: Seq<char>)
    ensures
        find_entry(entries, name) is Some ==> exists|k: int| 0 <= k < entries.len() && entries[k].0 == name,
    decreases entries.len(),
{
    if entries.len() > 0 && entries[0].0 != name {
        lemma_find_entry_found(entries.drop_first(), name);
        if find_entry(entries, name) is Some {
            let k = choose|k: int| 0 <= k < entries.drop_first().len() && entries.drop_first()[k].0 == name;
            assert(entries[k + 1].0 == name);
        }
    }
}

impl RamFs {
    /// The entries of directory `inode`, each with its node's metadata.
    fn list_entries(&self, inode: Inode) -> (r: Result<Vec<DirEntry>, VfsError>)
        ensures
            ram_read_dir_outcome(*self, inode, r),
            r is Ok ==> {
                let entries = r->Ok_0@;
                &&& forall|k: int|
                    0 <= k < entries.len() ==> {
                        let e = #[trigger] entries[k];
                        &&& self.child(inode, e.name@) is Some
                        &&& self.node_metadata(e.metadata.inode) == Some(e.metadata)
                    }
                &&& forall|j: int, k: int|
                    0 <= j < k < entries.len() ==> !name_less(
                        #[trigger] entries[k].name@,
                        #[trigger] entries[j].name@,
                    )
            },
    {
        proof {
            use_type_invariant(self);
        }
        let directory = match self.nodes.get(&inode) {
            None => {
                return Err(VfsError::NotFound);
            },
            Some(directory) => directory,
        };
        if directory.kind != NodeKind::Directory {
            return Err(VfsError::NotDirectory);
        }
        let ghost expected = self.entries_of(inode);
        let mut entries: Vec<DirEntry> = Vec::new();
        let mut k: usize = 0;
        while k < directory.children.len()
            invariant
                self.inv(),
                self.has_node(inode),
                expected == self.entries_of(inode),
                expected == entries_view(directory.children@),
                k <= directory.children@.len(),
                entries@.len() == k,
                forall|j: int|
                    0 <= j < k ==> (#[trigger] entries@[j]).name@ == expected[j].0
                        && self.node_metadata(expected[j].1) == Some(entries@[j].metadata),
            decreases directory.children@.len() - k,
        {
            let child = directory.children[k].1;
            assert(self.nodes@.contains_key(expected[k as int].1));
            let metadata = match self.metadata(child) {
                Ok(m) => m,
                Err(e) => {
                    return Err(e);
                },
            };
            entries.push(DirEntry { name: directory.children[k].0.as_str().to_owned(), metadata });
            k = k + 1;
        }
        proof {
            assert(sorted_entries(expected));
            assert forall|j: int| 0 <= j < entries@.len() implies find_entry(
                expected,
                (#[trigger] entries@[j]).name@,
            ) == Some(entries@[j].metadata.inode) by {
                lemma_find_sorted(expected, j);
            }
            assert forall|a: int, b: int| 0 <= a < b < entries@.len() implies !name_less(
                (#[trigger] entries@[b]).name@,
                (#[trigger] entries@[a]).name@,
            ) by {
                assert(name_less(expected[a].0, expected[b].0));
                crate::vfs::lemma_name_less_asymmetric(expected[a].0, expected[b].0);
            }
        }
        Ok(entries)
    }
}

impl FileSystem for RamFs {
    open spec fn name_spec(&self) -> Seq<char> {
        "ramfs"@
    }

    open spec fn metadata_spec(&self, inode: Inode) -> Result<Metadata, VfsError> {
        match self.node_metadata(inode) {
            Some(m) => Ok(m),
            None => Err(VfsError::NotFound),
        }
    }

    open spec fn lookup_spec(&self, parent: Inode, name: Seq<char>) -> Result<Inode, VfsError> {
        if name_error(name) is Some {
            Err(name_error(name)->Some_0)
        } else if !self.has_node(parent) {
            Err(VfsError::NotFound)
        } else if self.kind_of(parent) != NodeKind::Directory {
            Err(VfsError::NotDirectory)
        } else {
            match find_entry(self.entries_of(parent), name) {
                Some(i) => Ok(i),
                None => Err(VfsError::NotFound),
            }
        }
    }

    open spec fn node_metadata(&self, inode: Inode) -> Option<Metadata> {
        if self.has_node(inode) {
            Some(
                Metadata {
                    inode,
                    kind: self.kind_of(inode),
                    len: if self.kind_of(inode) == NodeKind::File {
                        self.data_of(inode).len() as u64
                    } else {
                        0
                    },
                },
            )
        } else {
            None
        }
    }

    open spec fn child(&self, parent: Inode, name: Seq<char>) -> Option<Inode> {
        if self.has_node(parent) && self.kind_of(parent) == NodeKind::Directory {
            find_entry(self.entries_of(parent), name)
        } else {
            None
        }
    }

    open spec fn contents(&self, inode: Inode) -> Seq<u8> {
        if self.has_node(inode) {
            self.data_of(inode)
        } else {
            Seq::empty()
        }
    }

    open spec fn root_spec(&self) -> Inode {
        1
    }

    open spec fn effects_stated(&self) -> bool {
        true
    }

    /// Inode numbers are handed out in order and never reused; the last one
    /// is never given.
    open spec fn inode_room(&self) -> nat {
        (u64::MAX - self.next_spec()) as nat
    }

    /// Every successful write keeps its promise.
    open spec fn write_kept(&self, inode: Inode, offset: int, n: int) -> bool {
        true
    }

    fn name(&self) -> (r: &'static str)
        ensures
            r@ == "ramfs"@,
    {
        "ramfs"
    }

    fn root_inode(&self) -> (r: Inode) {
        1
    }

    fn metadata(&self, inode: Inode) -> (r: Result<Metadata, VfsError>)
        ensures
            match self.node_metadata(inode) {
                Some(m) => r == Ok::<Metadata, VfsError>(m),
                None => r == Err::<Metadata, VfsError>(VfsError::NotFound),
            },
    {
        match self.nodes.get(&inode) {
            None => Err(VfsError::NotFound),
            Some(node) => Ok(
                Metadata {
                    inode,
                    kind: node.kind,
                    len: match node.kind {
                        NodeKind::File => node.data.len() as u64,
                        NodeKind::Directory => 0,
                    },
                },
            ),
        }
    }

    fn lookup(&self, parent: Inode, name: &str) -> (r: Result<Inode, VfsError>)
        ensures
            r == if name_error(name@) is Some {
                Err(name_error(name@)->Some_0)
            } else if !self.has_node(parent) {
                Err(VfsError::NotFound)
            } else if self.kind_of(parent) != NodeKind::Directory {
                Err(VfsError::NotDirectory)
            } else {
                match find_entry(self.entries_of(parent), name@) {
                    Some(i) => Ok(i),
                    None => Err(VfsError::NotFound),
                }
            },
    {
        proof {
            use_type_invariant(self);
        }
        validate_name(name)?;
        let directory = match self.nodes.get(&parent) {
            None => {
                return Err(VfsError::NotFound);
            },
            Some(directory) => directory,
        };
        if directory.kind != NodeKind::Directory {
            return Err(VfsError::NotDirectory);
        }
        let name_chars = chars_of(name);
        match insert_position(&directory.children, &name_chars) {
            Err(k) => Ok(directory.children[k].1),
            Ok(_) => Err(VfsError::NotFound),
        }
    }

    fn read_dir(&self, inode: Inode) -> (r: Result<Vec<DirEntry>, VfsError>)
        ensures
            ram_read_dir_outcome(*self, inode, r),
    {
        let r = self.list_entries(inode);
        proof {
            if self.has_node(inode) && self.kind_of(inode) == NodeKind::Directory {
                let entries = r->Ok_0@;
                let expected = self.entries_of(inode);
                assert forall|n: Seq<char>| #[trigger] self.child(inode, n) is Some implies exists|k: int|
                    0 <= k < entries.len() && (#[trigger] entries[k]).name@ == n by {
                    lemma_find_entry_found(expected, n);
                    let k = choose|k: int| 0 <= k < expected.len() && expected[k].0 == n;
                    assert(entries[k].name@ == n);
                }
            }
        }
        r
    }

    fn create_file(&mut self, parent: Inode, name: &str) -> (r: Result<Inode, VfsError>)
        ensures
            create_outcome(*old(self), *final(self), parent, name@, NodeKind::File, r),
    {
        self.create_node(parent, name, NodeKind::File)
    }

    fn create_dir(&mut self, parent: Inode, name: &str) -> (r: Result<Inode, VfsError>)
        ensures
            create_outcome(*old(self), *final(self), parent, name@, NodeKind::Directory, r),
    {
        self.create_node(parent, name, NodeKind::Directory)
    }

    fn read(&self, inode: Inode, offset: usize, buffer: &mut [u8]) -> (r: Result<usize, VfsError>)
        ensures
            ram_read_outcome(*self, inode, old(buffer)@, final(buffer)@, r),
    {
        let node = self.file_node(inode)?;
        Ok(copy_out(&node.data, offset, buffer))
    }

    fn write(&mut self, inode: Inode, offset: usize, data: &[u8]) -> (r: Result<usize, VfsError>)
        ensures
            ram_write_outcome(*old(self), *final(self), inode, offset, data@, r),
    {
        let r = self.write_bytes(inode, offset, data);
        proof {
            if r is Ok {
                assert forall|p: Inode, n: Seq<char>| #[trigger] self.lookup_spec(p, n) == old(self).lookup_spec(p, n) by {
                    if old(self).has_node(p) {
                        assert(self.entries_of(p) == old(self).entries_of(p));
                    }
                }
                assert forall|p: Inode, n: Seq<char>| #[trigger] self.child(p, n) == old(self).child(p, n) by {
                    if old(self).has_node(p) {
                        assert(self.entries_of(p) == old(self).entries_of(p));
                    }
                }
                assert forall|k: Inode| k != inode implies #[trigger] self.node_metadata(k) == old(self).node_metadata(k)
                    && self.metadata_spec(k) == old(self).metadata_spec(k) && self.contents(k) == old(self).contents(k) by {
                    if old(self).has_node(k) {
                        assert(self.data_of(k) == old(self).data_of(k));
                    }
                }
            }
        }
        r
    }

    fn truncate(&mut self, inode: Inode, len: usize) -> (r: Result<(), VfsError>)
        ensures
            ram_truncate_outcome(*old(self), *final(self), inode, len, r),
    {
        let r = self.resize_file(inode, len);
        proof {
            if r is Ok {
                assert forall|p: Inode, n: Seq<char>| #[trigger] self.lookup_spec(p, n) == old(self).lookup_spec(p, n) by {
                    if old(self).has_node(p) {
                        assert(self.entries_of(p) == old(self).entries_of(p));
                    }
                }
                assert forall|p: Inode, n: Seq<char>| #[trigger] self.child(p, n) == old(self).child(p, n) by {
                    if old(self).has_node(p) {
                        assert(self.entries_of(p) == old(self).entries_of(p));
                    }
                }
                assert forall|k: Inode| k != inode implies #[trigger] self.node_metadata(k) == old(self).node_metadata(k)
                    && self.metadata_spec(k) == old(self).metadata_spec(k) && self.contents(k) == old(self).contents(k) by {
                    if old(self).has_node(k) {
                        assert(self.data_of(k) == old(self).data_of(k));
                    }
                }
            }
        }
        r
    }

    fn remove(&mut self, parent: Inode, name: &str) -> (r: Result<(), VfsError>)
        ensures
            remove_outcome(*old(self), *final(self), parent, name@, r),
    {
        proof {
            use_type_invariant(&*self);
        }
        validate_name(name)?;
        let name_chars = chars_of(name);
        let (position, child) = match self.nodes.get(&parent) {
            None => {
                return Err(VfsError::NotFound);
            },
            Some(directory) => {
                if directory.kind != NodeKind::Directory {
                    return Err(VfsError::NotDirectory);
                }
                match insert_position(&directory.children, &name_chars) {
                    Ok(_) => {
                        return Err(VfsError::NotFound);
                    },
                    Err(k) => (k, directory.children[k].1),
                }
            },
        };
        let ghost old_nodes = self.nodes@;
        assert(old_nodes[parent].children@[position as int].1 == child);
        assert(old_nodes.contains_key(entries_view(old_nodes[parent].children@)[position as int].1));
        match self.nodes.get(&child) {
            None => {
                return Err(VfsError::NotFound);
            },
            Some(child_node) => {
                if child_node.kind == NodeKind::Directory && child_node.children.len() > 0 {
                    proof {
                        let es = self.entries_of(child);
                        assert(es.len() > 0);
                        assert(find_entry(es, es[0].0) == Some(es[0].1));
                        assert(self.child(child, es[0].0) is Some);
                    }
                    return Err(VfsError::DirectoryNotEmpty);
                }
            },
        }
        assert(old_nodes.contains_key(child));
        assert(self.nodes@.contains_key(child));
        assert(tree_node_ok(self.nodes@, child));
        assert(tree_node_ok(self.nodes@, parent));
        let (mut nodes, next_inode) = self.take_nodes();
        let mut directory = nodes.remove(&parent).unwrap();
        let ghost old_entries = entries_view(directory.children@);
        let _ = directory.children.remove(position);
        nodes.insert(parent, directory);
        let _ = nodes.remove(&child);
        proof {
            assert(entries_view(nodes@[parent].children@) =~= old_entries.remove(position as int));
            lemma_remove_entry(old_entries, position as int);
            assert forall|i: Inode| #[trigger] nodes@.contains_key(i) implies {
                let entries = entries_view(nodes@[i].children@);
                &&& sorted_entries(entries)
                &&& forall|k: int|
                    0 <= k < entries.len() ==> nodes@.contains_key(#[trigger] entries[k].1)
            } by {
                let entries = entries_view(nodes@[i].children@);
                if i != parent {
                    assert(nodes@[i] == old_nodes[i]);
                }
                assert forall|k: int| 0 <= k < entries.len() implies nodes@.contains_key(
                    #[trigger] entries[k].1,
                ) by {
                    if i != parent {
                        assert(nodes@[i].children@[k] == old_nodes[i].children@[k]);
                        assert(old_nodes.contains_key(entries_view(old_nodes[i].children@)[k].1));
                        assert(entries[k].1 != child);
                    } else {
                        let kk = if k < position {
                            k
                        } else {
                            k + 1
                        };
                        assert(nodes@[i].children@[k] == old_nodes[i].children@[kk]);
                        assert(old_nodes.contains_key(entries_view(old_nodes[i].children@)[kk].1));
                        assert(kk != position);
                    }
                }
            }
            assert forall|i: Inode| #[trigger] nodes@.contains_key(i) implies tree_node_ok(
                nodes@,
                i,
            ) by {
                assert(tree_node_ok(old_nodes, i));
                if i == parent {
                    assert forall|k: int| 0 <= k < nodes@[i].children@.len() implies #[trigger] nodes@[i].children@[k].1 != 1 by {
                        let kk = if k < position {
                            k
                        } else {
                            k + 1
                        };
                        assert(nodes@[i].children@[k] == old_nodes[i].children@[kk]);
                    }
                }
            }
            assert forall|i: Inode, j: Inode, k: int, l: int|
                #![trigger nodes@[i].children@[k], nodes@[j].children@[l]]
                nodes@.contains_key(i) && nodes@.contains_key(j) && 0 <= k
                    < nodes@[i].children@.len() && 0 <= l < nodes@[j].children@.len()
                    && nodes@[i].children@[k].1 == nodes@[j].children@[l].1 implies i == j && k
                == l by {
                let kk = if i == parent && k >= position {
                    k + 1
                } else {
                    k
                };
                let ll = if j == parent && l >= position {
                    l + 1
                } else {
                    l
                };
                assert(nodes@[i].children@[k] == old_nodes[i].children@[kk]);
                assert(nodes@[j].children@[l] == old_nodes[j].children@[ll]);
            }
        }
        *self = RamFs { nodes, next_inode };
        proof {
            lemma_find_entry_remove(old_entries, position as int);
        }
        Ok(())
    }
}

/// In sorted entries, each name finds its own entry.
proof fn lemma_find_sorted(entries: Seq<(Seq<char>, Inode)>, k: int)
    requires
        sorted_entries(entries),
        0 <= k < entries.len(),
    ensures
        find_entry(entries, entries[k].0) == Some(entries[k].1),
    decreases k,
{
    if k > 0 {
        lemma_name_less_irreflexive(entries[k].0);
        assert(name_less(entries[0].0, entries[k].0));
        lemma_remove_entry_sorted_tail(entries);
        assert(entries.drop_first()[k - 1] == entries[k]);
        lemma_find_sorted(entries.drop_first(), k - 1);
    }
}

/// Removing an entry keeps the entries sorted.
proof fn lemma_remove_entry(entries: Seq<(Seq<char>, Inode)>, p: int)
    requires
        sorted_entries(entries),
        0 <= p < entries.len(),
    ensures
        sorted_entries(entries.remove(p)),
{
    let n = entries.remove(p);
    assert forall|j: int, k: int| 0 <= j < k < n.len() implies name_less(
        #[trigger] n[j].0,
        #[trigger] n[k].0,
    ) by {
        let jj = if j < p {
            j
        } else {
            j + 1
        };
        let kk = if k < p {
            k
        } else {
            k + 1
        };
        assert(n[j] == entries[jj]);
        assert(n[k] == entries[kk]);
    }
}

/// After removing the entry at `p` of sorted entries, its name is gone and
/// every other name finds what it found before.
proof fn lemma_find_entry_remove(entries: Seq<(Seq<char>, Inode)>, p: int)
    requires
        sorted_entries(entries),
        0 <= p < entries.len(),
    ensures
        find_entry(entries.remove(p), entries[p].0) is None,
        forall|other: Seq<char>|
            other != entries[p].0 ==> find_entry(entries.remove(p), other) == find_entry(
                entries,
                other,
            ),
    decreases entries.len(),
{
    let n = entries.remove(p);
    if p == 0 {
        assert(n =~= entries.drop_first());
        assert forall|k: int| 0 <= k < n.len() implies name_less(entries[0].0, #[trigger] n[k].0) by {
            assert(n[k] == entries[k + 1]);
        }
        lemma_find_entry_absent(n, entries[0].0);
    } else {
        assert(n[0] == entries[0]);
        assert(n.drop_first() =~= entries.drop_first().remove(p - 1));
        lemma_remove_entry_sorted_tail(entries);
        lemma_find_entry_remove(entries.drop_first(), p - 1);
        lemma_name_less_irreflexive(entries[0].0);
        assert(name_less(entries[0].0, entries[p].0));
        assert(entries[0].0 != entries[p].0);
        assert forall|other: Seq<char>| other != entries[p].0 implies find_entry(n, other)
            == find_entry(entries, other) by {
            if entries[0].0 != other {
                assert(find_entry(n, other) == find_entry(n.drop_first(), other));
                assert(find_entry(entries, other) == find_entry(entries.drop_first(), other));
            }
        }
        assert(find_entry(n, entries[p].0) == find_entry(n.drop_first(), entries[p].0));
        assert(entries.drop_first()[p - 1] == entries[p]);
    }
}

/// The tail of sorted entries is sorted.
proof fn lemma_remove_entry_sorted_tail(entries: Seq<(Seq<char>, Inode)>)
    requires
        sorted_entries(entries),
        entries.len() > 0,
    ensures
        sorted_entries(entries.drop_first()),
{
    let t = entries.drop_first();
    assert forall|j: int, k: int| 0 <= j < k < t.len() implies name_less(
        #[trigger] t[j].0,
        #[trigger] t[k].0,
    ) by {
        assert(t[j] == entries[j + 1]);
        assert(t[k] == entries[k + 1]);
    }
}

/// What reading directory `inode` of `fs` answers.
pub open spec fn ram_read_dir_outcome(fs: RamFs, inode: Inode, r: Result<Vec<DirEntry>, VfsError>) -> bool {
    &&& !fs.has_node(inode) ==> r == Err::<Vec<DirEntry>, VfsError>(VfsError::NotFound)
    &&& fs.has_node(inode) && fs.kind_of(inode) != NodeKind::Directory ==> r == Err::<
        Vec<DirEntry>,
        VfsError,
    >(VfsError::NotDirectory)
    &&& fs.has_node(inode) && fs.kind_of(inode) == NodeKind::Directory ==> r is Ok && {
        let entries = r->Ok_0@;
        let expected = fs.entries_of(inode);
        &&& entries.len() == expected.len()
        &&& forall|k: int|
            0 <= k < entries.len() ==> (#[trigger] entries[k]).name@ == expected[k].0
                && fs.node_metadata(expected[k].1) == Some(entries[k].metadata)
    }
}

/// What reading file `inode` of `fs` into a buffer holding `before`
/// answers, the buffer then holding `after`.
pub open spec fn ram_read_outcome(
    fs: RamFs,
    inode: Inode,
    before: Seq<u8>,
    after: Seq<u8>,
    r: Result<usize, VfsError>,
) -> bool {
    &&& !fs.has_node(inode) ==> r == Err::<usize, VfsError>(VfsError::NotFound)
    &&& fs.has_node(inode) && fs.kind_of(inode) == NodeKind::Directory ==> r == Err::<
        usize,
        VfsError,
    >(VfsError::IsDirectory)
    &&& fs.has_node(inode) && fs.kind_of(inode) == NodeKind::File ==> r is Ok
    &&& r is Err ==> after == before
}

/// What writing `data` into file `inode` from `offset` on does, from
/// `before` to `after`, answering `r`.
pub open spec fn ram_write_outcome(
    before: RamFs,
    after: RamFs,
    inode: Inode,
    offset: usize,
    data: Seq<u8>,
    r: Result<usize, VfsError>,
) -> bool {
    &&& !before.has_node(inode) ==> r == Err::<usize, VfsError>(VfsError::NotFound)
    &&& before.has_node(inode) && before.kind_of(inode) == NodeKind::Directory ==> r
        == Err::<usize, VfsError>(VfsError::IsDirectory)
    &&& before.has_node(inode) && before.kind_of(inode) == NodeKind::File ==> {
        if offset + data.len() > usize::MAX {
            r == Err::<usize, VfsError>(VfsError::OffsetOverflow)
        } else {
            &&& r == Ok::<usize, VfsError>(data.len() as usize)
            &&& after.data_of(inode) == written(
                before.data_of(inode),
                offset as int,
                data,
            )
        }
    }
    &&& r is Err ==> after == before
    &&& r is Ok ==> {
        &&& after.next_spec() == before.next_spec()
        &&& forall|i: Inode| after.has_node(i) <==> before.has_node(i)
        &&& forall|i: Inode|
            before.has_node(i) ==> after.kind_of(i) == before.kind_of(i)
                && after.entries_of(i) == before.entries_of(i)
        &&& forall|i: Inode|
            before.has_node(i) && i != inode ==> after.data_of(i) == before.data_of(i)
    }
}

/// What truncating file `inode` to `len` bytes does, from `before` to
/// `after`, answering `r`.
pub open spec fn ram_truncate_outcome(
    before: RamFs,
    after: RamFs,
    inode: Inode,
    len: usize,
    r: Result<(), VfsError>,
) -> bool {
    &&& !before.has_node(inode) ==> r == Err::<(), VfsError>(VfsError::NotFound)
    &&& before.has_node(inode) && before.kind_of(inode) == NodeKind::Directory ==> r
        == Err::<(), VfsError>(VfsError::IsDirectory)
    &&& before.has_node(inode) && before.kind_of(inode) == NodeKind::File ==> {
        &&& r is Ok
        &&& after.data_of(inode) == resized(before.data_of(inode), len as int)
    }
    &&& r is Err ==> after == before
    &&& r is Ok ==> {
        &&& after.next_spec() == before.next_spec()
        &&& forall|i: Inode| after.has_node(i) <==> before.has_node(i)
        &&& forall|i: Inode|
            before.has_node(i) ==> after.kind_of(i) == before.kind_of(i)
                && after.entries_of(i) == before.entries_of(i)
        &&& forall|i: Inode|
            before.has_node(i) && i != inode ==> after.data_of(i) == before.data_of(i)
    }
}

/// What removing `name` from directory `parent` does: the first failing
/// check decides the error and leaves the filesystem as it was; success
/// drops the entry and its node, which is a file or an empty directory.
pub open spec fn remove_outcome(
    before: RamFs,
    after: RamFs,
    parent: Inode,
    name: Seq<char>,
    r: Result<(), VfsError>,
) -> bool {
    let target = find_entry(before.entries_of(parent), name);
    let error = if name_error(name) is Some {
        name_error(name)
    } else if !before.has_node(parent) {
        Some(VfsError::NotFound)
    } else if before.kind_of(parent) != NodeKind::Directory {
        Some(VfsError::NotDirectory)
    } else if target is None {
        Some(VfsError::NotFound)
    } else if before.kind_of(target->Some_0) == NodeKind::Directory && before.entries_of(
        target->Some_0,
    ).len() > 0 {
        Some(VfsError::DirectoryNotEmpty)
    } else {
        None
    };
    match error {
        Some(e) => r == Err::<(), VfsError>(e) && after == before,
        None => {
            let child = target->Some_0;
            &&& r == Ok::<(), VfsError>(())
            &&& after.next_spec() == before.next_spec()
            &&& forall|i: Inode| after.has_node(i) <==> (before.has_node(i) && i != child)
            &&& find_entry(after.entries_of(parent), name) is None
            &&& forall|other: Seq<char>|
                other != name ==> find_entry(after.entries_of(parent), other) == find_entry(
                    before.entries_of(parent),
                    other,
                )
            &&& after.kind_of(parent) == before.kind_of(parent)
            &&& forall|i: Inode|
                before.has_node(i) && i != child ==> after.kind_of(i) == before.kind_of(i)
                    && after.data_of(i) == before.data_of(i)
            &&& forall|i: Inode|
                before.has_node(i) && i != child && i != parent ==> after.entries_of(i)
                    == before.entries_of(i)
        },
    }
}

/// Where `name` belongs among the sorted `children`, or the index of the
/// entry that already has it.
fn insert_position(children: &Vec<(String, Inode)>, name: &Vec<char>) -> (r: Result<usize, usize>)
    requires
        sorted_entries(entries_view(children@)),
    ensures
        match r {
            Ok(p) => {
                &&& p <= children@.len()
                &&& forall|k: int| 0 <= k < p ==> name_less(children@[k].0@, name@)
                &&& forall|k: int| p <= k < children@.len() ==> name_less(name@, children@[k].0@)
                &&& find_entry(entries_view(children@), name@) is None
            },
            Err(p) => {
                &&& p < children@.len()
                &&& children@[p as int].0@ == name@
                &&& find_entry(entries_view(children@), name@) == Some(children@[p as int].1)
            },
        },
{
    let ghost entries = entries_view(children@);
    let mut i: usize = 0;
    assert(entries.skip(0) =~= entries);
    while i < children.len()
        invariant
            entries == entries_view(children@),
            sorted_entries(entries),
            i <= children@.len(),
            forall|k: int| 0 <= k < i ==> name_less(children@[k].0@, name@),
            find_entry(entries, name@) == find_entry(entries.skip(i as int), name@),
        decreases children@.len() - i,
    {
        let entry_chars = chars_of(children[i].0.as_str());
        if !compare_less(&entry_chars, name) {
            proof {
                assert(entries.skip(i as int)[0] == entries[i as int]);
            }
            if entry_chars.len() == name.len() && !compare_less(name, &entry_chars) {
                proof {
                    if entry_chars@ != name@ {
                        lemma_name_less_total(entry_chars@, name@);
                    }
                }
                return Err(i);
            }
            proof {
                if entry_chars@ == name@ {
                    lemma_name_less_irreflexive(name@);
                }
                lemma_name_less_total(entry_chars@, name@);
                assert forall|k: int| i <= k < children@.len() implies name_less(
                    name@,
                    children@[k].0@,
                ) by {
                    if k > i {
                        assert(name_less(entries[i as int].0, entries[k].0));
                        lemma_name_less_transitive(name@, children@[i as int].0@, children@[k].0@);
                    }
                }
                lemma_find_entry_absent(entries.skip(i as int), name@);
            }
            return Ok(i);
        }
        proof {
            lemma_name_less_irreflexive(name@);
            assert(entries.skip(i as int).drop_first() =~= entries.skip(i + 1));
        }
        i = i + 1;
    }
    proof {
        assert(entries.skip(i as int).len() == 0);
    }
    Ok(i)
}

/// A name below every name of sorted entries is not among them.
proof fn lemma_find_entry_absent(entries: Seq<(Seq<char>, Inode)>, name: Seq<char>)
    requires
        forall|k: int| 0 <= k < entries.len() ==> name_less(name, #[trigger] entries[k].0),
    ensures
        find_entry(entries, name) is None,
    decreases entries.len(),
{
    if entries.len() > 0 {
        lemma_name_less_irreflexive(name);
        assert forall|k: int| 0 <= k < entries.drop_first().len() implies name_less(
            name,
            #[trigger] entries.drop_first()[k].0,
        ) by {
            assert(entries.drop_first()[k] == entries[k + 1]);
        }
        lemma_find_entry_absent(entries.drop_first(), name);
    }
}

/// Inserting a new name at its sorted place keeps the entries sorted.
proof fn lemma_insert_sorted(entries: Seq<(Seq<char>, Inode)>, p: int, name: Seq<char>, inode: Inode)
    requires
        sorted_entries(entries),
        0 <= p <= entries.len(),
        forall|k: int| 0 <= k < p ==> name_less(entries[k].0, name),
        forall|k: int| p <= k < entries.len() ==> name_less(name, entries[k].0),
    ensures
        sorted_entries(entries.insert(p, (name, inode))),
{
    let n = entries.insert(p, (name, inode));
    assert forall|j: int, k: int| 0 <= j < k < n.len() implies name_less(
        #[trigger] n[j].0,
        #[trigger] n[k].0,
    ) by {
        if j < p && k == p {
        } else if j < p && k > p {
            assert(n[k] == entries[k - 1]);
        } else if j == p {
            assert(n[k] == entries[k - 1]);
        } else if j > p {
            assert(n[j] == entries[j - 1]);
            assert(n[k] == entries[k - 1]);
        }
    }
}

/// After inserting `name` at `p`, looking it up finds it, and other names
/// find what they found before.
proof fn lemma_find_entry_insert(entries: Seq<(Seq<char>, Inode)>, p: int, name: Seq<char>, inode: Inode)
    requires
        0 <= p <= entries.len(),
        find_entry(entries, name) is None,
    ensures
        find_entry(entries.insert(p, (name, inode)), name) == Some(inode),
        forall|other: Seq<char>|
            other != name ==> find_entry(entries.insert(p, (name, inode)), other) == find_entry(
                entries,
                other,
            ),
    decreases entries.len(),
{
    let n = entries.insert(p, (name, inode));
    if p == 0 {
        assert(n.drop_first() =~= entries);
        assert(n[0] == (name, inode));
        assert forall|other: Seq<char>| other != name implies find_entry(n, other) == find_entry(
            entries,
            other,
        ) by {
            assert(find_entry(n, other) == find_entry(n.drop_first(), other));
        }
    } else {
        assert(n[0] == entries[0]);
        assert(n.drop_first() =~= entries.drop_first().insert(p - 1, (name, inode)));
        lemma_find_entry_insert(entries.drop_first(), p - 1, name, inode);
        assert forall|other: Seq<char>| other != name implies find_entry(n, other) == find_entry(
            entries,
            other,
        ) by {
            if entries[0].0 != other {
                assert(find_entry(n, other) == find_entry(n.drop_first(), other));
                assert(find_entry(entries, other) == find_entry(entries.drop_first(), other));
            }
        }
    }
}

/// What creating `name` in directory `parent` does: the first failing check
/// decides the error and leaves the filesystem as it was; success adds an
/// empty node of `kind` under the next inode number.
pub open spec fn create_outcome(
    before: RamFs,
    after: RamFs,
    parent: Inode,
    name: Seq<char>,
    kind: NodeKind,
    r: Result<Inode, VfsError>,
) -> bool {
    let error = if name_error(name) is Some {
        name_error(name)
    } else if !before.has_node(parent) {
        Some(VfsError::NotFound)
    } else if before.kind_of(parent) != NodeKind::Directory {
        Some(VfsError::NotDirectory)
    } else if find_entry(before.entries_of(parent), name) is Some {
        Some(VfsError::AlreadyExists)
    } else if before.next_spec() == u64::MAX {
        Some(VfsError::InodeExhausted)
    } else {
        None
    };
    match error {
        Some(e) => r == Err::<Inode, VfsError>(e) && after == before,
        None => {
            let inode = before.next_spec();
            &&& r == Ok::<Inode, VfsError>(inode)
            &&& after.next_spec() == inode + 1
            &&& !before.has_node(inode)
            &&& forall|i: Inode| after.has_node(i) <==> (before.has_node(i) || i == inode)
            &&& after.kind_of(inode) == kind
            &&& after.entries_of(inode).len() == 0
            &&& after.data_of(inode).len() == 0
            &&& find_entry(after.entries_of(parent), name) == Some(inode)
            &&& forall|other: Seq<char>|
                other != name ==> find_entry(after.entries_of(parent), other) == find_entry(
                    before.entries_of(parent),
                    other,
                )
            &&& after.kind_of(parent) == before.kind_of(parent)
            &&& after.data_of(parent) == before.data_of(parent)
            &&& forall|i: Inode|
                before.has_node(i) && i != parent ==> {
                    &&& after.kind_of(i) == before.kind_of(i)
                    &&& after.entries_of(i) == before.entries_of(i)
                    &&& after.data_of(i) == before.data_of(i)
                }
        },
    }
}

} // verus!
