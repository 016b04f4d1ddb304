//! GenericFS: a small persistent filesystem on a block device.
//!
//! Sector 0 holds the superblock, sectors 1..17 a table of 64 inode records
//! of 128 bytes, and file data follows as one contiguous extent per file.

use crate::block::{BlockDevice, BlockError, SECTOR_SIZE};
use crate::bytes::{get_u32, get_u64, le32, le64, put_u32, put_u64};
use crate::path::chars_of;
use crate::ramfs::written;
use crate::vfs::{compare_less, name_less, read_window, DirEntry, FileSystem, Inode, Metadata, NodeKind, VfsError};
use vstd::prelude::*;
use vstd::utf8::{decode_utf8, encode_utf8, valid_utf8};

verus! {

pub const VERSION: u32 = 1;

pub const INODE_COUNT: usize = 64;

pub const INODE_SIZE: usize = 128;

pub const INODES_PER_SECTOR: usize = 4;

pub const INODE_TABLE_START: u64 = 1;

pub const INODE_TABLE_SECTORS: u64 = 16;

pub const DATA_START: u64 = 17;

pub const MAX_DISK_NAME: usize = 63;

/// The superblock starts with the GenericFS magic `GENFS1\0\0`.
pub open spec fn magic_ok(b: Seq<u8>) -> bool {
    &&& b[0] == 0x47
    &&& b[1] == 0x45
    &&& b[2] == 0x4e
    &&& b[3] == 0x46
    &&& b[4] == 0x53
    &&& b[5] == 0x31
    &&& b[6] == 0
    &&& b[7] == 0
}

/// One inode record as held in memory.
#[derive(Clone, Copy)]
pub struct DiskInode {
    pub kind: u8,
    pub name_len: u8,
    pub parent: u64,
    pub len: u64,
    pub start_sector: u64,
    pub sector_count: u32,
    pub name: [u8; 64],
}

/// `raw` is a record that decodes: its name fits and its kind is known.
pub open spec fn record_ok(raw: Seq<u8>) -> bool {
    raw[2] <= MAX_DISK_NAME && raw[0] <= 2
}

/// `d` holds the fields of the 128-byte record `raw`.
pub open spec fn decodes_to(raw: Seq<u8>, d: DiskInode) -> bool {
    &&& d.kind == raw[0]
    &&& d.name_len == raw[2]
    &&& d.parent == le64(raw, 4)
    &&& d.len == le64(raw, 12)
    &&& d.start_sector == le64(raw, 20)
    &&& d.sector_count == le32(raw, 28)
    &&& d.name@ == raw.subrange(32, 96)
}

/// `raw` is the 128-byte record of `d`, unused bytes zero.
pub open spec fn encodes(raw: Seq<u8>, d: DiskInode) -> bool {
    &&& raw.len() == INODE_SIZE
    &&& raw[0] == d.kind
    &&& raw[1] == 0
    &&& raw[2] == d.name_len
    &&& raw[3] == 0
    &&& le64(raw, 4) == d.parent
    &&& le64(raw, 12) == d.len
    &&& le64(raw, 20) == d.start_sector
    &&& le32(raw, 28) == d.sector_count
    &&& raw.subrange(32, 96) == d.name@
    &&& forall|k: int| 96 <= k < INODE_SIZE ==> raw[k] == 0
}

/// A record written for `d` reads back as `d` when its name fits and its
/// kind is known.
pub proof fn lemma_record_round_trip(raw: Seq<u8>, d: DiskInode)
    requires
        encodes(raw, d),
        d.name_len <= MAX_DISK_NAME,
        d.kind <= 2,
    ensures
        record_ok(raw),
        decodes_to(raw, d),
{
}

/// The text of the name in record `raw`, when it is valid UTF-8.
pub open spec fn record_name(raw: Seq<u8>) -> Option<Seq<char>> {
    let bytes = raw.subrange(32, 32 + raw[2]);
    if valid_utf8(bytes) {
        Some(decode_utf8(bytes))
    } else {
        None
    }
}

/// The slot of `inode` in the inode table.
pub open spec fn inode_slot(inode: u64) -> Option<int> {
    if 1 <= inode <= INODE_COUNT {
        Some(inode - 1)
    } else {
        None
    }
}

/// The sector that holds inode slot `index`.
pub open spec fn slot_sector(index: int) -> int {
    INODE_TABLE_START + index / INODES_PER_SECTOR as int
}

/// Where in its sector inode slot `index` starts.
pub open spec fn slot_offset(index: int) -> int {
    (index % INODES_PER_SECTOR as int) * INODE_SIZE
}

/// The number of sectors that hold `len` bytes.
pub open spec fn sectors_needed(len: int) -> int {
    if len == 0 {
        0
    } else {
        (len + SECTOR_SIZE - 1) / SECTOR_SIZE as int
    }
}

/// Why `name` cannot name a GenericFS entry, if it cannot.
pub open spec fn disk_name_error(name: Seq<char>) -> Option<VfsError> {
    if name.len() == 0 || name == seq!['.'] || name == seq!['.', '.'] || name.contains('/')
        || name.contains('\0') {
        Some(VfsError::InvalidName)
    } else if encode_utf8(name).len() > MAX_DISK_NAME {
        Some(VfsError::NameTooLong)
    } else {
        None
    }
}

/// The error the filesystem reports for a device error.
pub open spec fn block_error(e: BlockError) -> VfsError {
    match e {
        BlockError::OutOfRange => VfsError::CorruptFilesystem,
        BlockError::ReadOnly => VfsError::Io,
        BlockError::Io => VfsError::Io,
    }
}

/// The error the filesystem reports for a device error.
fn map_block(error: BlockError) -> (r: VfsError)
    ensures
        r == block_error(error),
{
    match error {
        BlockError::OutOfRange => VfsError::CorruptFilesystem,
        BlockError::ReadOnly => VfsError::Io,
        BlockError::Io => VfsError::Io,
    }
}

/// The number of sectors that hold `len` bytes.
fn sectors_for_len(len: usize) -> (r: u64)
    ensures
        r == sectors_needed(len as int),
{
    if len == 0 {
        0
    } else {
        (len / SECTOR_SIZE + if len % SECTOR_SIZE == 0 {
            0
        } else {
            1
        }) as u64
    }
}

/// The slot of `inode` in the inode table.
fn inode_index(inode: Inode) -> (r: Result<usize, VfsError>)
    ensures
        match inode_slot(inode) {
            Some(i) => r == Ok::<usize, VfsError>(i as usize),
            None => r == Err::<usize, VfsError>(VfsError::NotFound),
        },
{
    if inode == 0 {
        return Err(VfsError::NotFound);
    }
    let index = inode - 1;
    if index >= INODE_COUNT as u64 {
        Err(VfsError::NotFound)
    } else {
        Ok(index as usize)
    }
}

/// Checks that `name` can name a GenericFS entry.
fn validate_disk_name(name: &str) -> (r: Result<(), VfsError>)
    ensures
        match r {
            Ok(()) => disk_name_error(name@) is None,
            Err(e) => disk_name_error(name@) == Some(e),
        },
{
    match crate::path::validate_name(name) {
        Err(VfsError::NameTooLong) => {
            return Err(VfsError::NameTooLong);
        },
        Err(e) => {
            return Err(e);
        },
        Ok(()) => {},
    }
    if name.as_bytes().len() > MAX_DISK_NAME {
        return Err(VfsError::NameTooLong);
    }
    Ok(())
}

impl DiskInode {
    fn empty() -> (r: Self)
        ensures
            r.kind == 0,
            r.name_len == 0,
            r.parent == 0,
            r.len == 0,
            r.start_sector == 0,
            r.sector_count == 0,
            forall|k: int| 0 <= k < 64 ==> r.name@[k] == 0,
    {
        let name = [0u8; 64];
        proof {
            vstd::array::axiom_spec_array_fill_for_copy_type::<u8, 64>(0u8);
        }
        DiskInode {
            kind: 0,
            name_len: 0,
            parent: 0,
            len: 0,
            start_sector: 0,
            sector_count: 0,
            name,
        }
    }

    fn root() -> (r: Self)
        ensures
            r.kind == 2,
            r.name_len == 0,
            r.parent == 1,
            r.len == 0,
            r.start_sector == 0,
            r.sector_count == 0,
            forall|k: int| 0 <= k < 64 ==> r.name@[k] == 0,
    {
        let mut r = DiskInode::empty();
        r.kind = 2;
        r.parent = 1;
        r
    }

    fn node_kind(self) -> (r: Result<NodeKind, VfsError>)
        ensures
            r == if self.kind == 1 {
                Ok::<NodeKind, VfsError>(NodeKind::File)
            } else if self.kind == 2 {
                Ok(NodeKind::Directory)
            } else {
                Err(VfsError::NotFound)
            },
    {
        match self.kind {
            1 => Ok(NodeKind::File),
            2 => Ok(NodeKind::Directory),
            _ => Err(VfsError::NotFound),
        }
    }

    fn name(&self) -> (r: Result<String, VfsError>)
        requires
            self.name_len <= MAX_DISK_NAME,
        ensures
            ({
                let bytes = self.name@.subrange(0, self.name_len as int);
                match r {
                    Ok(s) => valid_utf8(bytes) && s@ == decode_utf8(bytes),
                    Err(e) => !valid_utf8(bytes) && e == VfsError::CorruptFilesystem,
                }
            }),
    {
        let len = self.name_len as usize;
        let bytes = &self.name.as_slice()[0..len];
        match str_from_utf8(bytes) {
            Some(text) => Ok(text.to_owned()),
            None => Err(VfsError::CorruptFilesystem),
        }
    }
}

/// `core::str::from_utf8`: the text of `bytes` when they are valid UTF-8.
/// The contract states what the standard library documents: success
/// exactly for valid UTF-8, the text being what the bytes encode.
#[verifier::external_body]
pub(crate) fn str_from_utf8(bytes: &[u8]) -> (r: Option<&str>)
    ensures
        match r {
            Some(s) => valid_utf8(bytes@) && s@ == decode_utf8(bytes@),
            None => !valid_utf8(bytes@),
        },
{
    core::str::from_utf8(bytes).ok()
}

/// Decodes the 128-byte record at `offset` of `raw`.
fn decode_inode(raw: &[u8; SECTOR_SIZE], offset: usize) -> (r: Result<DiskInode, VfsError>)
    requires
        offset + INODE_SIZE <= SECTOR_SIZE,
    ensures
        ({
            let rec = raw@.subrange(offset as int, offset + INODE_SIZE);
            match r {
                Ok(d) => record_ok(rec) && decodes_to(rec, d),
                Err(e) => !record_ok(rec) && e == VfsError::CorruptFilesystem,
            }
        }),
{
    let mut name = [0u8; 64];
    let mut k: usize = 0;
    while k < 64
        invariant
            offset + INODE_SIZE <= SECTOR_SIZE,
            k <= 64,
            forall|j: int| 0 <= j < k ==> name@[j] == raw@[offset + 32 + j],
        decreases 64 - k,
    {
        name[k] = raw[offset + 32 + k];
        k = k + 1;
    }
    let ghost rec = raw@.subrange(offset as int, offset + INODE_SIZE);
    let slice = raw.as_slice();
    let entry = DiskInode {
        kind: raw[offset],
        name_len: raw[offset + 2],
        parent: get_u64(slice, offset + 4),
        len: get_u64(slice, offset + 12),
        start_sector: get_u64(slice, offset + 20),
        sector_count: get_u32(slice, offset + 28),
        name,
    };
    proof {
        assert(name@ =~= rec.subrange(32, 96));
        assert(le64(rec, 4) == le64(raw@, offset + 4));
        assert(le64(rec, 12) == le64(raw@, offset + 12));
        assert(le64(rec, 20) == le64(raw@, offset + 20));
        assert(le32(rec, 28) == le32(raw@, offset + 28));
    }
    if entry.name_len as usize > MAX_DISK_NAME || entry.kind > 2 {
        return Err(VfsError::CorruptFilesystem);
    }
    Ok(entry)
}

/// Writes the record of `entry` at `offset` of `raw`.
fn encode_inode(raw: &mut [u8; SECTOR_SIZE], offset: usize, entry: DiskInode)
    requires
        offset + INODE_SIZE <= SECTOR_SIZE,
    ensures
        encodes(final(raw)@.subrange(offset as int, offset + INODE_SIZE), entry),
        forall|k: int|
            0 <= k < SECTOR_SIZE && !(offset <= k < offset + INODE_SIZE) ==> final(raw)@[k] == old(raw)@[k],
{
    let mut k: usize = 0;
    while k < INODE_SIZE
        invariant
            offset + INODE_SIZE <= SECTOR_SIZE,
            k <= INODE_SIZE,
            forall|j: int| offset <= j < offset + k ==> raw@[j] == 0,
            forall|j: int|
                0 <= j < SECTOR_SIZE && !(offset <= j < offset + INODE_SIZE) ==> raw@[j] == old(raw)@[j],
        decreases INODE_SIZE - k,
    {
        raw[offset + k] = 0;
        k = k + 1;
    }
    let ghost zeroed = raw@;
    raw[offset] = entry.kind;
    raw[offset + 2] = entry.name_len;
    let ghost headed = raw@;
    assert(forall|i: int| 0 <= i < SECTOR_SIZE && i != offset && i != offset + 2 ==> headed[i] == zeroed[i]);
    put_u64(raw, offset + 4, entry.parent);
    put_u64(raw, offset + 12, entry.len);
    put_u64(raw, offset + 20, entry.start_sector);
    put_u32(raw, offset + 28, entry.sector_count);
    let ghost before_name = raw@;
    let mut j: usize = 0;
    while j < 64
        invariant
            offset + INODE_SIZE <= SECTOR_SIZE,
            j <= 64,
            forall|i: int| 0 <= i < j ==> raw@[offset + 32 + i] == entry.name@[i],
            forall|i: int|
                0 <= i < SECTOR_SIZE && !(offset + 32 <= i < offset + 32 + j) ==> raw@[i]
                    == before_name[i],
        decreases 64 - j,
    {
        raw[offset + 32 + j] = entry.name[j];
        j = j + 1;
    }
    proof {
        assert forall|i: int| 0 <= i < SECTOR_SIZE && !(offset + 4 <= i < offset + 32) implies before_name[i] == headed[i] by {}
        let rec = raw@.subrange(offset as int, offset + INODE_SIZE);
        assert(rec[1] == raw@[offset + 1]);
        assert(rec[3] == raw@[offset + 3]);
        assert forall|k: int| 96 <= k < INODE_SIZE implies rec[k] == 0 by {
            assert(rec[k] == raw@[offset + k]);
            assert(raw@[offset + k] == before_name[offset + k]);
            assert(before_name[offset + k] == headed[offset + k]);
            assert(headed[offset + k] == zeroed[offset + k]);
        }
        assert(rec[0] == raw@[offset as int]);
        assert(rec[2] == raw@[offset + 2]);
        assert(raw@[offset as int] == before_name[offset as int]);
        assert(before_name[offset as int] == headed[offset as int]);
        assert(raw@[offset + 2] == before_name[offset + 2]);
        assert(before_name[offset + 2] == headed[offset + 2]);
        assert(raw@[offset + 1] == before_name[offset + 1]);
        assert(before_name[offset + 1] == headed[offset + 1]);
        assert(raw@[offset + 3] == before_name[offset + 3]);
        assert(before_name[offset + 3] == headed[offset + 3]);
        assert forall|k: int|
            0 <= k < SECTOR_SIZE && !(offset <= k < offset + INODE_SIZE) implies raw@[k] == old(raw)@[k] by {
            assert(raw@[k] == before_name[k]);
            assert(before_name[k] == headed[k]);
            assert(headed[k] == zeroed[k]);
        }
        assert(le64(rec, 4) == le64(raw@, offset + 4));
        assert(le64(raw@, offset + 4) == le64(before_name, offset + 4));
        assert(le64(rec, 12) == le64(raw@, offset + 12));
        assert(le64(raw@, offset + 12) == le64(before_name, offset + 12));
        assert(le64(rec, 20) == le64(raw@, offset + 20));
        assert(le64(raw@, offset + 20) == le64(before_name, offset + 20));
        assert(le32(rec, 28) == le32(raw@, offset + 28));
        assert(le32(raw@, offset + 28) == le32(before_name, offset + 28));
        assert(rec.subrange(32, 96) =~= entry.name@);
    }
}

/// A device-backed GenericFS volume.
pub struct GenericFs<D: BlockDevice> {
    device: D,
}

/// The byte at `off` of sector `sector`, zero where the sector cannot be read.
pub open spec fn sector_byte<D: BlockDevice>(fs: &GenericFs<D>, sector: int, off: int) -> u8 {
    if 0 <= sector <= u64::MAX {
        match fs.sector_spec(sector as u64) {
            Ok(b) => b[off],
            Err(_) => 0,
        }
    } else {
        0
    }
}

/// The sectors below the data area (the superblock and the inode table)
/// read the same in `after` as in `before`.
pub open spec fn table_kept<D: BlockDevice>(before: GenericFs<D>, after: GenericFs<D>) -> bool {
    forall|s: u64| s < DATA_START ==> #[trigger] after.sector_spec(s) == before.sector_spec(s)
}

/// What creating `name` of `kind` in `parent` does, from `before` to
/// `after`, answering `r`.
pub open spec fn create_outcome_disk<D: BlockDevice>(
    before: GenericFs<D>,
    after: GenericFs<D>,
    parent: Inode,
    name: Seq<char>,
    kind: u8,
    r: Result<Inode, VfsError>,
) -> bool {
    &&& after.sector_count_spec() == before.sector_count_spec()
    &&& disk_name_error(name) matches Some(e) ==> r == Err::<Inode, VfsError>(e)
    &&& disk_name_error(name) is None ==> (match before.record_result(parent) {
                Err(e) => r == Err::<Inode, VfsError>(e),
                Ok(raw) => if raw[0] != 1 && raw[0] != 2 {
                    r == Err::<Inode, VfsError>(VfsError::NotFound)
                } else if raw[0] != 2 {
                    r == Err::<Inode, VfsError>(VfsError::NotDirectory)
                } else if before.child_scan(parent, name, 2) matches Ok(Some(_)) {
                    r == Err::<Inode, VfsError>(VfsError::AlreadyExists)
                } else {
                    match before.free_scan(2) {
                        Err(e) => r == Err::<Inode, VfsError>(e),
                        Ok(i) => r is Ok ==> (r->Ok_0 == i && (after.record_result(i) matches Ok(
                            rec,
                        ) && rec[0] == kind && le64(rec, 4) == parent && rec.subrange(
                            32,
                            32 + rec[2],
                        ) == encode_utf8(name) && le64(rec, 12) == 0 && le32(rec, 28) == 0)),
                    }
                }
            })
}

/// The sector that holds byte `p` of a file whose extent starts at `start`.
pub open spec fn sector_of(start: int, p: int) -> int {
    start + p / (SECTOR_SIZE as int)
}

/// Every sector that holds a byte of `from..to` of a file whose extent
/// starts at `start` exists and reads.
pub open spec fn extent_readable<D: BlockDevice>(fs: GenericFs<D>, start: int, from: int, to: int) -> bool {
    forall|p: int|
        from <= p < to ==> sector_of(start, p) <= u64::MAX && (#[trigger] fs.sector_spec(
            sector_of(start, p) as u64,
        )) is Ok
}

/// Byte `p` of a file whose extent starts at sector `start`.
pub open spec fn disk_byte<D: BlockDevice>(fs: GenericFs<D>, start: int, p: int) -> u8 {
    sector_byte(&fs, start + p / (SECTOR_SIZE as int), p % (SECTOR_SIZE as int))
}

/// After writing the sector that holds bytes `offset + done ..` of a file
/// whose extent starts at `start` (`count` bytes of `data` from `done` on,
/// the sector read back whole), the file's bytes from `offset` on hold
/// `data` up to the end of that chunk.
proof fn lemma_chunk_written<D: BlockDevice>(
    before: GenericFs<D>,
    after: GenericFs<D>,
    start: int,
    sector: int,
    offset: int,
    done: int,
    count: int,
    data: Seq<u8>,
    bytes: Seq<u8>,
)
    requires
        0 <= offset,
        0 <= done,
        0 <= count,
        done + count <= data.len(),
        sector == start + (offset + done) / (SECTOR_SIZE as int),
        0 <= sector <= u64::MAX,
        (offset + done) % (SECTOR_SIZE as int) + count <= SECTOR_SIZE,
        done == 0 || (offset + done) % (SECTOR_SIZE as int) == 0,
        after.sector_spec(sector as u64) == Ok::<Seq<u8>, BlockError>(bytes),
        bytes.len() == SECTOR_SIZE,
        forall|other: u64| other != sector ==> after.sector_spec(other) == before.sector_spec(other),
        forall|k: int| 0 <= k < count ==> bytes[(offset + done) % (SECTOR_SIZE as int) + k] == #[trigger] data[done + k],
        forall|p: int|
            offset <= p < offset + done ==> start + p / (SECTOR_SIZE as int) <= u64::MAX && #[trigger] disk_byte(
                before,
                start,
                p,
            ) == data[p - offset],
    ensures
        forall|p: int|
            offset <= p < offset + done + count ==> start + p / (SECTOR_SIZE as int) <= u64::MAX && #[trigger] disk_byte(
                after,
                start,
                p,
            ) == data[p - offset],
{
    let position = offset + done;
    let sector_index = position / (SECTOR_SIZE as int);
    let within = position % (SECTOR_SIZE as int);
    assert forall|p: int| offset <= p < offset + done + count implies start + p / (SECTOR_SIZE as int) <= u64::MAX
        && #[trigger] disk_byte(after, start, p) == data[p - offset] by {
        if p < position {
            assert(p / (SECTOR_SIZE as int) < sector_index);
            assert(disk_byte(before, start, p) == data[p - offset]);
        } else {
            let t0 = p - position;
            assert(p == sector_index * (SECTOR_SIZE as int) + within + t0);
            assert(p / (SECTOR_SIZE as int) == sector_index && p % (SECTOR_SIZE as int) == within + t0);
            assert(bytes[within + t0] == data[done + t0]);
        }
    }
}

/// Writing back the sector that holds byte `position` of a file whose
/// extent starts at `start`, read whole and changed only at `count` bytes
/// from `position` on, leaves every other byte of the file as it was.
proof fn lemma_chunk_frame<D: BlockDevice>(
    before: GenericFs<D>,
    after: GenericFs<D>,
    start: int,
    sector: int,
    position: int,
    count: int,
    read: Seq<u8>,
    bytes: Seq<u8>,
)
    requires
        0 <= position,
        0 <= count,
        sector == start + position / (SECTOR_SIZE as int),
        0 <= sector <= u64::MAX,
        position % (SECTOR_SIZE as int) + count <= SECTOR_SIZE,
        before.sector_spec(sector as u64) == Ok::<Seq<u8>, BlockError>(read),
        after.sector_spec(sector as u64) == Ok::<Seq<u8>, BlockError>(bytes),
        forall|j: int|
            0 <= j < SECTOR_SIZE && !(position % (SECTOR_SIZE as int) <= j < position % (SECTOR_SIZE as int) + count)
                ==> #[trigger] bytes[j] == read[j],
        forall|other: u64| other != sector ==> after.sector_spec(other) == before.sector_spec(other),
    ensures
        forall|p: int|
            0 <= p && !(position <= p < position + count) ==> #[trigger] disk_byte(after, start, p) == disk_byte(
                before,
                start,
                p,
            ),
        sector >= DATA_START ==> forall|s: u64| s < DATA_START ==> #[trigger] after.sector_spec(s) == before.sector_spec(s),
{
    assert forall|p: int| 0 <= p && !(position <= p < position + count) implies #[trigger] disk_byte(after, start, p)
        == disk_byte(before, start, p) by {
        let q = p / (SECTOR_SIZE as int);
        let m = p % (SECTOR_SIZE as int);
        if start + q == sector {
            assert(q == position / (SECTOR_SIZE as int));
            assert(p == q * (SECTOR_SIZE as int) + m);
            assert(position == q * (SECTOR_SIZE as int) + position % (SECTOR_SIZE as int));
            assert(!(position % (SECTOR_SIZE as int) <= m < position % (SECTOR_SIZE as int) + count));
            assert(bytes[m] == read[m]);
        }
    }
}

impl<D: BlockDevice> GenericFs<D> {
    /// The filesystem view of `device`.
    pub closed spec fn over(device: D) -> GenericFs<D> {
        GenericFs { device }
    }

    /// What reading `sector` of the device gives.
    pub closed spec fn sector_spec(&self, sector: u64) -> Result<Seq<u8>, BlockError> {
        self.device.sector_spec(sector)
    }

    /// The number of sectors of the device.
    pub closed spec fn sector_count_spec(&self) -> u64 {
        self.device.sector_count_spec()
    }

    /// What reading the record of `inode` gives: its 128 bytes, or the
    /// error met on the way.
    pub open spec fn record_result(&self, inode: Inode) -> Result<Seq<u8>, VfsError> {
        match inode_slot(inode) {
            None => Err(VfsError::NotFound),
            Some(i) => match self.sector_spec(slot_sector(i) as u64) {
                Err(e) => Err(block_error(e)),
                Ok(b) => {
                    let raw = b.subrange(slot_offset(i), slot_offset(i) + INODE_SIZE);
                    if record_ok(raw) {
                        Ok(raw)
                    } else {
                        Err(VfsError::CorruptFilesystem)
                    }
                },
            },
        }
    }

    /// Looks for the entry `name` of `parent` among the records from
    /// inode `i` on, in inode order: the first match, none, or the first
    /// error met.
    #[verifier::opaque]
    pub open spec fn child_scan(&self, parent: Inode, name: Seq<char>, i: int) -> Result<
        Option<Inode>,
        VfsError,
    >
        decreases INODE_COUNT + 1 - i,
    {
        if i > INODE_COUNT || i < 0 {
            Ok(None)
        } else {
            match self.record_result(i as u64) {
                Err(e) => Err(e),
                Ok(raw) => if raw[0] != 0 && le64(raw, 4) == parent {
                    match record_name(raw) {
                        None => Err(VfsError::CorruptFilesystem),
                        Some(text) => if text == name {
                            Ok(Some(i as Inode))
                        } else {
                            self.child_scan(parent, name, i + 1)
                        },
                    }
                } else {
                    self.child_scan(parent, name, i + 1)
                },
            }
        }
    }

    /// One step of `child_scan`.
    pub proof fn lemma_child_scan_step(&self, parent: Inode, name: Seq<char>, i: int)
        requires
            2 <= i <= INODE_COUNT,
        ensures
            self.child_scan(parent, name, i) == match self.record_result(i as u64) {
                Err(e) => Err(e),
                Ok(raw) => if raw[0] != 0 && le64(raw, 4) == parent {
                    match record_name(raw) {
                        None => Err(VfsError::CorruptFilesystem),
                        Some(text) => if text == name {
                            Ok(Some(i as Inode))
                        } else {
                            self.child_scan(parent, name, i + 1)
                        },
                    }
                } else {
                    self.child_scan(parent, name, i + 1)
                },
            },
    {
        reveal_with_fuel(GenericFs::child_scan, 1);
    }

    /// Past the last inode `child_scan` finds nothing.
    pub proof fn lemma_child_scan_end(&self, parent: Inode, name: Seq<char>)
        ensures
            self.child_scan(parent, name, INODE_COUNT + 1) == Ok::<Option<Inode>, VfsError>(None),
    {
        reveal_with_fuel(GenericFs::child_scan, 1);
    }

    /// The first free record from inode `i` on, or the first error met.
    pub open spec fn free_scan(&self, i: int) -> Result<Inode, VfsError>
        decreases INODE_COUNT + 1 - i,
    {
        if i > INODE_COUNT || i < 0 {
            Err(VfsError::NoSpace)
        } else {
            match self.record_result(i as u64) {
                Err(e) => Err(e),
                Ok(raw) => if raw[0] == 0 {
                    Ok(i as Inode)
                } else {
                    self.free_scan(i + 1)
                },
            }
        }
    }

    /// Reads the record of `inode`.
    fn read_inode(&self, inode: Inode) -> (r: Result<DiskInode, VfsError>)
        ensures
            match self.record_result(inode) {
                Ok(raw) => r is Ok && decodes_to(raw, r->Ok_0) && record_ok(raw) && raw.len()
                    == INODE_SIZE,
                Err(e) => r == Err::<DiskInode, VfsError>(e),
            },
    {
        let index = inode_index(inode)?;
        let sector = INODE_TABLE_START + (index / INODES_PER_SECTOR) as u64;
        let offset = (index % INODES_PER_SECTOR) * INODE_SIZE;
        let mut raw = [0u8; SECTOR_SIZE];
        match self.device.read_sector(sector, &mut raw) {
            Ok(()) => {},
            Err(e) => {
                return Err(map_block(e));
            },
        }
        decode_inode(&raw, offset)
    }

    /// Writes the record of `inode`.
    fn write_inode(&mut self, inode: Inode, value: DiskInode) -> (r: Result<(), VfsError>)
        ensures
            final(self).sector_count_spec() == old(self).sector_count_spec(),
            inode_slot(inode) is None ==> r == Err::<(), VfsError>(VfsError::NotFound),
            r is Ok ==> inode_slot(inode) is Some && ({
                let i = inode_slot(inode)->Some_0;
                let sector = slot_sector(i);
                &&& old(self).sector_spec(sector as u64) is Ok
                &&& old(self).sector_spec(sector as u64)->Ok_0.len() == SECTOR_SIZE
                &&& final(self).sector_spec(sector as u64) matches Ok(b) && b.len() == SECTOR_SIZE && encodes(
                    b.subrange(slot_offset(i), slot_offset(i) + INODE_SIZE),
                    value,
                ) && forall|k: int|
                    0 <= k < SECTOR_SIZE && !(slot_offset(i) <= k < slot_offset(i) + INODE_SIZE)
                        ==> b[k] == old(self).sector_spec(sector as u64)->Ok_0[k]
                &&& forall|other: u64|
                    other != sector ==> final(self).sector_spec(other) == old(self).sector_spec(
                        other,
                    )
            }),
    {
        let index = inode_index(inode)?;
        let sector = INODE_TABLE_START + (index / INODES_PER_SECTOR) as u64;
        let offset = (index % INODES_PER_SECTOR) * INODE_SIZE;
        let mut raw = [0u8; SECTOR_SIZE];
        match self.device.read_sector(sector, &mut raw) {
            Ok(()) => {},
            Err(e) => {
                return Err(map_block(e));
            },
        }
        let ghost before = raw@;
        encode_inode(&mut raw, offset, value);
        match self.device.write_sector(sector, &raw) {
            Ok(()) => Ok(()),
            Err(e) => Err(map_block(e)),
        }
    }

    /// The inode of entry `name` in directory `parent`.
    #[verifier::rlimit(40)]
    fn find_child(&self, parent: Inode, name: &str) -> (r: Result<Inode, VfsError>)
        ensures
            r == match self.child_scan(parent, name@, 2) {
                Ok(Some(i)) => Ok::<Inode, VfsError>(i),
                Ok(None) => Err(VfsError::NotFound),
                Err(e) => Err(e),
            },
    {
        let mut inode: u64 = 2;
        while inode <= INODE_COUNT as u64
            invariant
                2 <= inode <= INODE_COUNT + 1,
                self.child_scan(parent, name@, 2) == self.child_scan(parent, name@, inode as int),
            decreases INODE_COUNT + 1 - inode,
        {
            proof {
                self.lemma_child_scan_step(parent, name@, inode as int);
            }
            let entry = self.read_inode(inode)?;
            if entry.kind != 0 && entry.parent == parent {
                proof {
                    let raw = self.record_result(inode)->Ok_0;
                    assert(entry.name@.subrange(0, entry.name_len as int) =~= raw.subrange(
                        32,
                        32 + raw[2],
                    ));
                }
                let text = entry.name()?;
                if string_equals(&text, name) {
                    return Ok(inode);
                }
            }
            inode = inode + 1;
        }
        proof {
            self.lemma_child_scan_end(parent, name@);
        }
        Err(VfsError::NotFound)
    }

    /// The first free inode.
    fn allocate_inode(&self) -> (r: Result<Inode, VfsError>)
        ensures
            r == self.free_scan(2),
    {
        let mut inode: u64 = 2;
        while inode <= INODE_COUNT as u64
            invariant
                2 <= inode <= INODE_COUNT + 1,
                self.free_scan(2) == self.free_scan(inode as int),
            decreases INODE_COUNT + 1 - inode,
        {
            if self.read_inode(inode)?.kind == 0 {
                return Ok(inode);
            }
            inode = inode + 1;
        }
        Err(VfsError::NoSpace)
    }
}

/// Whether `a` holds the text `b`.
pub(crate) fn string_equals(a: &String, b: &str) -> (r: bool)
    ensures
        r == (a@ == b@),
{
    let x = chars_of(a.as_str());
    let y = chars_of(b);
    if x.len() != y.len() {
        return false;
    }
    let mut i: usize = 0;
    while i < x.len()
        invariant
            x@ == a@,
            y@ == b@,
            x@.len() == y@.len(),
            i <= x@.len(),
            forall|k: int| 0 <= k < i ==> x@[k] == y@[k],
        decreases x@.len() - i,
    {
        if x[i] != y[i] {
            return false;
        }
        i = i + 1;
    }
    assert(x@ =~= y@);
    true
}

/// The extent of data sectors of the file record `raw`, when it has one.
pub open spec fn file_extent(raw: Seq<u8>) -> Option<(int, int)> {
    if raw[0] == 1 && le32(raw, 28) != 0 {
        Some((le64(raw, 20), le64(raw, 20) + le32(raw, 28)))
    } else {
        None
    }
}

/// The extents `a` and `b` share no sector.
pub open spec fn disjoint(a: (int, int), b: (int, int)) -> bool {
    a.1 <= b.0 || b.1 <= a.0
}

/// Extents sorted by their first sector.
pub open spec fn sorted_by_start(v: Seq<(u64, u64)>) -> bool {
    forall|a: int, b: int| 0 <= a < b < v.len() ==> (#[trigger] v[a]).0 <= (#[trigger] v[b]).0
}

/// Inserts `extent` into `used`, keeping it sorted by first sector.
fn insert_extent(used: &mut Vec<(u64, u64)>, extent: (u64, u64))
    requires
        sorted_by_start(old(used)@),
    ensures
        sorted_by_start(final(used)@),
        final(used)@.len() == old(used)@.len() + 1,
        final(used)@.contains(extent),
        forall|x: (u64, u64)| old(used)@.contains(x) ==> final(used)@.contains(x),
        forall|x: (u64, u64)| final(used)@.contains(x) ==> x == extent || old(used)@.contains(x),
{
    let mut position: usize = 0;
    while position < used.len() && used[position].0 <= extent.0
        invariant
            position <= used@.len(),
            forall|k: int| 0 <= k < position ==> used@[k].0 <= extent.0,
        decreases used@.len() - position,
    {
        position = position + 1;
    }
    let ghost before = used@;
    used.insert(position, extent);
    proof {
        assert(used@ =~= before.insert(position as int, extent));
        assert(used@[position as int] == extent);
        assert forall|x: (u64, u64)| before.contains(x) implies used@.contains(x) by {
            let k = choose|k: int| 0 <= k < before.len() && before[k] == x;
            if k < position {
                assert(used@[k] == x);
            } else {
                assert(used@[k + 1] == x);
            }
        }
        assert forall|x: (u64, u64)| used@.contains(x) implies x == extent || before.contains(x) by {
            let k = choose|k: int| 0 <= k < used@.len() && used@[k] == x;
            if k < position {
                assert(before[k] == x);
            } else if k > position {
                assert(before[k - 1] == x);
            }
        }
        assert forall|a: int, b: int| 0 <= a < b < used@.len() implies (#[trigger] used@[a]).0 <= (
        #[trigger] used@[b]).0 by {
            if b == position {
                assert(used@[a] == before[a]);
            } else if a == position {
                assert(used@[b] == before[b - 1]);
                if b - 1 > position {
                    assert(before[position as int].0 <= before[b - 1].0);
                }
            } else {
                let aa = if a < position {
                    a
                } else {
                    a - 1
                };
                let bb = if b < position {
                    b
                } else {
                    b - 1
                };
                assert(used@[a] == before[aa]);
                assert(used@[b] == before[bb]);
            }
        }
    }
}

impl<D: BlockDevice> GenericFs<D> {
    /// Record `i` reads, and its file extent, if any, misses the `n`
    /// sectors from `c`.
    pub open spec fn extent_clear(&self, i: int, c: int, n: int) -> bool {
        &&& self.record_result(i as u64) is Ok
        &&& file_extent(self.record_result(i as u64)->Ok_0) matches Some(x) ==> disjoint((c, c + n), x)
    }

    /// Record `i` reads, and its file extent, if any, is in `used`.
    pub open spec fn extent_listed(&self, i: int, used: Seq<(u64, u64)>) -> bool {
        &&& self.record_result(i as u64) is Ok
        &&& file_extent(self.record_result(i as u64)->Ok_0) matches Some(x) ==> x.1 <= u64::MAX
            && used.contains((x.0 as u64, x.1 as u64))
    }

    /// `n` sectors from `c` on lie in the data area of the device and clear
    /// of every file's extent but that of `exclude`.
    pub open spec fn fits_at(&self, c: int, n: int, exclude: Inode) -> bool {
        &&& DATA_START <= c
        &&& c + n <= self.sector_count_spec()
        &&& forall|i: int| 2 <= i <= INODE_COUNT && i != exclude ==> #[trigger] self.extent_clear(i, c, n)
    }

    /// `e` is the extent of a file other than `exclude`.
    pub open spec fn from_file(&self, e: (u64, u64), exclude: Inode) -> bool {
        exists|i: int|
            2 <= i <= INODE_COUNT && i != exclude && #[trigger] self.record_result(i as u64) is Ok && file_extent(
                self.record_result(i as u64)->Ok_0,
            ) == Some((e.0 as int, e.1 as int))
    }

    /// A start overlapping a listed file extent does not fit.
    proof fn lemma_blocked(&self, used: Seq<(u64, u64)>, c: int, n: int, exclude: Inode, j: int)
        requires
            0 <= j < used.len(),
            self.from_file(used[j], exclude),
            !disjoint((c, c + n), (used[j].0 as int, used[j].1 as int)),
        ensures
            !self.fits_at(c, n, exclude),
    {
        let i = choose|i: int|
            2 <= i <= INODE_COUNT && i != exclude && #[trigger] self.record_result(i as u64) is Ok && file_extent(
                self.record_result(i as u64)->Ok_0,
            ) == Some((used[j].0 as int, used[j].1 as int));
        assert(!self.extent_clear(i, c, n));
    }

    /// Where `sectors` free data sectors start, clear of every other file's
    /// extent; a file being grown is left out through `exclude`. The start
    /// is the least one that fits, and `NoSpace` comes exactly when none
    /// does.
    fn find_extent(&self, sectors: u64, exclude: Inode) -> (r: Result<u64, VfsError>)
        ensures
            sectors == 0 ==> r == Ok::<u64, VfsError>(0),
            sectors > 0 ==> (r matches Ok(c) ==> self.fits_at(c as int, sectors as int, exclude) && forall|c2: int|
                c2 < c ==> !#[trigger] self.fits_at(c2, sectors as int, exclude)),
            sectors > 0 && r == Err::<u64, VfsError>(VfsError::NoSpace) ==> forall|c2: int|
                !#[trigger] self.fits_at(c2, sectors as int, exclude),
            r is Ok && sectors > 0 ==> {
                let c = r->Ok_0;
                &&& DATA_START <= c
                &&& c + sectors <= self.sector_count_spec()
                &&& forall|i: int|
                    2 <= i <= INODE_COUNT && i != exclude ==> #[trigger] self.extent_clear(
                        i,
                        c as int,
                        sectors as int,
                    )
            },
    {
        if sectors == 0 {
            return Ok(0);
        }
        let mut used: Vec<(u64, u64)> = Vec::new();
        let mut inode: u64 = 2;
        while inode <= INODE_COUNT as u64
            invariant
                sectors > 0,
                2 <= inode <= INODE_COUNT + 1,
                sorted_by_start(used@),
                forall|k: int| 0 <= k < used@.len() ==> (#[trigger] used@[k]).0 < used@[k].1,
                forall|k: int| 0 <= k < used@.len() ==> self.from_file(#[trigger] used@[k], exclude),
                forall|i: int|
                    2 <= i < inode && i != exclude ==> #[trigger] self.extent_listed(i, used@),
            decreases INODE_COUNT + 1 - inode,
        {
            let ghost start_used = used@;
            if inode != exclude {
                let entry = self.read_inode(inode)?;
                if entry.kind == 1 && entry.sector_count != 0 {
                    if entry.start_sector > u64::MAX - entry.sector_count as u64 {
                        return Err(VfsError::CorruptFilesystem);
                    }
                    let extent = (entry.start_sector, entry.start_sector + entry.sector_count as u64);
                    let ghost before = used@;
                    insert_extent(&mut used, extent);
                    proof {
                        let raw = self.record_result(inode)->Ok_0;
                        assert(file_extent(raw) == Some((extent.0 as int, extent.1 as int)));
                        let ii = inode as int;
                        assert(self.record_result(ii as u64) is Ok && file_extent(self.record_result(ii as u64)->Ok_0)
                            == Some((extent.0 as int, extent.1 as int)));
                        assert(self.from_file(extent, exclude));
                        assert forall|k: int| 0 <= k < used@.len() implies (#[trigger] used@[k]).0 < used@[k].1
                            && self.from_file(used@[k], exclude) by {
                            assert(used@.contains(used@[k]));
                            if used@[k] != extent {
                                let j = choose|j: int| 0 <= j < before.len() && before[j] == used@[k];
                                assert(self.from_file(before[j], exclude));
                            }
                        }
                    }
                }
                proof {
                    assert forall|i: int| 2 <= i <= inode && i != exclude implies #[trigger] self.extent_listed(
                        i,
                        used@,
                    ) by {
                        if i < inode {
                            assert(self.extent_listed(i, start_used));
                            if let Some(x) = file_extent(self.record_result(i as u64)->Ok_0) {
                                assert(start_used.contains((x.0 as u64, x.1 as u64)));
                            }
                        } else {
                            if let Some(x) = file_extent(self.record_result(i as u64)->Ok_0) {
                                assert(x == (entry.start_sector as int, entry.start_sector + entry.sector_count));
                            }
                        }
                    }
                }
            }
            inode = inode + 1;
        }
        let mut candidate: u64 = DATA_START;
        let mut k: usize = 0;
        while k < used.len()
            invariant
                sectors > 0,
                forall|i: int|
                    2 <= i <= INODE_COUNT && i != exclude ==> #[trigger] self.extent_listed(i, used@),
                DATA_START <= candidate,
                k <= used@.len(),
                sorted_by_start(used@),
                forall|j: int| 0 <= j < k ==> (#[trigger] used@[j]).1 <= candidate,
                forall|j: int| 0 <= j < used@.len() ==> (#[trigger] used@[j]).0 < used@[j].1,
                forall|j: int| 0 <= j < used@.len() ==> self.from_file(#[trigger] used@[j], exclude),
                forall|c2: int| c2 < candidate ==> !#[trigger] self.fits_at(c2, sectors as int, exclude),
            decreases used@.len() - k,
        {
            let (start, end) = used[k];
            if candidate <= u64::MAX - sectors && candidate + sectors <= start {
                proof {
                    assert forall|i: int|
                        2 <= i <= INODE_COUNT && i != exclude implies #[trigger] self.extent_clear(
                            i,
                            candidate as int,
                            sectors as int,
                        ) by {
                        assert(self.extent_listed(i, used@));
                        if let Some(x) = file_extent(self.record_result(i as u64)->Ok_0) {
                            let j = choose|j: int| 0 <= j < used@.len() && used@[j] == (x.0 as u64, x.1 as u64);
                            if j < k {
                            } else {
                                assert(used@[k as int].0 <= used@[j].0);
                            }
                        }
                    }
                }
                if candidate + sectors <= self.device.sector_count() {
                    return Ok(candidate);
                }
                return Err(VfsError::NoSpace);
            }
            proof {
                assert forall|c2: int| c2 < (if end > candidate { end } else { candidate }) implies !#[trigger] self.fits_at(
                    c2,
                    sectors as int,
                    exclude,
                ) by {
                    if c2 >= candidate {
                        if c2 + sectors <= self.sector_count_spec() {
                            assert(c2 + sectors > start);
                            self.lemma_blocked(used@, c2, sectors as int, exclude, k as int);
                        }
                    }
                }
            }
            if end > candidate {
                candidate = end;
            }
            k = k + 1;
        }
        if candidate <= u64::MAX - sectors && candidate + sectors <= self.device.sector_count() {
            proof {
                assert forall|i: int|
                    2 <= i <= INODE_COUNT && i != exclude implies #[trigger] self.extent_clear(
                        i,
                        candidate as int,
                        sectors as int,
                    ) by {
                    assert(self.extent_listed(i, used@));
                    if let Some(x) = file_extent(self.record_result(i as u64)->Ok_0) {
                        let j = choose|j: int| 0 <= j < used@.len() && used@[j] == (x.0 as u64, x.1 as u64);
                    }
                }
            }
            Ok(candidate)
        } else {
            Err(VfsError::NoSpace)
        }
    }
}

impl<D: BlockDevice> GenericFs<D> {
    /// Moves the file `inode` to an extent of at least `needed` sectors when
    /// its own is smaller: its sectors are copied first, in ascending order,
    /// then the rest of the new extent is zeroed, so that an extent that
    /// starts at or before the old one keeps every byte the file held.
    fn ensure_capacity(&mut self, inode: Inode, entry: &mut DiskInode, needed: u64) -> (r: Result<
        (),
        VfsError,
    >)
        ensures
            final(self).sector_count_spec() == old(self).sector_count_spec(),
            final(entry).kind == old(entry).kind,
            final(entry).name_len == old(entry).name_len,
            final(entry).name == old(entry).name,
            final(entry).parent == old(entry).parent,
            final(entry).len == old(entry).len,
            r is Ok ==> final(entry).sector_count >= needed,
            needed <= old(entry).sector_count ==> r is Ok && *final(entry) == *old(entry) && *final(self) == *old(self),
            r is Ok ==> table_kept(*old(self), *final(self)),
            final(entry).start_sector == old(entry).start_sector || final(entry).start_sector >= DATA_START,
            r is Ok && needed > old(entry).sector_count ==> final(entry).start_sector >= DATA_START && old(self).fits_at(
                final(entry).start_sector as int,
                needed as int,
                inode,
            ),
            r is Ok && (final(entry).start_sector <= old(entry).start_sector || final(entry).start_sector
                >= old(entry).start_sector + old(entry).sector_count) ==> forall|p: int|
                0 <= p < old(entry).sector_count * SECTOR_SIZE ==> #[trigger] disk_byte(
                    *final(self),
                    final(entry).start_sector as int,
                    p,
                ) == disk_byte(*old(self), old(entry).start_sector as int, p),
    {
        if needed <= entry.sector_count as u64 {
            return Ok(());
        }
        let new_start = self.find_extent(needed, inode)?;
        let count = entry.sector_count as u64;
        let ghost old_start = entry.start_sector as int;
        let ghost apart = new_start <= old_start || new_start >= old_start + count;
        let mut copied: u64 = 0;
        while copied < count
            invariant
                old_start == entry.start_sector,
                apart == (new_start <= old_start || new_start >= old_start + count),
                old_start + copied <= u64::MAX + 1,
                apart ==> forall|k: int| 0 <= k < copied ==> #[trigger] self.sector_spec((new_start + k) as u64)
                    == old(self).sector_spec((old_start + k) as u64),
                apart ==> forall|t: u64| old_start + copied <= t < old_start + count ==> #[trigger] self.sector_spec(t)
                    == old(self).sector_spec(t),
                new_start + needed <= self.sector_count_spec(),
                self.sector_count_spec() == old(self).sector_count_spec(),
                *entry == *old(entry),
                needed > entry.sector_count,
                count == entry.sector_count,
                count < needed,
                copied <= count,
                DATA_START <= new_start,
                table_kept(*old(self), *self),
            decreases count - copied,
        {
            if entry.start_sector > u64::MAX - copied {
                return Err(VfsError::CorruptFilesystem);
            }
            let mut buffer = [0u8; SECTOR_SIZE];
            match self.device.read_sector(entry.start_sector + copied, &mut buffer) {
                Ok(()) => {},
                Err(e) => {
                    return Err(map_block(e));
                },
            }
            let ghost mid = *self;
            match self.device.write_sector(new_start + copied, &buffer) {
                Ok(()) => {},
                Err(e) => {
                    return Err(map_block(e));
                },
            }
            proof {
                if apart {
                    assert(mid.sector_spec((old_start + copied) as u64) == old(self).sector_spec((old_start + copied) as u64));
                    assert forall|k: int| 0 <= k < copied + 1 implies #[trigger] self.sector_spec((new_start + k) as u64)
                        == old(self).sector_spec((old_start + k) as u64) by {
                        if k < copied {
                            assert(mid.sector_spec((new_start + k) as u64) == old(self).sector_spec((old_start + k) as u64));
                        }
                    }
                    assert forall|t: u64| old_start + copied + 1 <= t < old_start + count implies #[trigger] self.sector_spec(t)
                        == old(self).sector_spec(t) by {
                        assert(mid.sector_spec(t) == old(self).sector_spec(t));
                    }
                }
                assert forall|s: u64| s < DATA_START implies #[trigger] self.sector_spec(s) == old(self).sector_spec(s) by {
                    assert(mid.sector_spec(s) == old(self).sector_spec(s));
                }
            }
            copied = copied + 1;
        }
        let zero = [0u8; SECTOR_SIZE];
        let mut sector: u64 = count;
        while sector < needed
            invariant
                old_start == entry.start_sector,
                count == 0 || old_start + count - 1 <= u64::MAX,
                apart ==> forall|k: int| 0 <= k < count ==> #[trigger] self.sector_spec((new_start + k) as u64)
                    == old(self).sector_spec((old_start + k) as u64),
                new_start + needed <= self.sector_count_spec(),
                self.sector_count_spec() == old(self).sector_count_spec(),
                *entry == *old(entry),
                needed > entry.sector_count,
                count <= sector <= needed,
                count == entry.sector_count,
                DATA_START <= new_start,
                table_kept(*old(self), *self),
            decreases needed - sector,
        {
            let ghost mid = *self;
            match self.device.write_sector(new_start + sector, &zero) {
                Ok(()) => {},
                Err(e) => {
                    return Err(map_block(e));
                },
            }
            proof {
                assert forall|s: u64| s < DATA_START implies #[trigger] self.sector_spec(s) == old(self).sector_spec(s) by {
                    assert(mid.sector_spec(s) == old(self).sector_spec(s));
                }
                if apart {
                    assert forall|k: int| 0 <= k < count implies #[trigger] self.sector_spec((new_start + k) as u64)
                        == old(self).sector_spec((old_start + k) as u64) by {
                        assert(mid.sector_spec((new_start + k) as u64) == old(self).sector_spec((old_start + k) as u64));
                    }
                }
            }
            sector = sector + 1;
        }
        proof {
            if apart {
                assert forall|p: int| 0 <= p < count * SECTOR_SIZE implies #[trigger] disk_byte(*self, new_start as int, p)
                    == disk_byte(*old(self), old_start, p) by {
                    let q = p / (SECTOR_SIZE as int);
                    assert(0 <= q < count);
                    assert(self.sector_spec((new_start + q) as u64) == old(self).sector_spec((old_start + q) as u64));
                }
            }
        }
        entry.start_sector = new_start;
        if needed > u32::MAX as u64 {
            return Err(VfsError::NoSpace);
        }
        entry.sector_count = needed as u32;
        Ok(())
    }

    /// Zeroes bytes `start..end` of the file whose record is `entry`.
    fn zero_range(&mut self, entry: &DiskInode, start: usize, end: usize) -> (r: Result<
        (),
        VfsError,
    >)
        ensures
            final(self).sector_count_spec() == old(self).sector_count_spec(),
            start >= end ==> r is Ok && *final(self) == *old(self),
            r is Ok && entry.start_sector >= DATA_START ==> table_kept(*old(self), *final(self)),
            r is Ok ==> forall|p: int|
                start <= p < end ==> #[trigger] disk_byte(*final(self), entry.start_sector as int, p) == 0,
            r is Ok ==> forall|p: int|
                0 <= p && !(start <= p < end) ==> #[trigger] disk_byte(*final(self), entry.start_sector as int, p)
                    == disk_byte(*old(self), entry.start_sector as int, p),
    {
        if start >= end {
            return Ok(());
        }
        let ghost zeros = Seq::new((end - start) as nat, |k: int| 0u8);
        let mut position = start;
        while position < end
            invariant
                self.sector_count_spec() == old(self).sector_count_spec(),
                start <= position <= end,
                zeros == Seq::new((end - start) as nat, |k: int| 0u8),
                entry.start_sector >= DATA_START ==> table_kept(*old(self), *self),
                position == start || position == end || position as int % (SECTOR_SIZE as int) == 0,
                forall|p: int|
                    start <= p < position ==> entry.start_sector + p / (SECTOR_SIZE as int) <= u64::MAX
                        && #[trigger] disk_byte(*self, entry.start_sector as int, p) == zeros[p - start],
                forall|p: int|
                    0 <= p && !(start <= p < position) ==> #[trigger] disk_byte(*self, entry.start_sector as int, p)
                        == disk_byte(*old(self), entry.start_sector as int, p),
            decreases end - position,
        {
            let sector_index = (position / SECTOR_SIZE) as u64;
            let within = position % SECTOR_SIZE;
            let room = SECTOR_SIZE - within;
            let count = if room < end - position {
                room
            } else {
                end - position
            };
            if entry.start_sector > u64::MAX - sector_index {
                return Err(VfsError::CorruptFilesystem);
            }
            let sector = entry.start_sector + sector_index;
            let mut buffer = [0u8; SECTOR_SIZE];
            match self.device.read_sector(sector, &mut buffer) {
                Ok(()) => {},
                Err(e) => {
                    return Err(map_block(e));
                },
            }
            let ghost read = buffer@;
            let mut k: usize = 0;
            while k < count
                invariant
                    within + count <= SECTOR_SIZE,
                    k <= count,
                    buffer@.len() == SECTOR_SIZE,
                    forall|j: int| within <= j < within + k ==> buffer@[j] == 0,
                    forall|j: int| 0 <= j < SECTOR_SIZE && !(within <= j < within + k) ==> #[trigger] buffer@[j] == read[j],
                decreases count - k,
            {
                buffer[within + k] = 0;
                k = k + 1;
            }
            let ghost mid = *self;
            match self.device.write_sector(sector, &buffer) {
                Ok(()) => {},
                Err(e) => {
                    return Err(map_block(e));
                },
            }
            proof {
                assert forall|j: int| 0 <= j < count implies buffer@[(start + (position - start)) % (SECTOR_SIZE as int) + j]
                    == #[trigger] zeros[(position - start) + j] by {
                    assert(buffer@[within + j] == 0);
                }
                lemma_chunk_written(
                    mid,
                    *self,
                    entry.start_sector as int,
                    sector as int,
                    start as int,
                    (position - start) as int,
                    count as int,
                    zeros,
                    buffer@,
                );
                lemma_chunk_frame(mid, *self, entry.start_sector as int, sector as int, position as int, count as int, read, buffer@);
                assert forall|p: int| 0 <= p && !(start <= p < position + count) implies #[trigger] disk_byte(
                    *self,
                    entry.start_sector as int,
                    p,
                ) == disk_byte(*old(self), entry.start_sector as int, p) by {
                    assert(disk_byte(*self, entry.start_sector as int, p) == disk_byte(mid, entry.start_sector as int, p));
                }
                if entry.start_sector >= DATA_START {
                    assert forall|s: u64| s < DATA_START implies #[trigger] self.sector_spec(s) == old(self).sector_spec(
                        s,
                    ) by {
                        assert(mid.sector_spec(s) == old(self).sector_spec(s));
                    }
                }
            }
            position = position + count;
        }
        proof {
            assert forall|p: int| start <= p < end implies #[trigger] disk_byte(*self, entry.start_sector as int, p)
                == 0 by {
                assert(zeros[p - start] == 0);
            }
        }
        Ok(())
    }

    /// Adds an entry `name` of `kind` (1 file, 2 directory) to `parent`.
    fn create(&mut self, parent: Inode, name: &str, kind: u8) -> (r: Result<Inode, VfsError>)
        requires
            kind == 1 || kind == 2,
        ensures
            create_outcome_disk(*old(self), *final(self), parent, name@, kind, r),
    {
        validate_disk_name(name)?;
        let directory = self.read_inode(parent)?;
        if directory.node_kind()? != NodeKind::Directory {
            return Err(VfsError::NotDirectory);
        }
        if self.find_child(parent, name).is_ok() {
            return Err(VfsError::AlreadyExists);
        }
        let inode = self.allocate_inode()?;
        let bytes = name.as_bytes();
        let mut text = [0u8; 64];
        proof {
            vstd::array::axiom_spec_array_fill_for_copy_type::<u8, 64>(0u8);
        }
        let mut k: usize = 0;
        while k < bytes.len()
            invariant
                bytes@.len() <= MAX_DISK_NAME,
                k <= bytes@.len(),
                forall|j: int| 0 <= j < k ==> text@[j] == bytes@[j],
                forall|j: int| bytes@.len() <= j < 64 ==> text@[j] == 0,
            decreases bytes@.len() - k,
        {
            text[k] = bytes[k];
            k = k + 1;
        }
        let entry = DiskInode {
            kind,
            name_len: bytes.len() as u8,
            parent,
            len: 0,
            start_sector: 0,
            sector_count: 0,
            name: text,
        };
        let ghost before = *self;
        self.write_inode(inode, entry)?;
        proof {
            let i = inode_slot(inode)->Some_0;
            let b = self.sector_spec(slot_sector(i) as u64)->Ok_0;
            let rec = b.subrange(slot_offset(i), slot_offset(i) + INODE_SIZE);
            lemma_record_round_trip(rec, entry);
            assert(rec.subrange(32, 32 + rec[2]) =~= text@.subrange(0, bytes@.len() as int));
            assert(text@.subrange(0, bytes@.len() as int) =~= bytes@);
        }
        Ok(inode)
    }
}

impl<D: BlockDevice> GenericFs<D> {
    /// Record `j` reads and does not name `dir` as its parent.
    pub open spec fn no_child_record(&self, dir: Inode, j: int) -> bool {
        self.record_result(j as u64) matches Ok(raw) && !(raw[0] != 0 && le64(raw, 4) == dir)
    }

    /// Record `j` is an entry of directory `dir` with a readable name.
    pub open spec fn entry_record(&self, dir: Inode, j: int) -> bool {
        &&& self.record_result(j as u64) is Ok
        &&& self.record_result(j as u64)->Ok_0[0] != 0
        &&& le64(self.record_result(j as u64)->Ok_0, 4) == dir
    }

    /// Every record from 2 to `bound` reads, and those of entries of `dir`
    /// have readable names.
    pub open spec fn records_clean(&self, dir: Inode, bound: int) -> bool {
        forall|j: int|
            #![trigger self.record_result(j as u64)]
            2 <= j < bound ==> self.record_result(j as u64) is Ok && (self.entry_record(dir, j)
                ==> record_name(self.record_result(j as u64)->Ok_0) is Some)
    }

    /// When every record from `i` to `k` reads cleanly and record `k` is
    /// the entry `name` of `dir`, looking `name` up from `i` finds an entry.
    proof fn lemma_child_scan_finds(&self, dir: Inode, name: Seq<char>, i: int, k: int)
        requires
            2 <= i <= k <= INODE_COUNT,
            self.records_clean(dir, k + 1),
            self.entry_record(dir, k),
            record_name(self.record_result(k as u64)->Ok_0) == Some(name),
        ensures
            self.child_scan(dir, name, i) matches Ok(Some(_)),
        decreases k - i,
    {
        self.lemma_child_scan_step(dir, name, i);
        if i < k {
            let raw = self.record_result(i as u64)->Ok_0;
            assert(self.record_result(i as u64) is Ok);
            if self.entry_record(dir, i) {
                assert(record_name(raw) is Some);
            }
            self.lemma_child_scan_finds(dir, name, i + 1, k);
        }
    }

    /// One step of the chunked copy: the `count` bytes of a sector from
    /// `within` on are the file bytes from `position` on.
    proof fn lemma_chunk(position: int, start: int, within: int, count: int, t: int)
        requires
            position >= 0,
            within == position % (SECTOR_SIZE as int),
            within + count <= SECTOR_SIZE,
            0 <= t < count,
        ensures
            (position + t) / (SECTOR_SIZE as int) == position / (SECTOR_SIZE as int),
            (position + t) % (SECTOR_SIZE as int) == within + t,
    {
        let q = position / (SECTOR_SIZE as int);
        vstd::arithmetic::div_mod::lemma_fundamental_div_mod(position, SECTOR_SIZE as int);
        vstd::arithmetic::div_mod::lemma_fundamental_div_mod_converse(
            position + t,
            SECTOR_SIZE as int,
            q,
            within + t,
        );
    }
}

impl<D: BlockDevice> GenericFs<D> {
    /// `e` reports a record below `bound` that is an entry of `dir`, with
    /// that record's name and its node's metadata.
    pub open spec fn listed(&self, dir: Inode, e: DirEntry, bound: int) -> bool {
        &&& self.node_metadata(e.metadata.inode) == Some(e.metadata)
        &&& exists|j: int|
            2 <= j < bound && self.entry_record(dir, j) && record_name(
                self.record_result(j as u64)->Ok_0,
            ) == Some(e.name@)
    }
}

/// No entry name sorts before an earlier one.
pub open spec fn sorted_names(v: Seq<DirEntry>) -> bool {
    forall|a: int, b: int|
        0 <= a < b < v.len() ==> !name_less((#[trigger] v[b]).name@, (#[trigger] v[a]).name@)
}

/// Inserts `e` into `entries` after every name below its own.
fn insert_entry(entries: &mut Vec<DirEntry>, e: DirEntry)
    requires
        sorted_names(old(entries)@),
    ensures
        sorted_names(final(entries)@),
        final(entries)@.len() == old(entries)@.len() + 1,
        final(entries)@.contains(e),
        forall|m: int|
            0 <= m < final(entries)@.len() ==> #[trigger] final(entries)@[m] == e || old(
                entries,
            )@.contains(final(entries)@[m]),
{
    let name_chars = chars_of(e.name.as_str());
    let mut position: usize = 0;
    let mut searching = true;
    while searching && position < entries.len()
        invariant
            position <= entries@.len(),
            name_chars@ == e.name@,
            forall|k: int| 0 <= k < position ==> name_less(entries@[k].name@, e.name@),
            !searching ==> position < entries@.len() && !name_less(
                entries@[position as int].name@,
                e.name@,
            ),
        decreases entries@.len() - position + if searching {
            1int
        } else {
            0int
        },
    {
        let other = chars_of(entries[position].name.as_str());
        if !compare_less(&other, &name_chars) {
            searching = false;
        } else {
            position = position + 1;
        }
    }
    let ghost before = entries@;
    let ghost new_name = e.name@;
    let ghost item = e;
    entries.insert(position, e);
    proof {
        assert(entries@ =~= before.insert(position as int, item));
        assert(entries@[position as int] == item);
        assert forall|a: int, b: int| 0 <= a < b < entries@.len() implies !name_less(
            (#[trigger] entries@[b]).name@,
            (#[trigger] entries@[a]).name@,
        ) by {
            if b == position {
                assert(entries@[a] == before[a]);
                crate::vfs::lemma_name_less_asymmetric(before[a].name@, new_name);
            } else if a == position {
                assert(entries@[b] == before[b - 1]);
                if name_less(before[b - 1].name@, new_name) && b - 1 > position {
                    if before[b - 1].name@ != before[position as int].name@ {
                        crate::vfs::lemma_name_less_total(
                            before[b - 1].name@,
                            before[position as int].name@,
                        );
                        crate::vfs::lemma_name_less_transitive(
                            before[position as int].name@,
                            before[b - 1].name@,
                            new_name,
                        );
                    }
                }
            } else {
                let aa = if a < position {
                    a
                } else {
                    a - 1
                };
                let bb = if b < position {
                    b
                } else {
                    b - 1
                };
                assert(entries@[a] == before[aa]);
                assert(entries@[b] == before[bb]);
            }
        }
        assert forall|m: int| 0 <= m < entries@.len() implies #[trigger] entries@[m] == item
            || before.contains(entries@[m]) by {
            if m < position {
                assert(entries@[m] == before[m]);
            } else if m > position {
                assert(entries@[m] == before[m - 1]);
            }
        }
    }
}

impl<D: BlockDevice> FileSystem for GenericFs<D> {
    open spec fn name_spec(&self) -> Seq<char> {
        "genericfs"@
    }

    open spec fn metadata_spec(&self, inode: Inode) -> Result<Metadata, VfsError> {
        match self.record_result(inode) {
            Err(e) => Err(e),
            Ok(raw) => match self.node_metadata(inode) {
                Some(m) => Ok(m),
                None => Err(VfsError::NotFound),
            },
        }
    }

    open spec fn lookup_spec(&self, parent: Inode, name: Seq<char>) -> Result<Inode, VfsError> {
        match self.child_scan(parent, name, 2) {
            Ok(Some(i)) => Ok(i),
            Ok(None) => Err(VfsError::NotFound),
            Err(e) => Err(e),
        }
    }

    open spec fn node_metadata(&self, inode: Inode) -> Option<Metadata> {
        match self.record_result(inode) {
            Ok(raw) => if raw[0] == 1 {
                Some(Metadata { inode, kind: NodeKind::File, len: le64(raw, 12) as u64 })
            } else if raw[0] == 2 {
                Some(Metadata { inode, kind: NodeKind::Directory, len: 0 })
            } else {
                None
            },
            Err(_) => None,
        }
    }

    open spec fn child(&self, parent: Inode, name: Seq<char>) -> Option<Inode> {
        match self.child_scan(parent, name, 2) {
            Ok(Some(i)) => Some(i),
            _ => None,
        }
    }

    open spec fn contents(&self, inode: Inode) -> Seq<u8> {
        match self.record_result(inode) {
            Ok(raw) => if raw[0] == 1 {
                Seq::new(
                    le64(raw, 12) as nat,
                    |k: int| sector_byte(self, le64(raw, 20) + k / (SECTOR_SIZE as int), k % (SECTOR_SIZE as int)),
                )
            } else {
                Seq::empty()
            },
            Err(_) => Seq::empty(),
        }
    }

    open spec fn root_spec(&self) -> Inode {
        1
    }

    /// GenericFS states its effects through its own contracts
    /// (`disk_write_outcome` and the others), not the trait's: what a write
    /// leaves of the bytes it does not write is proved only where the file
    /// stays in place or moves to an extent that does not begin inside its
    /// old one (`write_keeps`), which the trait's contract cannot express.
    open spec fn effects_stated(&self) -> bool {
        false
    }

    /// When its inode table is full is stated by `create_outcome_disk`.
    open spec fn inode_room(&self) -> nat {
        0
    }

    /// A write keeps its promise where the file's record is sound and a
    /// larger extent, if one is needed, cannot begin inside the old one.
    open spec fn write_kept(&self, inode: Inode, offset: int, n: int) -> bool {
        write_promised(*self, inode, offset, n)
    }

    fn name(&self) -> (r: &'static str)
        ensures
            r@ == "genericfs"@,
    {
        "genericfs"
    }

    fn root_inode(&self) -> (r: Inode) {
        1
    }

    fn metadata(&self, inode: Inode) -> (r: Result<Metadata, VfsError>)
        ensures
            match self.record_result(inode) {
                Err(e) => r == Err::<Metadata, VfsError>(e),
                Ok(raw) => match self.node_metadata(inode) {
                    Some(m) => r == Ok::<Metadata, VfsError>(m),
                    None => r == Err::<Metadata, VfsError>(VfsError::NotFound),
                },
            },
    {
        let entry = self.read_inode(inode)?;
        let kind = entry.node_kind()?;
        Ok(Metadata { inode, kind, len: if entry.kind == 1 { entry.len } else { 0 } })
    }

    fn lookup(&self, parent: Inode, name: &str) -> (r: Result<Inode, VfsError>)
        ensures
            r == match self.child_scan(parent, name@, 2) {
                Ok(Some(i)) => Ok::<Inode, VfsError>(i),
                Ok(None) => Err(VfsError::NotFound),
                Err(e) => Err(e),
            },
    {
        self.find_child(parent, name)
    }

    fn read_dir(&self, inode: Inode) -> (r: Result<Vec<DirEntry>, VfsError>)
        ensures
            disk_read_dir_outcome(*self, inode, r),
    {
        let directory = self.read_inode(inode)?;
        if directory.node_kind()? != NodeKind::Directory {
            return Err(VfsError::NotDirectory);
        }
        let mut entries: Vec<DirEntry> = Vec::new();
        let mut child: u64 = 2;
        while child <= INODE_COUNT as u64
            invariant
                2 <= child <= INODE_COUNT + 1,
                self.record_result(inode) is Ok,
                self.record_result(inode)->Ok_0[0] == 2,
                self.records_clean(inode, child as int),
                forall|m: int|
                    0 <= m < entries@.len() ==> self.listed(inode, #[trigger] entries@[m], child as int),
                sorted_names(entries@),
            decreases INODE_COUNT + 1 - child,
        {
            let entry = match self.read_inode(child) {
                Ok(entry) => entry,
                Err(e) => {
                    proof {
                        assert(self.record_result(child as int as u64) is Err);
                    }
                    return Err(e);
                },
            };
            let ghost raw = self.record_result(child)->Ok_0;
            proof {
                assert(entry.name@.subrange(0, entry.name_len as int) =~= raw.subrange(
                    32,
                    32 + raw[2],
                ));
            }
            let ghost before = entries@;
            if entry.kind != 0 && entry.parent == inode {
                let name = match entry.name() {
                    Ok(name) => name,
                    Err(e) => {
                        proof {
                            assert(self.entry_record(inode, child as int));
                            assert(record_name(self.record_result(child as int as u64)->Ok_0) is None);
                        }
                        return Err(e);
                    },
                };
                let metadata = self.metadata(child)?;
                let listed = DirEntry { name, metadata };
                assert(self.listed(inode, listed, child + 1)) by {
                    assert(self.entry_record(inode, child as int));
                }
                insert_entry(&mut entries, listed);
                proof {
                    assert forall|m: int| 0 <= m < entries@.len() implies self.listed(
                        inode,
                        #[trigger] entries@[m],
                        child + 1,
                    ) by {
                        if entries@[m] != listed {
                            let k = choose|k: int| 0 <= k < before.len() && before[k] == entries@[m];
                            assert(self.listed(inode, before[k], child as int));
                        }
                    }
                }
            } else {
                proof {
                    assert forall|m: int| 0 <= m < entries@.len() implies self.listed(
                        inode,
                        #[trigger] entries@[m],
                        child + 1,
                    ) by {
                        assert(self.listed(inode, entries@[m], child as int));
                    }
                }
            }
            proof {
                assert forall|j: int|
                    #![trigger self.record_result(j as u64)]
                    2 <= j < child + 1 implies self.record_result(j as u64) is Ok && (
                    self.entry_record(inode, j) ==> record_name(
                        self.record_result(j as u64)->Ok_0,
                    ) is Some) by {
                }
            }
            child = child + 1;
        }
        proof {
            assert forall|m: int| 0 <= m < entries@.len() implies self.child(
                inode,
                (#[trigger] entries@[m]).name@,
            ) is Some by {
                let e = entries@[m];
                assert(self.listed(inode, e, child as int));
                let j = choose|j: int|
                    2 <= j < child && self.entry_record(inode, j) && record_name(
                        self.record_result(j as u64)->Ok_0,
                    ) == Some(e.name@);
                self.lemma_child_scan_finds(inode, e.name@, 2, j);
            }
            assert forall|m: int| 0 <= m < entries@.len() implies self.node_metadata(
                (#[trigger] entries@[m]).metadata.inode,
            ) == Some(entries@[m].metadata) by {
                assert(self.listed(inode, entries@[m], child as int));
            }
        }
        Ok(entries)
    }

    fn create_file(&mut self, parent: Inode, name: &str) -> (r: Result<Inode, VfsError>)
        ensures
            create_outcome_disk(*old(self), *final(self), parent, name@, 1, r),
    {
        self.create(parent, name, 1)
    }

    fn create_dir(&mut self, parent: Inode, name: &str) -> (r: Result<Inode, VfsError>)
        ensures
            create_outcome_disk(*old(self), *final(self), parent, name@, 2, r),
    {
        self.create(parent, name, 2)
    }

    fn read(&self, inode: Inode, offset: usize, buffer: &mut [u8]) -> (r: Result<usize, VfsError>)
        ensures
            disk_read_outcome(*self, inode, offset, old(buffer)@, r),
    {
        let entry = self.read_inode(inode)?;
        if entry.node_kind()? == NodeKind::Directory {
            return Err(VfsError::IsDirectory);
        }
        if entry.len > usize::MAX as u64 {
            return Err(VfsError::OffsetOverflow);
        }
        let len = entry.len as usize;
        let ghost contents = self.contents(inode);
        assert(contents.len() == len);
        if offset >= len {
            return Ok(0);
        }
        let total = if buffer.len() < len - offset {
            buffer.len()
        } else {
            len - offset
        };
        let mut done: usize = 0;
        while done < total
            invariant
                contents == self.contents(inode),
                contents.len() == len,
                entry.len == len,
                self.record_result(inode) is Ok,
                self.record_result(inode)->Ok_0[0] == 1,
                entry.start_sector == le64(self.record_result(inode)->Ok_0, 20),
                offset + total <= len,
                total <= buffer@.len(),
                done <= total,
                buffer@.len() == old(buffer)@.len(),
                forall|k: int| 0 <= k < done ==> buffer@[k] == contents[offset + k],
                forall|k: int| total <= k < buffer@.len() ==> buffer@[k] == old(buffer)@[k],
            decreases total - done,
        {
            let position = offset + done;
            let sector_index = (position / SECTOR_SIZE) as u64;
            let within = position % SECTOR_SIZE;
            let room = SECTOR_SIZE - within;
            let count = if room < total - done {
                room
            } else {
                total - done
            };
            if entry.start_sector > u64::MAX - sector_index {
                proof {
                    assert(sector_of(entry.start_sector as int, position as int) > u64::MAX);
                    assert(!extent_readable(*self, entry.start_sector as int, offset as int, offset + total));
                }
                return Err(VfsError::CorruptFilesystem);
            }
            let sector = entry.start_sector + sector_index;
            let mut bytes = [0u8; SECTOR_SIZE];
            match self.device.read_sector(sector, &mut bytes) {
                Ok(()) => {},
                Err(e) => {
                    proof {
                        assert(sector_of(entry.start_sector as int, position as int) == sector);
                        assert(self.sector_spec(sector_of(entry.start_sector as int, position as int) as u64) is Err);
                        assert(!extent_readable(*self, entry.start_sector as int, offset as int, offset + total));
                    }
                    return Err(map_block(e));
                },
            }
            let mut t: usize = 0;
            while t < count
                invariant
                    contents == self.contents(inode),
                    contents.len() == len,
                    self.record_result(inode) is Ok,
                    self.record_result(inode)->Ok_0[0] == 1,
                    entry.start_sector == le64(self.record_result(inode)->Ok_0, 20),
                    sector == entry.start_sector + sector_index,
                    sector_index == position as int / SECTOR_SIZE as int,
                    within == position as int % SECTOR_SIZE as int,
                    position == offset + done,
                    within + count <= SECTOR_SIZE,
                    done + count <= total,
                    offset + total <= len,
                    total <= buffer@.len(),
                    self.sector_spec(sector) == Ok::<Seq<u8>, BlockError>(bytes@),
                    t <= count,
                    buffer@.len() == old(buffer)@.len(),
                    forall|k: int| 0 <= k < done + t ==> buffer@[k] == contents[offset + k],
                    forall|k: int| total <= k < buffer@.len() ==> buffer@[k] == old(buffer)@[k],
                decreases count - t,
            {
                proof {
                    Self::lemma_chunk(position as int, entry.start_sector as int, within as int, count as int, t as int);
                }
                buffer[done + t] = bytes[within + t];
                t = t + 1;
            }
            done = done + count;
        }
        Ok(total)
    }

    #[verifier::spinoff_prover]
    #[verifier::rlimit(100)]
    fn write(&mut self, inode: Inode, offset: usize, data: &[u8]) -> (r: Result<usize, VfsError>)
        ensures
            disk_write_outcome(*old(self), *final(self), inode, offset, data@, r),
    {
        let mut entry = self.read_inode(inode)?;
        if entry.node_kind()? == NodeKind::Directory {
            return Err(VfsError::IsDirectory);
        }
        if offset > usize::MAX - data.len() {
            return Err(VfsError::OffsetOverflow);
        }
        let end = offset + data.len();
        let needed = sectors_for_len(end);
        let ghost entry_before = entry;
        self.ensure_capacity(inode, &mut entry, needed)?;
        let ghost moved = *self;
        if entry.len > usize::MAX as u64 {
            return Err(VfsError::OffsetOverflow);
        }
        let old_len = entry.len as usize;
        if offset > old_len {
            self.zero_range(&entry, old_len, offset)?;
        }
        let start = entry.start_sector;
        let n = data.len();
        let mut done: usize = 0;
        let ghost zeroed = *self;
        while done < n
            invariant
                start >= DATA_START ==> forall|t: u64| t < DATA_START ==> #[trigger] self.sector_spec(t) == zeroed.sector_spec(t),
                done == 0 ==> *self == zeroed,
                forall|p: int|
                    0 <= p && !(offset <= p < offset + done) ==> #[trigger] disk_byte(*self, start as int, p) == disk_byte(
                        zeroed,
                        start as int,
                        p,
                    ),
                n == data@.len(),
                offset + n == end,
                done <= n,
                start == entry.start_sector,
                old(self).record_result(inode) is Ok,
                old(self).record_result(inode)->Ok_0[0] == 1,
                done == 0 || done == n || (offset + done) as int % (SECTOR_SIZE as int) == 0,
                forall|p: int|
                    offset <= p < offset + done ==> start + p / (SECTOR_SIZE as int) <= u64::MAX && #[trigger] disk_byte(
                        *self,
                        start as int,
                        p,
                    ) == data@[p - offset],
            decreases n - done,
        {
            let position = offset + done;
            let sector_index = (position / SECTOR_SIZE) as u64;
            let within = position % SECTOR_SIZE;
            let room = SECTOR_SIZE - within;
            let count = if room < n - done {
                room
            } else {
                n - done
            };
            if entry.start_sector > u64::MAX - sector_index {
                return Err(VfsError::CorruptFilesystem);
            }
            let sector = entry.start_sector + sector_index;
            let mut bytes = [0u8; SECTOR_SIZE];
            match self.device.read_sector(sector, &mut bytes) {
                Ok(()) => {},
                Err(e) => {
                    return Err(map_block(e));
                },
            }
            let ghost read = bytes@;
            let mut t: usize = 0;
            while t < count
                invariant
                    within + count <= SECTOR_SIZE,
                    n == data@.len(),
                    done + count <= n,
                    t <= count,
                    bytes@.len() == SECTOR_SIZE,
                    forall|j: int| 0 <= j < SECTOR_SIZE && !(within <= j < within + t) ==> #[trigger] bytes@[j] == read[j],
                    forall|k: int| 0 <= k < t ==> bytes@[within + k] == #[trigger] data@[done + k],
                decreases count - t,
            {
                bytes[within + t] = data[done + t];
                t = t + 1;
            }
            let ghost before = *self;
            match self.device.write_sector(sector, &bytes) {
                Ok(()) => {},
                Err(e) => {
                    return Err(map_block(e));
                },
            }
            proof {
                lemma_chunk_frame(before, *self, start as int, sector as int, position as int, count as int, read, bytes@);
                assert forall|p: int| 0 <= p && !(offset <= p < offset + done + count) implies #[trigger] disk_byte(
                    *self,
                    start as int,
                    p,
                ) == disk_byte(zeroed, start as int, p) by {
                    assert(disk_byte(*self, start as int, p) == disk_byte(before, start as int, p));
                }
                lemma_chunk_written(
                    before,
                    *self,
                    start as int,
                    sector as int,
                    offset as int,
                    done as int,
                    count as int,
                    data@,
                    bytes@,
                );
            }
            done = done + count;
        }
        if (end as u64) > entry.len {
            entry.len = end as u64;
        }
        let ghost data_state = *self;
        self.write_inode(inode, entry)?;
        proof {
            let old_raw = old(self).record_result(inode)->Ok_0;
            let slot = slot_sector(inode_slot(inode)->Some_0);
            lemma_record_round_trip(
                self.sector_spec(slot as u64)->Ok_0.subrange(
                    slot_offset(inode_slot(inode)->Some_0),
                    slot_offset(inode_slot(inode)->Some_0) + INODE_SIZE,
                ),
                entry,
            );
            let old_start = entry_before.start_sector;
            if write_promised(*old(self), inode, offset as int, n as int) && needed > entry_before.sector_count {
                assert(old(self).fits_at(start as int, needed as int, inode));
                assert(!(old_start < start < old_start + entry_before.sector_count));
            }
            if (old_start >= DATA_START || entry_before.sector_count == 0) && entry_before.len <= entry_before.sector_count
                * SECTOR_SIZE && (start <= old_start || start >= old_start + entry_before.sector_count) && start
                >= DATA_START {
                assert forall|j: int| 0 <= j < entry_before.len && !(offset <= j < offset + n) implies #[trigger] self.contents(inode)[j]
                    == old(self).contents(inode)[j] by {
                    assert(start + j / (SECTOR_SIZE as int) != slot);
                    assert(disk_byte(*self, start as int, j) == disk_byte(data_state, start as int, j));
                    assert(disk_byte(data_state, start as int, j) == disk_byte(zeroed, start as int, j));
                    assert(disk_byte(zeroed, start as int, j) == disk_byte(moved, start as int, j));
                    assert(disk_byte(moved, start as int, j) == disk_byte(*old(self), old_start as int, j));
                }
                assert forall|j: int| entry_before.len <= j < offset implies #[trigger] self.contents(inode)[j] == 0 by {
                    assert(start + j / (SECTOR_SIZE as int) != slot);
                    assert(disk_byte(*self, start as int, j) == disk_byte(data_state, start as int, j));
                    assert(disk_byte(data_state, start as int, j) == disk_byte(zeroed, start as int, j));
                }
            }
        }
        proof {
            lemma_record_round_trip(
                self.sector_spec(slot_sector(inode_slot(inode)->Some_0) as u64)->Ok_0.subrange(
                    slot_offset(inode_slot(inode)->Some_0),
                    slot_offset(inode_slot(inode)->Some_0) + INODE_SIZE,
                ),
                entry,
            );
            if start >= DATA_START {
                assert forall|j: int| 0 <= j < data@.len() implies #[trigger] self.contents(inode)[offset + j]
                    == data@[j] by {
                    let p = offset + j;
                    assert(disk_byte(data_state, start as int, p) == data@[j]);
                    assert(start + p / (SECTOR_SIZE as int) != slot_sector(inode_slot(inode)->Some_0));
                }
            }
            if write_promised(*old(self), inode, offset as int, n as int) {
                let i = inode_slot(inode)->Some_0;
                let sector = slot_sector(i);
                assert(sector < DATA_START);
                if start >= DATA_START {
                    assert(table_kept(*old(self), data_state)) by {
                        assert forall|t: u64| t < DATA_START implies #[trigger] data_state.sector_spec(t) == old(self).sector_spec(t) by {
                            assert(data_state.sector_spec(t) == zeroed.sector_spec(t));
                            assert(zeroed.sector_spec(t) == moved.sector_spec(t));
                        }
                    }
                } else {
                    assert(needed == 0);
                    assert(n == 0 && offset == 0);
                    assert(data_state == *old(self));
                }
                lemma_write_keeps_entries(*old(self), data_state, *self, inode, entry_before, entry);
                let before_bytes = old(self).contents(inode);
                let after_bytes = self.contents(inode);
                assert(before_bytes.len() == entry_before.len);
                if start >= DATA_START {
                    lemma_written_bytes(before_bytes, after_bytes, offset as int, data@);
                } else {
                    assert(entry_before.sector_count == 0);
                    assert(needed == 0);
                    assert(after_bytes =~= written(before_bytes, offset as int, data@));
                }
            }
        }
        proof {
            if write_promised(*old(self), inode, offset as int, n as int) {
                lemma_tree_from_entries(*old(self), *self);
            }
        }
        Ok(data.len())
    }

    fn truncate(&mut self, inode: Inode, len: usize) -> (r: Result<(), VfsError>)
        ensures
            disk_truncate_outcome(*old(self), *final(self), inode, len, r),
    {
        let mut entry = self.read_inode(inode)?;
        if entry.node_kind()? == NodeKind::Directory {
            return Err(VfsError::IsDirectory);
        }
        self.ensure_capacity(inode, &mut entry, sectors_for_len(len))?;
        if entry.len > usize::MAX as u64 {
            return Err(VfsError::OffsetOverflow);
        }
        let old_len = entry.len as usize;
        if len > old_len {
            self.zero_range(&entry, old_len, len)?;
        }
        entry.len = len as u64;
        self.write_inode(inode, entry)?;
        proof {
            lemma_record_round_trip(
                self.sector_spec(slot_sector(inode_slot(inode)->Some_0) as u64)->Ok_0.subrange(
                    slot_offset(inode_slot(inode)->Some_0),
                    slot_offset(inode_slot(inode)->Some_0) + INODE_SIZE,
                ),
                entry,
            );
        }
        Ok(())
    }

    fn remove(&mut self, parent: Inode, name: &str) -> (r: Result<(), VfsError>)
        ensures
            disk_remove_outcome(*old(self), *final(self), parent, name@, r),
    {
        let inode = self.find_child(parent, name)?;
        let entry = self.read_inode(inode)?;
        if entry.kind == 2 {
            let mut child: u64 = 2;
            while child <= INODE_COUNT as u64
                invariant
                    2 <= child <= INODE_COUNT + 1,
                    *self == *old(self),
                    old(self).child_scan(parent, name@, 2) == Ok::<Option<Inode>, VfsError>(Some(inode)),
                    old(self).record_result(inode) is Ok,
                    forall|j: int| 2 <= j < child ==> #[trigger] self.no_child_record(inode, j),
                decreases INODE_COUNT + 1 - child,
            {
                let candidate = self.read_inode(child)?;
                if candidate.kind != 0 && candidate.parent == inode {
                    return Err(VfsError::DirectoryNotEmpty);
                }
                assert(self.no_child_record(inode, child as int));
                child = child + 1;
            }
        }
        let empty = DiskInode::empty();
        self.write_inode(inode, empty)?;
        proof {
            let rec = self.sector_spec(slot_sector(inode_slot(inode)->Some_0) as u64)->Ok_0.subrange(
                slot_offset(inode_slot(inode)->Some_0),
                slot_offset(inode_slot(inode)->Some_0) + INODE_SIZE,
            );
            lemma_record_round_trip(rec, empty);
        }
        Ok(())
    }
}

/// What reading directory `inode` answers: the record's errors, and
/// success exactly when every record it reads on the way is clean.
pub open spec fn disk_read_dir_outcome<D: BlockDevice>(
    fs: GenericFs<D>,
    inode: Inode,
    r: Result<Vec<DirEntry>, VfsError>,
) -> bool {
    &&& match fs.record_result(inode) {
        Err(e) => r == Err::<Vec<DirEntry>, VfsError>(e),
        Ok(raw) => if raw[0] == 0 {
            r == Err::<Vec<DirEntry>, VfsError>(VfsError::NotFound)
        } else if raw[0] == 1 {
            r == Err::<Vec<DirEntry>, VfsError>(VfsError::NotDirectory)
        } else {
            r is Ok <==> fs.records_clean(inode, INODE_COUNT + 1)
        },
    }
}

/// What reading file `inode` from `offset` into a buffer holding `before`
/// answers: the record's errors, and the number of bytes copied, owed
/// whenever the sectors that hold them read.
pub open spec fn disk_read_outcome<D: BlockDevice>(
    fs: GenericFs<D>,
    inode: Inode,
    offset: usize,
    before: Seq<u8>,
    r: Result<usize, VfsError>,
) -> bool {
    &&& match fs.record_result(inode) {
        Err(e) => r == Err::<usize, VfsError>(e),
        Ok(raw) => if raw[0] == 0 {
            r == Err::<usize, VfsError>(VfsError::NotFound)
        } else if raw[0] == 2 {
            r == Err::<usize, VfsError>(VfsError::IsDirectory)
        } else if le64(raw, 12) > usize::MAX {
            r == Err::<usize, VfsError>(VfsError::OffsetOverflow)
        } else if offset >= le64(raw, 12) {
            r == Ok::<usize, VfsError>(0)
        } else {
            let total = if before.len() < le64(raw, 12) - offset {
                before.len() as int
            } else {
                le64(raw, 12) - offset
            };
            &&& r is Ok ==> r == Ok::<usize, VfsError>(total as usize)
            &&& extent_readable(fs, le64(raw, 20), offset as int, offset + total) ==> r is Ok
        },
    }
}

/// What writing `data` into file `inode` from `offset` on does, from
/// `before` to `after`, answering `r`: the record's errors, and on success
/// a file record at least as long as the write whose bytes there read as
/// `data`.
pub open spec fn disk_write_outcome<D: BlockDevice>(
    before: GenericFs<D>,
    after: GenericFs<D>,
    inode: Inode,
    offset: usize,
    data: Seq<u8>,
    r: Result<usize, VfsError>,
) -> bool {
    &&& match before.record_result(inode) {
        Err(e) => r == Err::<usize, VfsError>(e),
        Ok(raw) => if raw[0] == 0 {
            r == Err::<usize, VfsError>(VfsError::NotFound)
        } else if raw[0] == 2 {
            r == Err::<usize, VfsError>(VfsError::IsDirectory)
        } else if offset + data.len() > usize::MAX {
            r == Err::<usize, VfsError>(VfsError::OffsetOverflow)
        } else {
            true
        },
    }
    &&& r is Ok ==> r == Ok::<usize, VfsError>(data.len() as usize) && (after.record_result(inode) matches Ok(
        raw,
    ) && raw[0] == 1 && le64(raw, 12) >= offset + data.len() && (le64(raw, 20) >= DATA_START ==> forall|j: int|
        0 <= j < data.len() ==> #[trigger] after.contents(inode)[offset + j] == data[j]))
    &&& r is Ok ==> write_keeps(before, after, inode, offset as int, data.len() as int)
    &&& r is Ok && write_promised(before, inode, offset as int, data.len() as int) ==> after.contents(inode) == written(
        before.contents(inode),
        offset as int,
        data,
    ) && forall|k: u64| #[trigger] same_entry(before.record_result(k), after.record_result(k))
}

/// Two reads of an inode record agree on what directory lookups take from
/// them: the same error, or records alike in being in use, in parent and
/// in name.
pub open spec fn same_entry(a: Result<Seq<u8>, VfsError>, b: Result<Seq<u8>, VfsError>) -> bool {
    match a {
        Err(x) => b == Err::<Seq<u8>, VfsError>(x),
        Ok(r1) => b matches Ok(r2) && (r1[0] != 0) == (r2[0] != 0) && le64(r1, 4) == le64(r2, 4) && record_name(r1)
            == record_name(r2),
    }
}

/// Filesystems whose records all agree on use, parents and names find the
/// same children.
proof fn lemma_same_children<D: BlockDevice>(a: GenericFs<D>, b: GenericFs<D>, parent: Inode, name: Seq<char>, i: int)
    requires
        2 <= i <= INODE_COUNT + 1,
        forall|k: u64| #[trigger] same_entry(a.record_result(k), b.record_result(k)),
    ensures
        a.child_scan(parent, name, i) == b.child_scan(parent, name, i),
    decreases INODE_COUNT + 1 - i,
{
    if i <= INODE_COUNT {
        assert(same_entry(a.record_result(i as u64), b.record_result(i as u64)));
        a.lemma_child_scan_step(parent, name, i);
        b.lemma_child_scan_step(parent, name, i);
        lemma_same_children(a, b, parent, name, i + 1);
    } else {
        a.lemma_child_scan_end(parent, name);
        b.lemma_child_scan_end(parent, name);
    }
}

/// Filesystems whose records all agree on use, parents and names have the
/// same directory tree.
proof fn lemma_tree_from_entries<D: BlockDevice>(a: GenericFs<D>, b: GenericFs<D>)
    requires
        forall|k: u64| #[trigger] same_entry(a.record_result(k), b.record_result(k)),
    ensures
        forall|p: Inode, n: Seq<char>| #[trigger] b.lookup_spec(p, n) == a.lookup_spec(p, n),
        forall|p: Inode, n: Seq<char>| #[trigger] b.child(p, n) == a.child(p, n),
{
    assert forall|p: Inode, n: Seq<char>| #[trigger] b.lookup_spec(p, n) == a.lookup_spec(p, n) by {
        lemma_same_children(a, b, p, n, 2);
    }
    assert forall|p: Inode, n: Seq<char>| #[trigger] b.child(p, n) == a.child(p, n) by {
        lemma_same_children(a, b, p, n, 2);
    }
}

/// A write that left the inode table below the data area alone, then
/// rewrote record `inode` with the same use, parent and name, leaves every
/// record agreeing on them.
proof fn lemma_write_keeps_entries<D: BlockDevice>(
    before: GenericFs<D>,
    mid: GenericFs<D>,
    after: GenericFs<D>,
    inode: Inode,
    old_entry: DiskInode,
    entry: DiskInode,
)
    requires
        table_kept(before, mid),
        before.record_result(inode) is Ok,
        decodes_to(before.record_result(inode)->Ok_0, old_entry),
        entry.kind == old_entry.kind,
        entry.parent == old_entry.parent,
        entry.name_len == old_entry.name_len,
        entry.name == old_entry.name,
        entry.name_len <= MAX_DISK_NAME,
        entry.kind <= 2,
        inode_slot(inode) is Some,
        ({
            let i = inode_slot(inode)->Some_0;
            let sector = slot_sector(i);
            &&& mid.sector_spec(sector as u64) is Ok
            &&& mid.sector_spec(sector as u64)->Ok_0.len() == SECTOR_SIZE
            &&& after.sector_spec(sector as u64) matches Ok(b) && b.len() == SECTOR_SIZE && encodes(
                b.subrange(slot_offset(i), slot_offset(i) + INODE_SIZE),
                entry,
            ) && forall|k: int|
                0 <= k < SECTOR_SIZE && !(slot_offset(i) <= k < slot_offset(i) + INODE_SIZE) ==> b[k]
                    == mid.sector_spec(sector as u64)->Ok_0[k]
            &&& forall|other: u64| other != sector ==> after.sector_spec(other) == mid.sector_spec(other)
        }),
    ensures
        forall|k: u64| #[trigger] same_entry(before.record_result(k), after.record_result(k)),
{
    let i = inode_slot(inode)->Some_0;
    let sector = slot_sector(i);
    let new_raw = after.sector_spec(sector as u64)->Ok_0.subrange(slot_offset(i), slot_offset(i) + INODE_SIZE);
    lemma_record_round_trip(new_raw, entry);
    let old_raw = before.record_result(inode)->Ok_0;
    assert(old_raw.subrange(32, 32 + old_raw[2]) =~= old_raw.subrange(32, 96).subrange(0, old_raw[2] as int));
    assert(new_raw.subrange(32, 32 + new_raw[2]) =~= new_raw.subrange(32, 96).subrange(0, new_raw[2] as int));
    assert forall|k: u64| #[trigger] same_entry(before.record_result(k), after.record_result(k)) by {
        if let Some(x) = inode_slot(k) {
            let sx = slot_sector(x);
            assert(sx < DATA_START);
            assert(mid.sector_spec(sx as u64) == before.sector_spec(sx as u64));
            if k == inode {
                assert(after.record_result(k) == Ok::<Seq<u8>, VfsError>(new_raw));
            } else if sx == sector {
                let b_new = after.sector_spec(sector as u64)->Ok_0;
                let b_old = mid.sector_spec(sector as u64)->Ok_0;
                assert(x != i);
                assert(slot_offset(x) != slot_offset(i));
                assert(b_new.subrange(slot_offset(x), slot_offset(x) + INODE_SIZE) =~= b_old.subrange(
                    slot_offset(x),
                    slot_offset(x) + INODE_SIZE,
                ));
            } else {
                assert(after.sector_spec(sx as u64) == mid.sector_spec(sx as u64));
            }
        }
    }
}

/// Before a write of `n` bytes at `offset` into file `inode`, its record
/// is sound enough for the write to keep the file's other bytes: its
/// extent is empty or lies in the data area, it holds the file's length,
/// and should the file need a larger extent, none starting inside its old
/// one would fit.
pub open spec fn write_promised<D: BlockDevice>(fs: GenericFs<D>, inode: Inode, offset: int, n: int) -> bool {
    match fs.record_result(inode) {
        Ok(raw) => {
            let start = le64(raw, 20);
            let count = le32(raw, 28);
            &&& (count == 0 || start >= DATA_START)
            &&& le64(raw, 12) <= count * SECTOR_SIZE
            &&& forall|c: int| start < c < start + count ==> !#[trigger] fs.fits_at(c, sectors_needed(offset + n), inode)
        },
        Err(_) => true,
    }
}

/// Bytes that keep `old` outside `[offset, offset + d.len())`, read zero
/// between the old end and `offset`, hold `d` inside, and run to the
/// larger of the two ends, are `old` with `d` written at `offset`.
proof fn lemma_written_bytes(old: Seq<u8>, new: Seq<u8>, offset: int, d: Seq<u8>)
    requires
        0 <= offset,
        new.len() == if offset + d.len() > old.len() { offset + d.len() } else { old.len() as int },
        forall|j: int| 0 <= j < old.len() && !(offset <= j < offset + d.len()) ==> #[trigger] new[j] == old[j],
        forall|j: int| old.len() <= j < offset ==> #[trigger] new[j] == 0,
        forall|j: int| 0 <= j < d.len() ==> #[trigger] new[offset + j] == d[j],
    ensures
        new == written(old, offset, d),
{
    let w = written(old, offset, d);
    let end = offset + d.len();
    assert forall|j: int| 0 <= j < new.len() implies new[j] == #[trigger] w[j] by {
        if offset <= j < end {
            assert(new[offset + (j - offset)] == d[j - offset]);
        }
    }
    assert(new =~= w);
}

/// What a successful write of `n` bytes at `offset` leaves of the rest of
/// file `inode`: its length becomes the larger of the old length and the
/// write's end, and, where the old extent lay in the data area and held the
/// old length, and the file stayed in place or moved to an extent that does
/// not begin inside the old one, every old byte outside the write is kept
/// and the gap between the old end and the write reads as zeros.
pub open spec fn write_keeps<D: BlockDevice>(
    before: GenericFs<D>,
    after: GenericFs<D>,
    inode: Inode,
    offset: int,
    n: int,
) -> bool {
    let old_raw = before.record_result(inode)->Ok_0;
    let new_raw = after.record_result(inode)->Ok_0;
    let old_len = le64(old_raw, 12);
    let old_start = le64(old_raw, 20);
    let old_count = le32(old_raw, 28);
    let new_start = le64(new_raw, 20);
    &&& le64(new_raw, 12) == if offset + n > old_len { offset + n } else { old_len as int }
    &&& ((old_start >= DATA_START || old_count == 0) && old_len <= old_count * SECTOR_SIZE && (new_start <= old_start
        || new_start >= old_start + old_count)) ==> {
        &&& forall|j: int|
            0 <= j < old_len && !(offset <= j < offset + n) ==> #[trigger] after.contents(inode)[j]
                == before.contents(inode)[j]
        &&& forall|j: int| old_len <= j < offset ==> #[trigger] after.contents(inode)[j] == 0
    }
}

/// What truncating file `inode` to `len` bytes does, from `before` to
/// `after`, answering `r`: the errors of reading its record, and on success
/// a file record of length `len`.
pub open spec fn disk_truncate_outcome<D: BlockDevice>(
    before: GenericFs<D>,
    after: GenericFs<D>,
    inode: Inode,
    len: usize,
    r: Result<(), VfsError>,
) -> bool {
    &&& after.sector_count_spec() == before.sector_count_spec()
    &&& match before.record_result(inode) {
        Err(e) => r == Err::<(), VfsError>(e),
        Ok(raw) => if raw[0] == 0 {
            r == Err::<(), VfsError>(VfsError::NotFound)
        } else if raw[0] == 2 {
            r == Err::<(), VfsError>(VfsError::IsDirectory)
        } else {
            true
        },
    }
    &&& r is Ok ==> (after.record_result(inode) matches Ok(raw) && raw[0] == 1 && le64(raw, 12) == len)
}

/// What removing entry `name` of `parent` does, from `before` to `after`,
/// answering `r`: the lookup's and the record's errors; a directory is
/// removed only when no record names it as parent; on success the entry's
/// record is free.
pub open spec fn disk_remove_outcome<D: BlockDevice>(
    before: GenericFs<D>,
    after: GenericFs<D>,
    parent: Inode,
    name: Seq<char>,
    r: Result<(), VfsError>,
) -> bool {
    &&& after.sector_count_spec() == before.sector_count_spec()
    &&& match before.child_scan(parent, name, 2) {
        Err(e) => r == Err::<(), VfsError>(e),
        Ok(None) => r == Err::<(), VfsError>(VfsError::NotFound),
        Ok(Some(i)) => match before.record_result(i) {
            Err(e) => r == Err::<(), VfsError>(e),
            Ok(raw) => r is Ok ==> {
                &&& after.record_result(i) matches Ok(rec) && rec[0] == 0
                &&& raw[0] == 2 ==> forall|j: int| 2 <= j <= INODE_COUNT ==> #[trigger] before.no_child_record(i, j)
            },
        },
    }
}

/// How mounting a device ends, by what its superblock and root record hold:
/// a GenericFS volume whose geometry matches is taken as it is; a volume
/// that does not match, or a missing one when formatting is not asked for,
/// is refused; otherwise the device is formatted.
pub open spec fn mount_outcome<D: BlockDevice>(fs: &GenericFs<D>, format_if_missing: bool) -> Option<
    Result<bool, VfsError>,
> {
    if fs.sector_count_spec() <= DATA_START + 1 {
        Some(Err(VfsError::NoSpace))
    } else {
        match fs.sector_spec(0) {
            Err(e) => Some(Err(block_error(e))),
            Ok(sb) => if magic_ok(sb) {
                if le32(sb, 8) != VERSION || le32(sb, 12) != INODE_COUNT || le64(sb, 16)
                    != DATA_START || le64(sb, 24) != fs.sector_count_spec() {
                    Some(Err(VfsError::CorruptFilesystem))
                } else {
                    match fs.record_result(1) {
                        Err(e) => Some(Err(e)),
                        Ok(raw) => if raw[0] != 2 {
                            Some(Err(VfsError::CorruptFilesystem))
                        } else {
                            Some(Ok(false))
                        },
                    }
                }
            } else if !format_if_missing {
                Some(Err(VfsError::CorruptFilesystem))
            } else {
                None
            },
        }
    }
}

impl<D: BlockDevice> GenericFs<D> {
    /// Opens the GenericFS volume on `device`, formatting it first when it
    /// holds none and `format_if_missing` is set; the flag returned tells
    /// whether it was formatted.
    pub fn mount(device: D, format_if_missing: bool) -> (r: Result<
        (Self, bool),
        VfsError,
    >)
        ensures
            ({
                let fs = GenericFs::over(device);
                match mount_outcome(&fs, format_if_missing) {
                    Some(Ok(formatted)) => r is Ok && r->Ok_0.1 == formatted && r->Ok_0.0 == fs,
                    Some(Err(e)) => r == Err::<(Self, bool), VfsError>(e),
                    None => r is Ok ==> (r->Ok_0.1 && (r->Ok_0.0.record_result(1) matches Ok(raw)
                        && raw[0] == 2)),
                }
            }),
    {
        let ghost view = GenericFs::over(device);
        let count = device.sector_count();
        assert(count == view.sector_count_spec());
        if count <= DATA_START + 1 {
            return Err(VfsError::NoSpace);
        }
        let mut fs = GenericFs { device };
        assert(fs == view);
        let mut superblock = [0u8; SECTOR_SIZE];
        match fs.device.read_sector(0, &mut superblock) {
            Ok(()) => {},
            Err(e) => {
                return Err(map_block(e));
            },
        }
        if superblock[0] == 0x47 && superblock[1] == 0x45 && superblock[2] == 0x4e && superblock[3]
            == 0x46 && superblock[4] == 0x53 && superblock[5] == 0x31 && superblock[6] == 0
            && superblock[7] == 0 {
            let slice = superblock.as_slice();
            if get_u32(slice, 8) != VERSION || get_u32(slice, 12) as usize != INODE_COUNT || get_u64(
                slice,
                16,
            ) != DATA_START || get_u64(slice, 24) != fs.device.sector_count() {
                return Err(VfsError::CorruptFilesystem);
            }
            if fs.read_inode(1)?.kind != 2 {
                return Err(VfsError::CorruptFilesystem);
            }
            return Ok((fs, false));
        }
        if !format_if_missing {
            return Err(VfsError::CorruptFilesystem);
        }
        fs.format()?;
        Ok((fs, true))
    }

    /// Writes an empty volume: a zeroed inode table, the superblock and the
    /// root directory record.
    fn format(&mut self) -> (r: Result<(), VfsError>)
        requires
            old(self).sector_count_spec() > DATA_START + 1,
        ensures
            r is Ok ==> (final(self).record_result(1) matches Ok(raw) && raw[0] == 2),
            r is Ok ==> (final(self).sector_spec(0) matches Ok(b) && magic_ok(b)),
            r is Ok ==> forall|i: u64|
                2 <= i <= INODE_COUNT ==> (#[trigger] final(self).record_result(i) matches Ok(raw) && raw[0] == 0),
    {
        let zero = [0u8; SECTOR_SIZE];
        proof {
            vstd::array::axiom_spec_array_fill_for_copy_type::<u8, SECTOR_SIZE>(0u8);
        }
        let mut sector: u64 = 0;
        while sector < DATA_START
            invariant
                sector <= DATA_START,
                forall|k: int| 0 <= k < SECTOR_SIZE ==> zero@[k] == 0,
                forall|t: u64| t < sector ==> #[trigger] self.sector_spec(t) == Ok::<Seq<u8>, BlockError>(zero@),
            decreases DATA_START - sector,
        {
            let ghost mid = *self;
            match self.device.write_sector(sector, &zero) {
                Ok(()) => {},
                Err(e) => {
                    return Err(map_block(e));
                },
            }
            proof {
                assert forall|t: u64| t < sector + 1 implies #[trigger] self.sector_spec(t) == Ok::<
                    Seq<u8>,
                    BlockError,
                >(zero@) by {
                    if t != sector {
                        assert(mid.sector_spec(t) == Ok::<Seq<u8>, BlockError>(zero@));
                    }
                }
            }
            sector = sector + 1;
        }
        let ghost cleared = *self;
        let mut superblock = [0u8; SECTOR_SIZE];
        superblock[0] = 0x47;
        superblock[1] = 0x45;
        superblock[2] = 0x4e;
        superblock[3] = 0x46;
        superblock[4] = 0x53;
        superblock[5] = 0x31;
        put_u32(&mut superblock, 8, VERSION);
        put_u32(&mut superblock, 12, INODE_COUNT as u32);
        put_u64(&mut superblock, 16, DATA_START);
        let count = self.device.sector_count();
        put_u64(&mut superblock, 24, count);
        match self.device.write_sector(0, &superblock) {
            Ok(()) => {},
            Err(e) => {
                return Err(map_block(e));
            },
        }
        let root = DiskInode::root();
        let ghost zeroed = *self;
        proof {
            assert forall|t: u64| 1 <= t < DATA_START implies #[trigger] zeroed.sector_spec(t) == Ok::<
                Seq<u8>,
                BlockError,
            >(zero@) by {
                assert(cleared.sector_spec(t) == Ok::<Seq<u8>, BlockError>(zero@));
            }
        }
        let result = self.write_inode(1, root);
        proof {
            if result is Ok {
                let b = self.sector_spec(slot_sector(0) as u64)->Ok_0;
                let rec = b.subrange(slot_offset(0), slot_offset(0) + INODE_SIZE);
                lemma_record_round_trip(rec, root);
                assert(self.sector_spec(0) == Ok::<Seq<u8>, BlockError>(superblock@));
                assert forall|i: u64| 2 <= i <= INODE_COUNT implies (#[trigger] self.record_result(i) matches Ok(
                    raw,
                ) && raw[0] == 0) by {
                    let k = inode_slot(i)->Some_0;
                    let t = slot_sector(k);
                    let off = slot_offset(k);
                    assert(zeroed.sector_spec(t as u64) == Ok::<Seq<u8>, BlockError>(zero@));
                    let raw = self.sector_spec(t as u64)->Ok_0.subrange(off, off + INODE_SIZE);
                    assert(raw[0] == zero@[off] && raw[2] == zero@[off + 2]);
                }
            }
        }
        result
    }
}

} // verus!
