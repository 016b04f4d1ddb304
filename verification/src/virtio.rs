//! Legacy virtio block devices: the split virtqueue's layout, the request
//! a sector transfer sends, and the ring bookkeeping.

use crate::arith::{lemma_round_up, round_up};
use crate::block::{BlockError, SECTOR_SIZE};
use crate::bytes::{le16, le32, le64, put_u16, put_u32, put_u64};
use vstd::prelude::*;

verus! {

pub const HOST_FEATURES: u16 = 0x00;
pub const GUEST_FEATURES: u16 = 0x04;
pub const QUEUE_PFN: u16 = 0x08;
pub const QUEUE_SIZE: u16 = 0x0c;
pub const QUEUE_SELECT: u16 = 0x0e;
pub const QUEUE_NOTIFY: u16 = 0x10;
pub const DEVICE_STATUS: u16 = 0x12;
pub const ISR_STATUS: u16 = 0x13;
pub const DEVICE_CONFIG: u16 = 0x14;

pub const STATUS_ACKNOWLEDGE: u8 = 1;
pub const STATUS_DRIVER: u8 = 2;
pub const STATUS_DRIVER_OK: u8 = 4;
pub const STATUS_FAILED: u8 = 128;

pub const DESC_NEXT: u16 = 1;
pub const DESC_WRITE: u16 = 2;
pub const REQ_READ: u32 = 0;
pub const REQ_WRITE: u32 = 1;
pub const REQUEST_DATA_OFFSET: u64 = 16;
pub const REQUEST_STATUS_OFFSET: u64 = 528;

#[derive(Clone, Copy, Debug, PartialEq, Eq, Structural)]
pub enum VirtioError {
    InvalidQueueSize,
    QueueActive,
    NoQueueMemory,
    NoRequestMemory,
    QueueAboveLegacyRange,
    ZeroCapacity,
}

/// The text that describes `e`.
pub open spec fn virtio_text(e: VirtioError) -> Seq<char> {
    match e {
        VirtioError::InvalidQueueSize => "virtio-blk reported invalid queue size"@,
        VirtioError::QueueActive => "virtio-blk queue already active"@,
        VirtioError::NoQueueMemory => "no DMA memory for virtqueue"@,
        VirtioError::NoRequestMemory => "no DMA memory for virtio request"@,
        VirtioError::QueueAboveLegacyRange => "virtqueue above legacy PFN range"@,
        VirtioError::ZeroCapacity => "virtio-blk has zero capacity"@,
    }
}

impl VirtioError {
    /// A one-line description of the error.
    pub fn message(&self) -> (r: &'static str)
        ensures
            r@ == virtio_text(*self),
    {
        match self {
            VirtioError::InvalidQueueSize => "virtio-blk reported invalid queue size",
            VirtioError::QueueActive => "virtio-blk queue already active",
            VirtioError::NoQueueMemory => "no DMA memory for virtqueue",
            VirtioError::NoRequestMemory => "no DMA memory for virtio request",
            VirtioError::QueueAboveLegacyRange => "virtqueue above legacy PFN range",
            VirtioError::ZeroCapacity => "virtio-blk has zero capacity",
        }
    }
}

/// A queue size the driver accepts: room for a three-descriptor chain, and
/// at most 1024 entries.
pub fn check_queue_size(size: u16) -> (r: Result<(), VirtioError>)
    ensures
        r is Ok <==> 3 <= size <= 1024,
        r is Err ==> r == Err::<(), VirtioError>(VirtioError::InvalidQueueSize),
{
    if size < 3 || size > 1024 {
        Err(VirtioError::InvalidQueueSize)
    } else {
        Ok(())
    }
}

/// Where the parts of a queue of `size` entries lie: the descriptor table
/// first, the available ring after it, the used ring at the next page.
#[derive(Clone, Copy, Debug, PartialEq, Eq, Structural)]
pub struct QueueLayout {
    pub desc_bytes: u64,
    pub avail_bytes: u64,
    pub used_offset: u64,
    pub used_bytes: u64,
    pub queue_bytes: u64,
    pub queue_pages: u64,
}

pub open spec fn layout_spec(size: int) -> QueueLayout {
    let desc = size * 16;
    let avail = 6 + size * 2;
    let used_offset = round_up(desc + avail, 4096);
    let used = 6 + size * 8;
    let queue = used_offset + used;
    QueueLayout {
        desc_bytes: desc as u64,
        avail_bytes: avail as u64,
        used_offset: used_offset as u64,
        used_bytes: used as u64,
        queue_bytes: queue as u64,
        queue_pages: ((queue + 4095) / 4096) as u64,
    }
}

pub fn queue_layout(size: u16) -> (r: QueueLayout)
    ensures
        r == layout_spec(size as int),
        r.used_offset % 4096 == 0,
        r.desc_bytes + r.avail_bytes <= r.used_offset,
        r.queue_bytes <= r.queue_pages * 4096,
{
    let desc_bytes = size as u64 * 16;
    let avail_bytes = 6 + size as u64 * 2;
    proof {
        lemma_round_up(desc_bytes + avail_bytes, 4096);
    }
    let sum = desc_bytes + avail_bytes;
    let used_offset = (sum + 4095) - (sum + 4095) % 4096;
    let used_bytes = 6 + size as u64 * 8;
    let queue_bytes = used_offset + used_bytes;
    let queue_pages = (queue_bytes + 4095) / 4096;
    proof {
        assert(queue_bytes <= queue_pages * 4096) by (nonlinear_arith)
            requires
                queue_pages == (queue_bytes + 4095) / 4096,
        {
            vstd::arithmetic::div_mod::lemma_fundamental_div_mod(queue_bytes + 4095, 4096);
        }
    }
    QueueLayout { desc_bytes, avail_bytes, used_offset, used_bytes, queue_bytes, queue_pages }
}

/// The page frame number the legacy interface takes for a queue at
/// `physical`.
pub fn legacy_pfn(physical: u64) -> (r: Result<u32, VirtioError>)
    ensures
        physical / 4096 <= u32::MAX ==> r == Ok::<u32, VirtioError>((physical / 4096) as u32),
        physical / 4096 > u32::MAX ==> r == Err::<u32, VirtioError>(VirtioError::QueueAboveLegacyRange),
{
    proof {
        assert(physical >> 12u64 == physical / 4096) by (bit_vector);
    }
    let frame = physical >> 12u64;
    if frame > u32::MAX as u64 {
        Err(VirtioError::QueueAboveLegacyRange)
    } else {
        Ok(frame as u32)
    }
}

/// The 64-bit capacity from its two halves.
pub fn capacity_of(low: u32, high: u32) -> (r: u64)
    ensures
        r == low + high * 0x1_0000_0000,
{
    proof {
        assert((low as u64) | ((high as u64) << 32u64) == low + high * 0x1_0000_0000) by (bit_vector);
    }
    low as u64 | ((high as u64) << 32u64)
}

/// A descriptor: a buffer at `address` of `len` bytes, with `flags`, and
/// the index of the next descriptor of its chain.
#[derive(Clone, Copy, Debug, PartialEq, Eq, Structural)]
pub struct Descriptor {
    pub address: u64,
    pub len: u32,
    pub flags: u16,
    pub next: u16,
}

/// The chain a sector transfer uses, for a request page at `request`: the
/// 16-byte header, the sector's data (written by the device for a read),
/// and the status byte the device writes.
pub open spec fn chain_spec(request: u64, write: bool) -> Seq<Descriptor> {
    seq![
        Descriptor { address: request, len: 16, flags: DESC_NEXT, next: 1 },
        Descriptor {
            address: (request + REQUEST_DATA_OFFSET) as u64,
            len: SECTOR_SIZE as u32,
            flags: if write { DESC_NEXT } else { (DESC_NEXT | DESC_WRITE) as u16 },
            next: 2,
        },
        Descriptor { address: (request + REQUEST_STATUS_OFFSET) as u64, len: 1, flags: DESC_WRITE, next: 0 },
    ]
}

pub fn request_chain(request: u64, write: bool) -> (r: [Descriptor; 3])
    requires
        request + REQUEST_STATUS_OFFSET <= u64::MAX,
    ensures
        r@ == chain_spec(request, write),
{
    let data_flags = DESC_NEXT | if write {
        0
    } else {
        DESC_WRITE
    };
    proof {
        assert(DESC_NEXT | 0u16 == DESC_NEXT) by (bit_vector);
    }
    let chain = [
        Descriptor { address: request, len: 16, flags: DESC_NEXT, next: 1 },
        Descriptor { address: request + REQUEST_DATA_OFFSET, len: SECTOR_SIZE as u32, flags: data_flags, next: 2 },
        Descriptor { address: request + REQUEST_STATUS_OFFSET, len: 1, flags: DESC_WRITE, next: 0 },
    ];
    proof {
        assert(chain@ =~= chain_spec(request, write));
    }
    chain
}

/// Writes descriptor `d` in its 16-byte table form at `offset` of `table`.
pub fn write_descriptor(table: &mut [u8], offset: usize, d: Descriptor)
    requires
        offset + 16 <= old(table)@.len(),
    ensures
        final(table)@.len() == old(table)@.len(),
        le64(final(table)@, offset as int) == d.address,
        le32(final(table)@, offset + 8) == d.len,
        le16(final(table)@, offset + 12) == d.flags,
        le16(final(table)@, offset + 14) == d.next,
        forall|i: int| 0 <= i < old(table)@.len() && !(offset <= i < offset + 16) ==> final(table)@[i] == old(table)@[i],
{
    let _len = table.len();
    put_u64(table, offset, d.address);
    let ghost a = table@;
    put_u32(table, offset + 8, d.len);
    let ghost b = table@;
    put_u16(table, offset + 12, d.flags);
    let ghost c = table@;
    put_u16(table, offset + 14, d.next);
    proof {
        assert(le64(table@, offset as int) == le64(a, offset as int)) by {
            assert forall|i: int| offset <= i < offset + 8 implies table@[i] == a[i] by {}
        }
        assert(le32(table@, offset + 8) == le32(b, offset + 8)) by {
            assert forall|i: int| offset + 8 <= i < offset + 12 implies table@[i] == b[i] by {}
        }
        assert(le16(table@, offset + 12) == le16(c, offset + 12));
    }
}

/// Writes the 16-byte request header: the request type, a reserved word and
/// the sector.
pub fn write_request_header(page: &mut [u8], request_type: u32, sector: u64)
    requires
        16 <= old(page)@.len(),
    ensures
        final(page)@.len() == old(page)@.len(),
        le32(final(page)@, 0) == request_type,
        le32(final(page)@, 4) == 0,
        le64(final(page)@, 8) == sector,
        forall|i: int| 16 <= i < old(page)@.len() ==> final(page)@[i] == old(page)@[i],
{
    put_u32(page, 0, request_type);
    let ghost a = page@;
    put_u32(page, 4, 0);
    let ghost b = page@;
    put_u64(page, 8, sector);
    proof {
        assert(le32(page@, 0) == le32(a, 0));
        assert(le32(page@, 4) == le32(b, 4));
    }
}

/// The driver's side of a queue: its size, how many requests it made
/// available, and the device's last completion count seen.
pub struct QueueState {
    pub queue_size: u16,
    pub avail_idx: u16,
    pub last_used: u16,
}

impl QueueState {
    /// Makes a request available: the ring slot it takes, and the new
    /// available count (which wraps at 2^16).
    pub fn publish(&mut self) -> (r: (u16, u16))
        requires
            old(self).queue_size > 0,
        ensures
            r.0 == old(self).avail_idx % old(self).queue_size,
            r.1 == if old(self).avail_idx == u16::MAX { 0 } else { old(self).avail_idx + 1 },
            final(self).avail_idx == r.1,
            final(self).queue_size == old(self).queue_size,
            final(self).last_used == old(self).last_used,
    {
        let slot = self.avail_idx % self.queue_size;
        self.avail_idx = self.avail_idx.wrapping_add(1);
        (slot, self.avail_idx)
    }

    /// Takes the device's completion count: whether a request completed
    /// since the last look.
    pub fn completed(&mut self, used: u16) -> (r: bool)
        ensures
            r == (used != old(self).last_used),
            final(self).last_used == used,
            final(self).queue_size == old(self).queue_size,
            final(self).avail_idx == old(self).avail_idx,
    {
        if used != self.last_used {
            self.last_used = used;
            true
        } else {
            false
        }
    }
}

/// The outcome of a request from the status byte the device wrote.
pub fn request_status(status: u8) -> (r: Result<(), BlockError>)
    ensures
        r is Ok <==> status == 0,
        r is Err ==> r == Err::<(), BlockError>(BlockError::Io),
{
    if status == 0 {
        Ok(())
    } else {
        Err(BlockError::Io)
    }
}

/// How many times a request looks for its completion before it fails.
pub const POLL_LIMIT: u32 = 20_000_000;

/// Where a request handed to the device stands.
#[derive(Clone, Copy, Debug, PartialEq, Eq, Structural)]
pub enum RequestStage {
    /// Waiting for the device's completion count, after `polls` looks.
    Polling { polls: u32 },
    /// Completed; waiting for the status byte the device wrote.
    Status,
    Finished,
}

/// What the request asks of the caller.
#[derive(Clone, Copy, Debug, PartialEq, Eq, Structural)]
pub enum RequestAction {
    /// Read the used ring's completion count and hand it back.
    ReadUsed,
    /// Acknowledge the interrupt by reading the ISR status register, then
    /// read the request's status byte and hand it back.
    ReadStatus,
    /// The request succeeded.
    Succeeded,
    /// The request failed.
    Failed(BlockError),
}

/// One step of waiting for a request: from the stage, the completion count
/// last seen and the caller's answer, the next stage, the completion count
/// now seen and the next request. A completion count that moved means the
/// request completed, and its status byte decides the outcome; one that
/// stays put for `POLL_LIMIT` looks fails the request with `Io`.
pub open spec fn request_step(stage: RequestStage, last_used: u16, reply: u64) -> (RequestStage, u16, RequestAction) {
    match stage {
        RequestStage::Polling { polls } => {
            let used = reply as u16;
            if used != last_used {
                (RequestStage::Status, used, RequestAction::ReadStatus)
            } else if polls + 1 >= POLL_LIMIT {
                (RequestStage::Finished, last_used, RequestAction::Failed(BlockError::Io))
            } else {
                (RequestStage::Polling { polls: (polls + 1) as u32 }, last_used, RequestAction::ReadUsed)
            }
        },
        RequestStage::Status => (
            RequestStage::Finished,
            last_used,
            if reply as u8 == 0 {
                RequestAction::Succeeded
            } else {
                RequestAction::Failed(BlockError::Io)
            },
        ),
        RequestStage::Finished => (RequestStage::Finished, last_used, RequestAction::Failed(BlockError::Io)),
    }
}

/// The wait for one request made available on a queue.
pub struct RequestCycle {
    pub stage: RequestStage,
    pub queue: QueueState,
}

impl RequestCycle {
    /// Starts waiting for the request just made available on `queue`.
    pub fn start(queue: QueueState) -> (r: (RequestCycle, RequestAction))
        ensures
            r.0.stage == (RequestStage::Polling { polls: 0 }),
            r.0.queue == queue,
            r.1 == RequestAction::ReadUsed,
    {
        (RequestCycle { stage: RequestStage::Polling { polls: 0 }, queue }, RequestAction::ReadUsed)
    }

    /// Takes the answer to the last request (the completion count, or the
    /// status byte) and gives the next request. A cycle that answered
    /// `Succeeded` or `Failed` is finished and not advanced again.
    pub fn advance(self, reply: u64) -> (r: (RequestCycle, RequestAction))
        requires
            self.stage != RequestStage::Finished,
        ensures
            (r.0.stage, r.0.queue.last_used, r.1) == request_step(self.stage, self.queue.last_used, reply),
            r.0.queue.queue_size == self.queue.queue_size,
            r.0.queue.avail_idx == self.queue.avail_idx,
    {
        let mut queue = self.queue;
        match self.stage {
            RequestStage::Polling { polls } => {
                if queue.completed(reply as u16) {
                    (RequestCycle { stage: RequestStage::Status, queue }, RequestAction::ReadStatus)
                } else if polls >= POLL_LIMIT - 1 {
                    (RequestCycle { stage: RequestStage::Finished, queue }, RequestAction::Failed(BlockError::Io))
                } else {
                    (RequestCycle { stage: RequestStage::Polling { polls: polls + 1 }, queue }, RequestAction::ReadUsed)
                }
            },
            RequestStage::Status => {
                let action = match request_status(reply as u8) {
                    Ok(()) => RequestAction::Succeeded,
                    Err(e) => RequestAction::Failed(e),
                };
                (RequestCycle { stage: RequestStage::Finished, queue }, action)
            },
            RequestStage::Finished => (RequestCycle { stage: RequestStage::Finished, queue }, RequestAction::Failed(BlockError::Io)),
        }
    }
}

/// A sector index the device has.
pub fn check_sector(sector: u64, capacity: u64) -> (r: Result<(), BlockError>)
    ensures
        r is Ok <==> sector < capacity,
        r is Err ==> r == Err::<(), BlockError>(BlockError::OutOfRange),
{
    if sector >= capacity {
        Err(BlockError::OutOfRange)
    } else {
        Ok(())
    }
}


/// The device the probe brought up.
#[derive(Clone, Copy, Debug, PartialEq, Eq, Structural)]
pub struct VirtioDevice {
    pub capacity: u64,
    pub queue_size: u16,
    pub queue_physical: u64,
    pub request_physical: u64,
}

/// What the probe asks of the caller, at the device's I/O base.
#[derive(Clone, Copy, Debug, PartialEq, Eq, Structural)]
pub enum VirtioAction {
    /// Write this byte to the device status register.
    WriteStatus(u8),
    /// Read the 32-bit register at this offset and hand its value back.
    Read32(u16),
    /// Read the 16-bit register at this offset and hand its value back.
    Read16(u16),
    /// Write this value to the 32-bit register at the offset.
    Write32(u16, u32),
    /// Write this value to the 16-bit register at the offset.
    Write16(u16, u16),
    /// Allocate this many zeroed DMA pages and hand back their physical
    /// address, or nothing when there is no memory.
    Allocate(u64),
    /// The device is ready.
    Ready(VirtioDevice),
    /// The device cannot be used.
    Failed(VirtioError),
}

/// Where the probe stands: the step whose answer it waits for.
#[derive(Clone, Copy, Debug, PartialEq, Eq, Structural)]
pub enum ProbeStage {
    Reset,
    Acknowledged,
    Driver,
    Features,
    GuestFeatures,
    QueueSelected,
    QueueSize,
    QueuePfn { size: u16 },
    QueueMemory { size: u16 },
    RequestMemory { size: u16, queue: u64 },
    PfnWritten { size: u16, queue: u64, request: u64 },
    CapacityLow { size: u16, queue: u64, request: u64 },
    CapacityHigh { size: u16, queue: u64, request: u64, low: u32 },
    Failing(VirtioError),
    Starting(VirtioDevice),
    Finished,
}

/// One step of bringing up a legacy virtio block device: from the stage
/// and the caller's answer to the last request (a register's value, or the
/// address of the memory allocated), the next stage and request. The device
/// is reset, acknowledged and claimed; no optional feature is taken; queue
/// 0 must have between 3 and 1024 entries and not be in use; its memory and
/// a request page are allocated and the queue's frame given to the device;
/// a device of no capacity is turned down. A refusal the device took part
/// in marks it failed first.
pub open spec fn probe_step(stage: ProbeStage, reply: Option<u64>) -> (ProbeStage, VirtioAction) {
    let value = match reply {
        Some(v) => v,
        None => 0,
    };
    match stage {
        ProbeStage::Reset => (ProbeStage::Acknowledged, VirtioAction::WriteStatus(STATUS_ACKNOWLEDGE)),
        ProbeStage::Acknowledged => (ProbeStage::Driver, VirtioAction::WriteStatus(STATUS_ACKNOWLEDGE | STATUS_DRIVER)),
        ProbeStage::Driver => (ProbeStage::Features, VirtioAction::Read32(HOST_FEATURES)),
        ProbeStage::Features => (ProbeStage::GuestFeatures, VirtioAction::Write32(GUEST_FEATURES, 0)),
        ProbeStage::GuestFeatures => (ProbeStage::QueueSelected, VirtioAction::Write16(QUEUE_SELECT, 0)),
        ProbeStage::QueueSelected => (ProbeStage::QueueSize, VirtioAction::Read16(QUEUE_SIZE)),
        ProbeStage::QueueSize => {
            let size = value as u16;
            if size < 3 || size > 1024 {
                (ProbeStage::Failing(VirtioError::InvalidQueueSize), VirtioAction::WriteStatus(STATUS_FAILED))
            } else {
                (ProbeStage::QueuePfn { size }, VirtioAction::Read32(QUEUE_PFN))
            }
        },
        ProbeStage::QueuePfn { size } => if value as u32 != 0 {
            (ProbeStage::Failing(VirtioError::QueueActive), VirtioAction::WriteStatus(STATUS_FAILED))
        } else {
            (ProbeStage::QueueMemory { size }, VirtioAction::Allocate(layout_spec(size as int).queue_pages))
        },
        ProbeStage::QueueMemory { size } => match reply {
            None => (ProbeStage::Finished, VirtioAction::Failed(VirtioError::NoQueueMemory)),
            Some(queue) => (ProbeStage::RequestMemory { size, queue }, VirtioAction::Allocate(1)),
        },
        ProbeStage::RequestMemory { size, queue } => match reply {
            None => (ProbeStage::Finished, VirtioAction::Failed(VirtioError::NoRequestMemory)),
            Some(request) => if queue / 4096 > u32::MAX {
                (ProbeStage::Finished, VirtioAction::Failed(VirtioError::QueueAboveLegacyRange))
            } else {
                (
                    ProbeStage::PfnWritten { size, queue, request },
                    VirtioAction::Write32(QUEUE_PFN, (queue / 4096) as u32),
                )
            },
        },
        ProbeStage::PfnWritten { size, queue, request } => (
            ProbeStage::CapacityLow { size, queue, request },
            VirtioAction::Read32(DEVICE_CONFIG),
        ),
        ProbeStage::CapacityLow { size, queue, request } => (
            ProbeStage::CapacityHigh { size, queue, request, low: value as u32 },
            VirtioAction::Read32((DEVICE_CONFIG + 4) as u16),
        ),
        ProbeStage::CapacityHigh { size, queue, request, low } => {
            let capacity = low + (value as u32) * 0x1_0000_0000;
            if capacity == 0 {
                (ProbeStage::Failing(VirtioError::ZeroCapacity), VirtioAction::WriteStatus(STATUS_FAILED))
            } else {
                (
                    ProbeStage::Starting(
                        VirtioDevice { capacity: capacity as u64, queue_size: size, queue_physical: queue, request_physical: request },
                    ),
                    VirtioAction::WriteStatus(STATUS_ACKNOWLEDGE | STATUS_DRIVER | STATUS_DRIVER_OK),
                )
            }
        },
        ProbeStage::Failing(e) => (ProbeStage::Finished, VirtioAction::Failed(e)),
        ProbeStage::Starting(device) => (ProbeStage::Finished, VirtioAction::Ready(device)),
        ProbeStage::Finished => (ProbeStage::Finished, VirtioAction::Failed(VirtioError::ZeroCapacity)),
    }
}

/// The bring-up of a legacy virtio block device found at an I/O base.
pub struct VirtioProbe {
    pub stage: ProbeStage,
}

impl VirtioProbe {
    /// Starts by resetting the device.
    pub fn start() -> (r: (VirtioProbe, VirtioAction))
        ensures
            r.0.stage == ProbeStage::Reset,
            r.1 == VirtioAction::WriteStatus(0),
    {
        (VirtioProbe { stage: ProbeStage::Reset }, VirtioAction::WriteStatus(0))
    }

    /// Takes the answer to the last request (`None` after a write, or when
    /// no memory was allocated) and gives the next request. A probe that
    /// answered `Ready` or `Failed` is finished and not advanced again.
    pub fn advance(self, reply: Option<u64>) -> (r: (VirtioProbe, VirtioAction))
        requires
            self.stage != ProbeStage::Finished,
        ensures
            (r.0.stage, r.1) == probe_step(self.stage, reply),
    {
        let value: u64 = match reply {
            Some(v) => v,
            None => 0,
        };
        let (stage, action) = match self.stage {
            ProbeStage::Reset => (ProbeStage::Acknowledged, VirtioAction::WriteStatus(STATUS_ACKNOWLEDGE)),
            ProbeStage::Acknowledged => (ProbeStage::Driver, VirtioAction::WriteStatus(STATUS_ACKNOWLEDGE | STATUS_DRIVER)),
            ProbeStage::Driver => (ProbeStage::Features, VirtioAction::Read32(HOST_FEATURES)),
            ProbeStage::Features => (ProbeStage::GuestFeatures, VirtioAction::Write32(GUEST_FEATURES, 0)),
            ProbeStage::GuestFeatures => (ProbeStage::QueueSelected, VirtioAction::Write16(QUEUE_SELECT, 0)),
            ProbeStage::QueueSelected => (ProbeStage::QueueSize, VirtioAction::Read16(QUEUE_SIZE)),
            ProbeStage::QueueSize => {
                let size = value as u16;
                match check_queue_size(size) {
                    Err(e) => (ProbeStage::Failing(e), VirtioAction::WriteStatus(STATUS_FAILED)),
                    Ok(()) => (ProbeStage::QueuePfn { size }, VirtioAction::Read32(QUEUE_PFN)),
                }
            },
            ProbeStage::QueuePfn { size } => {
                if value as u32 != 0 {
                    (ProbeStage::Failing(VirtioError::QueueActive), VirtioAction::WriteStatus(STATUS_FAILED))
                } else {
                    let layout = queue_layout(size);
                    (ProbeStage::QueueMemory { size }, VirtioAction::Allocate(layout.queue_pages))
                }
            },
            ProbeStage::QueueMemory { size } => match reply {
                None => (ProbeStage::Finished, VirtioAction::Failed(VirtioError::NoQueueMemory)),
                Some(queue) => (ProbeStage::RequestMemory { size, queue }, VirtioAction::Allocate(1)),
            },
            ProbeStage::RequestMemory { size, queue } => match reply {
                None => (ProbeStage::Finished, VirtioAction::Failed(VirtioError::NoRequestMemory)),
                Some(request) => match legacy_pfn(queue) {
                    Err(e) => (ProbeStage::Finished, VirtioAction::Failed(e)),
                    Ok(pfn) => (ProbeStage::PfnWritten { size, queue, request }, VirtioAction::Write32(QUEUE_PFN, pfn)),
                },
            },
            ProbeStage::PfnWritten { size, queue, request } => (
                ProbeStage::CapacityLow { size, queue, request },
                VirtioAction::Read32(DEVICE_CONFIG),
            ),
            ProbeStage::CapacityLow { size, queue, request } => (
                ProbeStage::CapacityHigh { size, queue, request, low: value as u32 },
                VirtioAction::Read32(DEVICE_CONFIG + 4),
            ),
            ProbeStage::CapacityHigh { size, queue, request, low } => {
                let capacity = capacity_of(low, value as u32);
                if capacity == 0 {
                    (ProbeStage::Failing(VirtioError::ZeroCapacity), VirtioAction::WriteStatus(STATUS_FAILED))
                } else {
                    (
                        ProbeStage::Starting(
                            VirtioDevice { capacity, queue_size: size, queue_physical: queue, request_physical: request },
                        ),
                        VirtioAction::WriteStatus(STATUS_ACKNOWLEDGE | STATUS_DRIVER | STATUS_DRIVER_OK),
                    )
                }
            },
            ProbeStage::Failing(e) => (ProbeStage::Finished, VirtioAction::Failed(e)),
            ProbeStage::Starting(device) => (ProbeStage::Finished, VirtioAction::Ready(device)),
            ProbeStage::Finished => (ProbeStage::Finished, VirtioAction::Failed(VirtioError::ZeroCapacity)),
        };
        (VirtioProbe { stage }, action)
    }
}
} // verus!
