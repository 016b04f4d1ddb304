//! Memory bookkeeping the kernel reports, and the check that a user buffer
//! is mapped with user rights in a page-table tree.

use crate::heap::{total, HeapState};
use crate::page_tables::TableMemory;
use crate::physical::PhysicalMemory;
use crate::PAGE_SIZE;
use vstd::prelude::*;

verus! {

/// User addresses lie below this (the first PML4 slot).
pub const USER_ADDRESS_LIMIT: u64 = 0x80_0000_0000;

pub const ENTRY_PRESENT: u64 = 1;
pub const ENTRY_WRITABLE: u64 = 2;
pub const ENTRY_USER: u64 = 4;
pub const ENTRY_HUGE: u64 = 0x80;
pub const ENTRY_ADDRESS_MASK: u64 = 0x000f_ffff_ffff_f000;

#[derive(Clone, Copy, Debug)]
pub struct MemoryStats {
    pub physical_total: u64,
    pub physical_free: u64,
    pub managed_regions: usize,
    pub heap_total: usize,
    pub heap_free: usize,
}

/// A process's page-table tree.
#[derive(Clone, Copy, Debug, PartialEq, Eq, Structural)]
pub struct AddressSpace {
    pub root: u64,
}

/// What mapping the kernel heap took.
#[derive(Clone, Copy, Debug)]
pub struct HeapMapping {
    pub mapped_pages: u64,
    pub page_table_and_heap_frames: u64,
}

#[derive(Clone, Copy, Debug)]
pub struct RuntimeMemoryDiagnostics {
    pub cr3: u64,
    pub write_protect: bool,
    pub heap_start_mapped: bool,
    pub heap_end_mapped: bool,
    pub lower_guard_unmapped: bool,
    pub upper_guard_unmapped: bool,
}

/// The memory figures: all zero until physical memory is managed.
pub fn stats<const N: usize>(physical: Option<&PhysicalMemory<N>>, heap: &HeapState) -> (r: MemoryStats)
    requires
        heap.wf(),
    ensures
        match physical {
            None => r.physical_total == 0 && r.physical_free == 0 && r.managed_regions == 0 && r.heap_total
                == 0 && r.heap_free == 0,
            Some(pmm) => {
                &&& r.physical_total == pmm.total_spec()
                &&& r.physical_free == pmm.free_spec()
                &&& r.managed_regions == pmm.managed_regions().len()
                &&& r.heap_total == if heap.is_initialized() { heap.high() - heap.low() } else { 0 }
                &&& r.heap_free == total(heap.ranges())
            },
        },
{
    match physical {
        None => MemoryStats { physical_total: 0, physical_free: 0, managed_regions: 0, heap_total: 0, heap_free: 0 },
        Some(pmm) => MemoryStats {
            physical_total: pmm.total_bytes(),
            physical_free: pmm.free_bytes(),
            managed_regions: pmm.managed_region_count(),
            heap_total: heap.total_bytes(),
            heap_free: heap.free_bytes(),
        },
    }
}

/// The page addresses the heap check looks at: the guard page below the
/// heap, the heap's last page and the guard page above it, each clamped at
/// the ends of the address space.
pub fn heap_probe_addresses(heap_start: u64, heap_size: u64) -> (r: (u64, u64, u64))
    ensures
        ({
            let end = if heap_start + heap_size > u64::MAX { u64::MAX as int } else { heap_start + heap_size };
            &&& r.0 == if heap_start < PAGE_SIZE { 0 } else { heap_start - PAGE_SIZE }
            &&& r.1 == if end < PAGE_SIZE { 0 } else { end - PAGE_SIZE }
            &&& r.2 == end
        }),
{
    let heap_end = match heap_start.checked_add(heap_size) {
        Some(end) => end,
        None => u64::MAX,
    };
    let lower_guard = if heap_start < PAGE_SIZE {
        0
    } else {
        heap_start - PAGE_SIZE
    };
    let last_heap_page = if heap_end < PAGE_SIZE {
        0
    } else {
        heap_end - PAGE_SIZE
    };
    (lower_guard, last_heap_page, heap_end)
}

/// The index into the level-`level` table (0 the root) that translates
/// `va`.
pub open spec fn table_index(va: u64, level: int) -> int {
    if level == 0 {
        ((va >> 39u64) & 0x1ff) as int
    } else if level == 1 {
        ((va >> 30u64) & 0x1ff) as int
    } else if level == 2 {
        ((va >> 21u64) & 0x1ff) as int
    } else {
        ((va >> 12u64) & 0x1ff) as int
    }
}

/// Walking the tree from `table` at `level` down to `va`'s page, every entry
/// is present and open to user code (and writable, when `writable`). A huge
/// page below the root ends the walk.
pub open spec fn user_walk<M: TableMemory>(m: M, table: u64, va: u64, writable: bool, level: int) -> bool
    decreases 4 - level,
{
    if level < 0 || level >= 4 || table % PAGE_SIZE != 0 {
        false
    } else {
        let e = m.entry(table, table_index(va, level));
        if e & ENTRY_PRESENT == 0 || e & ENTRY_USER == 0 {
            false
        } else if writable && e & ENTRY_WRITABLE == 0 {
            false
        } else if level == 3 || (level >= 1 && e & ENTRY_HUGE != 0) {
            true
        } else if e & ENTRY_ADDRESS_MASK == 0 {
            false
        } else {
            user_walk(m, e & ENTRY_ADDRESS_MASK, va, writable, level + 1)
        }
    }
}

fn index_at(va: u64, level: usize) -> (r: usize)
    requires
        level < 4,
    ensures
        r == table_index(va, level as int),
        r < 512,
{
    let shift: u64 = if level == 0 {
        39
    } else if level == 1 {
        30
    } else if level == 2 {
        21
    } else {
        12
    };
    proof {
        assert((va >> 39u64) & 0x1ff < 512) by (bit_vector);
        assert((va >> 30u64) & 0x1ff < 512) by (bit_vector);
        assert((va >> 21u64) & 0x1ff < 512) by (bit_vector);
        assert((va >> 12u64) & 0x1ff < 512) by (bit_vector);
    }
    ((va >> shift) & 0x1ff) as usize
}

/// Whether the page of `va` is mapped for user code under `root`.
pub fn user_page_accessible<M: TableMemory>(memory: &M, root: u64, va: u64, writable: bool) -> (r: bool)
    ensures
        r == user_walk(*memory, root, va, writable, 0),
{
    let mut table = root;
    let mut level: usize = 0;
    while level < 4
        invariant
            level <= 4,
            user_walk(*memory, root, va, writable, 0) == user_walk(*memory, table, va, writable, level as int),
        decreases 4 - level,
    {
        if table % PAGE_SIZE != 0 {
            return false;
        }
        let entry = memory.read(table, index_at(va, level));
        if entry & ENTRY_PRESENT == 0 || entry & ENTRY_USER == 0 {
            return false;
        }
        if writable && entry & ENTRY_WRITABLE == 0 {
            return false;
        }
        if level == 3 || (level >= 1 && entry & ENTRY_HUGE != 0) {
            return true;
        }
        table = entry & ENTRY_ADDRESS_MASK;
        if table == 0 {
            return false;
        }
        level += 1;
    }
    false
}

/// The `length` bytes at `address` all lie below `USER_ADDRESS_LIMIT` in
/// pages mapped for user code (with write access, when `writable`); an
/// empty range only needs its address below the limit.
pub open spec fn user_range_ok<M: TableMemory>(m: M, root: u64, address: u64, length: usize, writable: bool) -> bool {
    if length == 0 {
        address < USER_ADDRESS_LIMIT
    } else {
        let last = address + length - 1;
        &&& last <= u64::MAX
        &&& address < USER_ADDRESS_LIMIT
        &&& last < USER_ADDRESS_LIMIT
        &&& forall|p: u64|
            address - (address % PAGE_SIZE) as int <= p <= last - (last % PAGE_SIZE as int) && p % PAGE_SIZE
                == 0 ==> #[trigger] user_walk(m, root, p, writable, 0)
    }
}

/// Whether user code may use the `length` bytes at `address` under `root`.
pub fn user_range_accessible<M: TableMemory>(memory: &M, root: u64, address: u64, length: usize, writable: bool) -> (r: bool)
    ensures
        r == user_range_ok(*memory, root, address, length, writable),
{
    if length == 0 {
        return address < USER_ADDRESS_LIMIT;
    }
    let last = match address.checked_add(length as u64 - 1) {
        Some(last) => last,
        None => return false,
    };
    if address >= USER_ADDRESS_LIMIT || last >= USER_ADDRESS_LIMIT {
        return false;
    }
    let first_page = address - address % PAGE_SIZE;
    let last_page = last - last % PAGE_SIZE;
    let mut page = first_page;
    loop
        invariant
            first_page <= page <= last_page,
            last_page < USER_ADDRESS_LIMIT,
            page % PAGE_SIZE == 0,
            last_page % PAGE_SIZE == 0,
            first_page == address - (address % PAGE_SIZE) as int,
            last_page == last - (last % PAGE_SIZE) as int,
            last == address + length - 1,
            address < USER_ADDRESS_LIMIT,
            last < USER_ADDRESS_LIMIT,
            length > 0,
            forall|p: u64| first_page <= p < page && p % PAGE_SIZE == 0 ==> #[trigger] user_walk(*memory, root, p, writable, 0),
        decreases last_page - page,
    {
        if !user_page_accessible(memory, root, page, writable) {
            return false;
        }
        if page == last_page {
            proof {
                assert forall|p: u64| first_page <= p <= last_page && p % PAGE_SIZE == 0 implies #[trigger] user_walk(
                    *memory,
                    root,
                    p,
                    writable,
                    0,
                ) by {
                    if p == page {
                    }
                }
            }
            return true;
        }
        proof {
            crate::arith::lemma_multiple_sum(last_page as int, page as int, PAGE_SIZE as int);
        }
        page = page + PAGE_SIZE;
        proof {
            assert forall|p: u64| first_page <= p < page && p % PAGE_SIZE == 0 implies #[trigger] user_walk(
                *memory,
                root,
                p,
                writable,
                0,
            ) by {
                if p >= page - PAGE_SIZE {
                    assert(p == page - PAGE_SIZE) by {
                        crate::arith::lemma_multiple_sum(p as int, (page - PAGE_SIZE) as int, PAGE_SIZE as int);
                    }
                }
            }
        }
    }
}


/// Why a mapping request was turned down before any table was touched.
#[derive(Clone, Copy, Debug, PartialEq, Eq, Structural)]
pub enum MappingError {
    /// A user page must start on a page boundary.
    UserUnaligned,
    /// A user page's initial data must fit in one page.
    UserDataTooLarge,
    /// A user page must lie below the user address limit.
    UserBeyondLimit,
    /// An MMIO range must be non-empty and page aligned at both ends.
    MmioMisaligned,
    MmioVirtualOverflow,
    MmioPhysicalOverflow,
    /// The page-table frames taken from the PMM were not what the clone
    /// reported.
    AccountingUnderflow,
    AccountingMismatch,
}

/// The text that describes `e`.
pub open spec fn mapping_text(e: MappingError) -> Seq<char> {
    match e {
        MappingError::UserUnaligned => "user virtual address must be page aligned"@,
        MappingError::UserDataTooLarge => "initial user page data exceeds one page"@,
        MappingError::UserBeyondLimit => "user virtual address exceeds Generic userspace limit"@,
        MappingError::MmioMisaligned => "MMIO mapping must be non-empty and page aligned"@,
        MappingError::MmioVirtualOverflow => "MMIO virtual-address overflow"@,
        MappingError::MmioPhysicalOverflow => "MMIO physical-address overflow"@,
        MappingError::AccountingUnderflow => "process page-table accounting underflow"@,
        MappingError::AccountingMismatch => "process page-table accounting mismatch"@,
    }
}

impl MappingError {
    /// A one-line description of the error.
    pub fn message(&self) -> (r: &'static str)
        ensures
            r@ == mapping_text(*self),
    {
        match self {
            MappingError::UserUnaligned => "user virtual address must be page aligned",
            MappingError::UserDataTooLarge => "initial user page data exceeds one page",
            MappingError::UserBeyondLimit => "user virtual address exceeds Generic userspace limit",
            MappingError::MmioMisaligned => "MMIO mapping must be non-empty and page aligned",
            MappingError::MmioVirtualOverflow => "MMIO virtual-address overflow",
            MappingError::MmioPhysicalOverflow => "MMIO physical-address overflow",
            MappingError::AccountingUnderflow => "process page-table accounting underflow",
            MappingError::AccountingMismatch => "process page-table accounting mismatch",
        }
    }
}

pub const ENTRY_NO_EXECUTE: u64 = 0x8000_0000_0000_0000;

/// The leaf entry flags of a user page: present and user-accessible, plus
/// writable when asked, and no-execute unless executable.
pub open spec fn user_flags_spec(writable: bool, executable: bool) -> u64 {
    (ENTRY_PRESENT | ENTRY_USER) | (if writable { ENTRY_WRITABLE } else { 0 }) | (if executable { 0 } else { ENTRY_NO_EXECUTE })
}

/// Checks a request to map one user page at `virtual_address` with
/// `initial_len` bytes of data, in the order the kernel checks them.
pub fn check_user_page(virtual_address: u64, initial_len: usize) -> (r: Result<(), MappingError>)
    ensures
        r == if virtual_address % PAGE_SIZE != 0 {
            Err(MappingError::UserUnaligned)
        } else if initial_len > PAGE_SIZE {
            Err(MappingError::UserDataTooLarge)
        } else if virtual_address >= USER_ADDRESS_LIMIT {
            Err(MappingError::UserBeyondLimit)
        } else {
            Ok(())
        },
{
    if virtual_address % PAGE_SIZE != 0 {
        return Err(MappingError::UserUnaligned);
    }
    if initial_len as u64 > PAGE_SIZE {
        return Err(MappingError::UserDataTooLarge);
    }
    if virtual_address >= USER_ADDRESS_LIMIT {
        return Err(MappingError::UserBeyondLimit);
    }
    Ok(())
}

/// The leaf entry flags of a user page.
pub fn user_page_flags(writable: bool, executable: bool) -> (r: u64)
    ensures
        r == user_flags_spec(writable, executable),
{
    let write: u64 = if writable {
        ENTRY_WRITABLE
    } else {
        0
    };
    let no_execute: u64 = if executable {
        0
    } else {
        ENTRY_NO_EXECUTE
    };
    (ENTRY_PRESENT | ENTRY_USER) | write | no_execute
}

/// The pages of an MMIO mapping: `pages` pairs of virtual and physical page
/// addresses, one page apart, from `virtual_start` and `physical_start`.
pub open spec fn mmio_pages(virtual_start: u64, physical_start: u64, pages: u64) -> Seq<(u64, u64)> {
    Seq::new(pages as nat, |i: int| ((virtual_start + i * PAGE_SIZE) as u64, (physical_start + i * PAGE_SIZE) as u64))
}

/// The error an MMIO request meets, if any: a misaligned or empty range
/// first, then the first page whose virtual or physical address overflows.
pub open spec fn mmio_error(virtual_start: u64, physical_start: u64, pages: u64) -> Option<MappingError> {
    if pages == 0 || virtual_start % PAGE_SIZE != 0 || physical_start % PAGE_SIZE != 0 {
        Some(MappingError::MmioMisaligned)
    } else if (pages - 1) * PAGE_SIZE > u64::MAX {
        Some(MappingError::MmioVirtualOverflow)
    } else if virtual_start + (pages - 1) * PAGE_SIZE > u64::MAX {
        Some(MappingError::MmioVirtualOverflow)
    } else if physical_start + (pages - 1) * PAGE_SIZE > u64::MAX {
        Some(MappingError::MmioPhysicalOverflow)
    } else {
        None
    }
}

/// The page pairs to map for an MMIO range of `pages` pages, or the error
/// that turns the request down.
pub fn mmio_plan(virtual_start: u64, physical_start: u64, pages: u64) -> (r: Result<Vec<(u64, u64)>, MappingError>)
    ensures
        match mmio_error(virtual_start, physical_start, pages) {
            Some(e) => r == Err::<Vec<(u64, u64)>, MappingError>(e),
            None => r is Ok && r->Ok_0@ == mmio_pages(virtual_start, physical_start, pages),
        },
{
    if pages == 0 || virtual_start % PAGE_SIZE != 0 || physical_start % PAGE_SIZE != 0 {
        return Err(MappingError::MmioMisaligned);
    }
    let last_offset = match (pages - 1).checked_mul(PAGE_SIZE) {
        Some(v) => v,
        None => {
            return Err(MappingError::MmioVirtualOverflow);
        },
    };
    if virtual_start.checked_add(last_offset).is_none() {
        return Err(MappingError::MmioVirtualOverflow);
    }
    if physical_start.checked_add(last_offset).is_none() {
        return Err(MappingError::MmioPhysicalOverflow);
    }
    let mut out: Vec<(u64, u64)> = Vec::new();
    let mut index: u64 = 0;
    while index < pages
        invariant
            index <= pages,
            pages >= 1,
            last_offset == (pages - 1) * PAGE_SIZE,
            virtual_start + last_offset <= u64::MAX,
            physical_start + last_offset <= u64::MAX,
            out@ == mmio_pages(virtual_start, physical_start, pages).take(index as int),
        decreases pages - index,
    {
        assert(index * PAGE_SIZE <= last_offset) by (nonlinear_arith)
            requires
                index <= pages - 1,
                last_offset == (pages - 1) * PAGE_SIZE,
        ;
        let offset = index * PAGE_SIZE;
        out.push((virtual_start + offset, physical_start + offset));
        index = index + 1;
        proof {
            assert(out@ =~= mmio_pages(virtual_start, physical_start, pages).take(index as int));
        }
    }
    proof {
        assert(out@ =~= mmio_pages(virtual_start, physical_start, pages));
    }
    Ok(out)
}

/// Where the kernel heap goes: its guard pages and the number of pages it
/// maps.
#[derive(Clone, Copy, Debug, PartialEq, Eq, Structural)]
pub struct HeapPlan {
    pub lower_guard: u64,
    pub upper_guard: u64,
    pub first_page: u64,
    pub last_page: u64,
    pub pages: u64,
}

/// The kernel can map a heap of `size` bytes at `start`: both page
/// aligned, at least a page, with room for a guard page below it and for
/// its end.
pub open spec fn heap_request_ok(start: u64, size: u64) -> bool {
    &&& start % PAGE_SIZE == 0
    &&& size % PAGE_SIZE == 0
    &&& size >= PAGE_SIZE
    &&& start + size <= u64::MAX
    &&& start >= PAGE_SIZE
}

/// The layout of a heap of `size` bytes at `start`, with one unmapped guard
/// page on each side.
pub fn heap_plan(start: u64, size: u64) -> (r: HeapPlan)
    requires
        heap_request_ok(start, size),
    ensures
        r.lower_guard == start - PAGE_SIZE,
        r.upper_guard == start + size,
        r.first_page == start,
        r.last_page == start + size - PAGE_SIZE,
        r.pages == size / PAGE_SIZE,
        r.pages * PAGE_SIZE == size,
{
    let end = start + size;
    proof {
        assert((size / PAGE_SIZE) * PAGE_SIZE == size) by (nonlinear_arith)
            requires
                size % PAGE_SIZE == 0,
        ;
    }
    HeapPlan {
        lower_guard: start - PAGE_SIZE,
        upper_guard: end,
        first_page: start,
        last_page: end - PAGE_SIZE,
        pages: size / PAGE_SIZE,
    }
}

/// Checks that cloning a page-table tree took exactly its table frames from
/// the PMM: `before` and `after` are the free bytes around the clone.
pub fn check_table_accounting(before: u64, after: u64, table_frames: u64) -> (r: Result<(), MappingError>)
    ensures
        r == if after > before {
            Err(MappingError::AccountingUnderflow)
        } else if before - after != table_frames * PAGE_SIZE {
            Err(MappingError::AccountingMismatch)
        } else {
            Ok(())
        },
{
    if after > before {
        return Err(MappingError::AccountingUnderflow);
    }
    let consumed = before - after;
    if table_frames > u64::MAX / PAGE_SIZE || consumed != table_frames * PAGE_SIZE {
        return Err(MappingError::AccountingMismatch);
    }
    Ok(())
}
} // verus!
