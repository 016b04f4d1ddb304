pub mod acpi;
pub mod apic;
pub mod arith;
pub mod backend;
pub mod block;
pub mod bytes;
pub mod commands;
pub mod console;
pub mod desktop;
pub mod display;
pub mod elf;
pub mod files;
pub mod genericfs;
pub mod graphics;
pub mod initramfs;
pub mod memory;
pub mod heap;
pub mod input;
pub mod path;
pub mod page_tables;
pub mod pci;
pub mod physical;
pub mod process;
pub mod ps2;
pub mod psf;
pub mod ramfs;
pub mod recontrol;
pub mod regions;
pub mod sched;
pub mod shell;
pub mod timer;
pub mod user;
pub mod vfs;
pub mod virtio;

pub use physical::{PhysicalMemory, PhysicalMemoryError};
use vstd::prelude::*;

verus! {

pub const PAGE_SIZE: u64 = 4096;

/// A physical byte range [start, end) already classified as usable by the loader.
#[derive(Clone, Copy, Debug)]
pub struct Region {
    pub start: u64,
    pub end: u64,
}

impl Default for Region {
    fn default() -> (r: Self)
        ensures
            r.start == 0 && r.end == 0,
    {
        Region { start: 0, end: 0 }
    }
}

#[derive(Debug, PartialEq, Eq, Structural)]
pub enum MapError {
    ReversedRange,
    OverlapOrUnsorted,
}

/// Region `k` of a firmware map is well placed: not reversed and not starting
/// before the end of region `k - 1`.
pub open spec fn map_entry_ok(s: Seq<Region>, k: int) -> bool {
    &&& s[k].start <= s[k].end
    &&& k > 0 ==> s[k - 1].end <= s[k].start
}

/// The error reported for the first badly placed region `k`.
pub open spec fn map_entry_error(s: Seq<Region>, k: int) -> MapError {
    if s[k].end < s[k].start {
        MapError::ReversedRange
    } else {
        MapError::OverlapOrUnsorted
    }
}

/// The first frame candidate in `r` when frames below `next` are used up:
/// the first page boundary at or above `next`, `r.start` and the null page.
pub open spec fn frame_candidate(next: u64, r: Region) -> int {
    let low = if next >= r.start { next as int } else { r.start as int };
    let low = if low >= PAGE_SIZE { low } else { PAGE_SIZE as int };
    crate::arith::round_up(low, PAGE_SIZE as int)
}

/// A whole page starting at the candidate fits inside `r`.
pub open spec fn frame_fits(next: u64, r: Region) -> bool {
    frame_candidate(next, r) + PAGE_SIZE <= r.end
}

/// `g` is a whole page of `r`, page-aligned and above the null page.
pub open spec fn page_in(r: Region, g: int) -> bool {
    &&& g % PAGE_SIZE as int == 0
    &&& g >= PAGE_SIZE
    &&& r.start <= g
    &&& g + PAGE_SIZE <= r.end
}

/// `g` is a frame the map offers: a whole page of one of its regions.
pub open spec fn eligible(regions: Seq<Region>, g: int) -> bool {
    exists|k: int| 0 <= k < regions.len() && #[trigger] page_in(regions[k], g)
}

/// A page-aligned address at or above `v` is at or above `v` rounded up.
proof fn lemma_page_above(v: int, g: int)
    requires
        g >= v,
        g % PAGE_SIZE as int == 0,
    ensures
        g >= crate::arith::round_up(v, PAGE_SIZE as int),
{
    crate::arith::lemma_round_up(v, PAGE_SIZE as int);
}

/// Bootstrap allocator kept for tiny pre-PMM users and regression coverage.
///
/// New kernel boot code should transition to PhysicalMemory, which owns its
/// metadata and supports freeing and coalescing.
pub struct FrameAllocator<'a> {
    regions: &'a [Region],
    index: usize,
    next: u64,
}

impl<'a> FrameAllocator<'a> {
    /// The firmware map this allocator walks.
    pub closed spec fn regions_spec(&self) -> Seq<Region> {
        self.regions@
    }

    /// The index of the region currently being consumed.
    pub closed spec fn index_spec(&self) -> int {
        self.index as int
    }

    /// Every frame below this address has been handed out or skipped.
    pub closed spec fn next_spec(&self) -> int {
        self.next as int
    }

    pub closed spec fn wf(&self) -> bool {
        &&& self.index <= self.regions@.len()
        &&& self.next >= PAGE_SIZE
        &&& forall|k: int| 0 <= k < self.regions@.len() ==> map_entry_ok(self.regions@, k)
        &&& forall|k: int, g: int| 0 <= k < self.index && #[trigger] page_in(self.regions@[k], g) ==> g < self.next
    }

    pub fn new(regions: &'a [Region]) -> (r: Result<Self, MapError>)
        ensures
            match r {
                Ok(a) => {
                    &&& forall|k: int| 0 <= k < regions@.len() ==> map_entry_ok(regions@, k)
                    &&& a.wf()
                    &&& a.regions_spec() == regions@
                    &&& a.index_spec() == 0
                    &&& a.next_spec() == PAGE_SIZE
                },
                Err(e) => exists|k: int|
                    {
                        &&& 0 <= k < regions@.len()
                        &&& !map_entry_ok(regions@, k)
                        &&& (forall|j: int| 0 <= j < k ==> map_entry_ok(regions@, j))
                        &&& e == map_entry_error(regions@, k)
                    },
            },
    {
        let mut previous_end: u64 = 0;
        let mut i: usize = 0;
        while i < regions.len()
            invariant
                i <= regions@.len(),
                forall|j: int| 0 <= j < i ==> map_entry_ok(regions@, j),
                i == 0 ==> previous_end == 0,
                i > 0 ==> previous_end == regions@[i - 1].end,
            decreases regions@.len() - i,
        {
            let region = regions[i];
            if region.end < region.start {
                assert(!map_entry_ok(regions@, i as int));
                return Err(MapError::ReversedRange);
            }
            if region.start < previous_end {
                assert(!map_entry_ok(regions@, i as int));
                return Err(MapError::OverlapOrUnsorted);
            }
            previous_end = region.end;
            i += 1;
        }
        Ok(Self { regions, index: 0, next: PAGE_SIZE })
    }

    /// Regions of a well-placed map lie in order: a later one starts at or
    /// after the end of an earlier one.
    proof fn lemma_sorted_regions(s: Seq<Region>, i: int, j: int)
        requires
            0 <= i < j < s.len(),
            forall|k: int| 0 <= k < s.len() ==> map_entry_ok(s, k),
        ensures
            s[i].end <= s[j].start,
        decreases j - i,
    {
        assert(map_entry_ok(s, j));
        if j > i + 1 {
            Self::lemma_sorted_regions(s, i, j - 1);
            assert(map_entry_ok(s, j - 1));
        }
    }

    /// Handing out `frame` took this allocator to `after`: the frame is the
    /// first page-aligned candidate above the null page and the frames
    /// handed out before, in the first region from the current one on
    /// where a whole page fits.
    pub open spec fn hands_out(&self, after: Self, frame: u64) -> bool {
        let k = after.index_spec();
        &&& self.index_spec() <= k < self.regions_spec().len()
        &&& frame_fits(self.next_spec() as u64, self.regions_spec()[k])
        &&& forall|j: int|
            self.index_spec() <= j < k ==> !frame_fits(
                self.next_spec() as u64,
                self.regions_spec()[j],
            )
        &&& frame == frame_candidate(self.next_spec() as u64, self.regions_spec()[k])
        &&& frame % PAGE_SIZE == 0
        &&& frame >= PAGE_SIZE
        &&& frame >= self.next_spec()
        &&& self.regions_spec()[k].start <= frame
        &&& frame + PAGE_SIZE <= self.regions_spec()[k].end
        &&& after.next_spec() == frame + PAGE_SIZE
    }

    /// No frame the map offers is skipped: a frame handed out is a page of
    /// the map, and the least one at or above every frame handed out before;
    /// when nothing is handed out, no page of the map is left above them.
    /// So from a new allocator, successive calls hand out exactly the pages
    /// of the map, in increasing order.
    pub proof fn law_least_eligible(a: Self, b: Self, frame: u64)
        requires
            a.wf(),
            a.hands_out(b, frame),
        ensures
            eligible(a.regions_spec(), frame as int),
            forall|g: int| a.next_spec() <= g && eligible(a.regions_spec(), g) ==> frame <= g,
    {
        let s = a.regions_spec();
        let k = b.index_spec();
        assert(page_in(s[k], frame as int));
        assert forall|g: int| a.next_spec() <= g && eligible(s, g) implies frame <= g by {
            let j = choose|j: int| 0 <= j < s.len() && #[trigger] page_in(s[j], g);
            if j < a.index_spec() {
            } else if j < k {
                let r = s[j];
                let low = if a.next >= r.start { a.next as int } else { r.start as int };
                let low = if low >= PAGE_SIZE { low } else { PAGE_SIZE as int };
                lemma_page_above(low, g);
                assert(frame_fits(a.next, r));
            } else if j == k {
                let r = s[k];
                let low = if a.next >= r.start { a.next as int } else { r.start as int };
                let low = if low >= PAGE_SIZE { low } else { PAGE_SIZE as int };
                lemma_page_above(low, g);
            } else {
                Self::lemma_sorted_regions(s, k, j);
            }
        }
    }

    /// When no region from the current one on has room for a page, no page
    /// of the map is left at or above the frames handed out.
    pub proof fn law_none_left(a: Self)
        requires
            a.wf(),
            forall|j: int| a.index_spec() <= j < a.regions_spec().len() ==> !frame_fits(
                a.next_spec() as u64,
                a.regions_spec()[j],
            ),
        ensures
            forall|g: int| a.next_spec() <= g ==> !eligible(a.regions_spec(), g),
    {
        let s = a.regions_spec();
        assert forall|g: int| a.next_spec() <= g implies !eligible(s, g) by {
            if eligible(s, g) {
                let j = choose|j: int| 0 <= j < s.len() && #[trigger] page_in(s[j], g);
                if j >= a.index_spec() {
                    let r = s[j];
                    let low = if a.next >= r.start { a.next as int } else { r.start as int };
                    let low = if low >= PAGE_SIZE { low } else { PAGE_SIZE as int };
                    lemma_page_above(low, g);
                    assert(frame_fits(a.next, r));
                }
            }
        }
    }

    /// Frames come in strictly increasing order, whole pages apart, so no
    /// frame is handed out twice, and none is the null page.
    pub proof fn law_frames_increase(a: Self, b: Self, c: Self, first: u64, second: u64)
        requires
            a.hands_out(b, first),
            b.hands_out(c, second),
        ensures
            first + PAGE_SIZE <= second,
            first != second,
            first >= PAGE_SIZE,
    {
    }

    /// Hands out the next page-aligned frame. Frames come in strictly
    /// increasing order, never include the null page and are never reused.
    pub fn allocate(&mut self) -> (r: Option<u64>)
        requires
            old(self).wf(),
        ensures
            final(self).wf(),
            final(self).regions_spec() == old(self).regions_spec(),
            match r {
                Some(frame) => old(self).hands_out(*final(self), frame),
                None => {
                    &&& final(self).index_spec() == old(self).regions_spec().len()
                    &&& final(self).next_spec() == old(self).next_spec()
                    &&& forall|j: int|
                        old(self).index_spec() <= j < old(self).regions_spec().len() ==> !frame_fits(
                            old(self).next_spec() as u64,
                            old(self).regions_spec()[j],
                        )
                },
            },
    {
        let ghost start_index = self.index as int;
        while self.index < self.regions.len()
            invariant
                self.wf(),
                self.regions@ == old(self).regions@,
                self.next == old(self).next,
                start_index == old(self).index,
                start_index <= self.index,
                forall|j: int|
                    start_index <= j < self.index ==> !frame_fits(self.next, self.regions@[j]),
            decreases self.regions@.len() - self.index,
        {
            proof {
                assert forall|k: int, g: int| 0 <= k < self.index && #[trigger] page_in(self.regions@[k], g) implies g < self.next by {
                    if k >= start_index && g >= self.next {
                        let r = self.regions@[k];
                        let low = if self.next >= r.start { self.next as int } else { r.start as int };
                        let low = if low >= PAGE_SIZE { low } else { PAGE_SIZE as int };
                        lemma_page_above(low, g);
                        assert(frame_fits(self.next, r));
                    }
                }
            }
            let region = self.regions[self.index];
            let low = if self.next >= region.start { self.next } else { region.start };
            let start = if low >= PAGE_SIZE { low } else { PAGE_SIZE };
            proof {
                crate::arith::lemma_round_up(start as int, PAGE_SIZE as int);
            }
            let aligned = crate::arith::align_up(start, PAGE_SIZE);
            if let Some(frame) = aligned {
                if let Some(end) = frame.checked_add(PAGE_SIZE) {
                    if end <= region.end {
                        self.next = end;
                        return Some(frame);
                    }
                }
            }
            self.index += 1;
        }
        None
    }
}

} // verus!
