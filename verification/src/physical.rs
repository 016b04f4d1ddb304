use crate::arith::{align_down, align_up, is_pow2, is_power_of_two, round_down, round_up};
use crate::regions::{addr_set, aligned_to, separated, splice, sum_len};
use crate::{Region, PAGE_SIZE};
use vstd::prelude::*;
use vstd::set_lib::set_int_range;

verus! {

#[derive(Debug, Clone, Copy, PartialEq, Eq, Structural)]
pub enum PhysicalMemoryError {
    ReversedRange,
    OverlapOrUnsorted,
    Capacity,
    InvalidRequest,
    InvalidFree,
    Overflow,
}

/// Adds one firmware region to the managed list `m` (merging with a
/// touching last region): its pages from the first page boundary at or
/// above its start, and above the null page, up to the first page boundary
/// at or above its end.
pub open spec fn init_step(m: Seq<Region>, r: Region, n: int) -> Result<
    Seq<Region>,
    PhysicalMemoryError,
> {
    let low = if r.start >= PAGE_SIZE { r.start as int } else { PAGE_SIZE as int };
    if low + PAGE_SIZE - 1 > u64::MAX || r.end + PAGE_SIZE - 1 > u64::MAX {
        Err(PhysicalMemoryError::Overflow)
    } else {
        let start = round_up(low, PAGE_SIZE as int);
        let end = round_up(r.end as int, PAGE_SIZE as int);
        if start >= end {
            Ok(m)
        } else if m.len() > 0 && m.last().end == start {
            Ok(m.update(m.len() - 1, Region { start: m.last().start, end: end as u64 }))
        } else if m.len() >= n {
            Err(PhysicalMemoryError::Capacity)
        } else {
            Ok(m.push(Region { start: start as u64, end: end as u64 }))
        }
    }
}

/// The managed regions built from a firmware map, or the first error met
/// while walking it in order.
pub open spec fn init_regions(s: Seq<Region>, n: int) -> Result<Seq<Region>, PhysicalMemoryError>
    decreases s.len(),
{
    if s.len() == 0 {
        Ok(Seq::empty())
    } else {
        match init_regions(s.drop_last(), n) {
            Err(e) => Err(e),
            Ok(m) => {
                let k = s.len() - 1;
                if s[k].end < s[k].start {
                    Err(PhysicalMemoryError::ReversedRange)
                } else if k > 0 && s[k].start < s[k - 1].end {
                    Err(PhysicalMemoryError::OverlapOrUnsorted)
                } else {
                    init_step(m, s[k], n)
                }
            },
        }
    }
}

/// Region `r` can hold `size` bytes starting at a multiple of `alignment`.
pub open spec fn fits(r: Region, size: int, alignment: int) -> bool {
    &&& r.start + alignment - 1 <= u64::MAX
    &&& round_up(r.start as int, alignment) + size <= r.end
}

/// `k` is the first region of `s` that can hold the request.
pub open spec fn is_first_fit(s: Seq<Region>, size: int, alignment: int, k: int) -> bool {
    &&& 0 <= k < s.len()
    &&& fits(s[k], size, alignment)
    &&& forall|j: int| 0 <= j < k ==> !fits(#[trigger] s[j], size, alignment)
}

/// No region of `s` can hold the request.
pub open spec fn no_fit(s: Seq<Region>, size: int, alignment: int) -> bool {
    forall|j: int| 0 <= j < s.len() ==> !fits(#[trigger] s[j], size, alignment)
}

/// Carving the request out of region `k` leaves free space on both sides.
pub open spec fn splits(s: Seq<Region>, size: int, alignment: int, k: int) -> bool {
    let start = round_up(s[k].start as int, alignment);
    start > s[k].start && start + size < s[k].end
}

/// The half-open address range [lo, hi).
pub open spec fn range(lo: int, hi: int) -> Set<int> {
    set_int_range(lo, hi)
}

/// A permanent physical-memory allocator backed by sorted free ranges.
///
/// The allocator owns its metadata instead of borrowing the firmware map, so it
/// remains valid after early boot. It supports page-aligned allocation, aligned
/// multi-page allocation, freeing and adjacent-range coalescing without a heap.
pub struct PhysicalMemory<const N: usize> {
    managed: Vec<Region>,
    free: Vec<Region>,
    total_bytes: u64,
    free_bytes: u64,
}

impl<const N: usize> PhysicalMemory<N> {
    /// The managed regions, sorted and coalesced.
    pub closed spec fn managed_regions(&self) -> Seq<Region> {
        self.managed@
    }

    /// The free regions, sorted and coalesced.
    pub closed spec fn free_regions(&self) -> Seq<Region> {
        self.free@
    }

    /// Every managed byte address.
    pub open spec fn managed_set(&self) -> Set<int> {
        addr_set(self.managed_regions())
    }

    /// Every free byte address.
    pub open spec fn free_set(&self) -> Set<int> {
        addr_set(self.free_regions())
    }

    pub closed spec fn total_spec(&self) -> int {
        self.total_bytes as int
    }

    pub closed spec fn free_spec(&self) -> int {
        self.free_bytes as int
    }

    /// Well-formedness: both lists are canonical page-aligned decompositions
    /// within capacity, the free set lies inside the managed set above the
    /// null page, and the byte counters match the lists.
    pub closed spec fn wf(&self) -> bool {
        &&& self.managed@.len() <= N
        &&& self.free@.len() <= N
        &&& separated(self.managed@)
        &&& separated(self.free@)
        &&& aligned_to(self.managed@, PAGE_SIZE as int)
        &&& aligned_to(self.free@, PAGE_SIZE as int)
        &&& forall|i: int| 0 <= i < self.managed@.len() ==> #[trigger] self.managed@[i].start >= PAGE_SIZE
        &&& addr_set(self.free@).subset_of(addr_set(self.managed@))
        &&& self.total_bytes == sum_len(self.managed@)
        &&& self.free_bytes == sum_len(self.free@)
    }

    pub proof fn lemma_wf(&self)
        requires
            self.wf(),
        ensures
            self.free_spec() <= self.total_spec(),
            self.free_spec() == sum_len(self.free_regions()),
            self.total_spec() == sum_len(self.managed_regions()),
            separated(self.free_regions()),
            separated(self.managed_regions()),
            self.free_set().subset_of(self.managed_set()),
    {
        crate::regions::lemma_sum_subset(self.free@, self.managed@);
    }
}

/// Rounding up to whole pages keeps order.
proof fn lemma_round_up_monotonic(a: int, b: int)
    requires
        0 <= a <= b,
    ensures
        round_up(a, PAGE_SIZE as int) <= round_up(b, PAGE_SIZE as int),
{
    crate::arith::lemma_round_up(a, PAGE_SIZE as int);
    crate::arith::lemma_round_up(b, PAGE_SIZE as int);
    let x = round_up(a, PAGE_SIZE as int);
    let y = round_up(b, PAGE_SIZE as int);
    if y < x {
        crate::arith::lemma_multiple_sum(x, y, PAGE_SIZE as int);
        assert((x - y) % 4096 == 0);
        assert(x - y >= 4096) by {
            if x - y < 4096 {
                vstd::arithmetic::div_mod::lemma_small_mod((x - y) as nat, 4096);
            }
        }
    }
}

/// An error met while building from a prefix of the map is the final result.
proof fn lemma_init_error_prefix(s: Seq<Region>, i: int, n: int)
    requires
        0 <= i <= s.len(),
        init_regions(s.take(i), n) is Err,
    ensures
        init_regions(s, n) == init_regions(s.take(i), n),
    decreases s.len() - i,
{
    if i == s.len() {
        assert(s.take(i) =~= s);
    } else {
        let p = s.drop_last();
        assert(p.take(i) =~= s.take(i));
        lemma_init_error_prefix(p, i, n);
    }
}

impl<const N: usize> PhysicalMemory<N> {
    pub fn new(regions: &[Region]) -> (r: Result<Self, PhysicalMemoryError>)
        ensures
            match r {
                Ok(memory) => {
                    &&& init_regions(regions@, N as int) == Ok::<Seq<Region>, PhysicalMemoryError>(memory.managed_regions())
                    &&& memory.free_regions() == memory.managed_regions()
                    &&& memory.wf()
                },
                Err(e) => init_regions(regions@, N as int) == Err::<Seq<Region>, PhysicalMemoryError>(e),
            },
    {
        let mut memory = Self { managed: Vec::new(), free: Vec::new(), total_bytes: 0, free_bytes: 0 };
        proof {
            assert(regions@.take(0) =~= Seq::<Region>::empty());
            assert(addr_set(memory.free@) =~= Set::<int>::empty());
        }
        let mut previous_end: u64 = 0;
        let mut i: usize = 0;
        while i < regions.len()
            invariant
                i <= regions@.len(),
                memory.wf(),
                memory.free@ == memory.managed@,
                init_regions(regions@.take(i as int), N as int) == Ok::<Seq<Region>, PhysicalMemoryError>(memory.managed@),
                i == 0 ==> previous_end == 0,
                i > 0 ==> previous_end == regions@[i - 1].end,
                i > 0 ==> previous_end + PAGE_SIZE - 1 <= u64::MAX,
                forall|j: int| 0 <= j < memory.managed@.len() ==> #[trigger] memory.managed@[j].end <= round_up(
                    previous_end as int,
                    PAGE_SIZE as int,
                ),
                i == 0 ==> memory.managed@.len() == 0,
            decreases regions@.len() - i,
        {
            let region = regions[i];
            let ghost s = regions@.take(i + 1);
            proof {
                assert(s.drop_last() =~= regions@.take(i as int));
                assert(s[i as int] == region);
                if i > 0 {
                    assert(s[i - 1] == regions@[i - 1]);
                }
            }
            if region.end < region.start {
                proof {
                    lemma_init_error_prefix(regions@, i + 1, N as int);
                }
                return Err(PhysicalMemoryError::ReversedRange);
            }
            if region.start < previous_end {
                proof {
                    lemma_init_error_prefix(regions@, i + 1, N as int);
                }
                return Err(PhysicalMemoryError::OverlapOrUnsorted);
            }
            let ghost prior = previous_end;
            previous_end = region.end;

            let low = if region.start >= PAGE_SIZE { region.start } else { PAGE_SIZE };
            let start = match align_up(low, PAGE_SIZE) {
                Some(start) => start,
                None => {
                    proof {
                        lemma_init_error_prefix(regions@, i + 1, N as int);
                    }
                    return Err(PhysicalMemoryError::Overflow);
                },
            };
            let end = match align_up(region.end, PAGE_SIZE) {
                Some(end) => end,
                None => {
                    proof {
                        lemma_init_error_prefix(regions@, i + 1, N as int);
                    }
                    return Err(PhysicalMemoryError::Overflow);
                },
            };
            proof {
                crate::arith::lemma_round_up(low as int, PAGE_SIZE as int);
                crate::arith::lemma_round_up(region.end as int, PAGE_SIZE as int);
                if i > 0 {
                    lemma_round_up_monotonic(prior as int, low as int);
                }
            }
            if start >= end {
                i += 1;
                continue;
            }

            match memory.push_initial(Region { start, end }) {
                Ok(()) => {},
                Err(e) => {
                    proof {
                        lemma_init_error_prefix(regions@, i + 1, N as int);
                    }
                    return Err(e);
                },
            }
            i += 1;
        }
        proof {
            assert(regions@.take(regions@.len() as int) =~= regions@);
        }
        Ok(memory)
    }

    fn push_initial(&mut self, region: Region) -> (r: Result<(), PhysicalMemoryError>)
        requires
            old(self).wf(),
            old(self).free@ == old(self).managed@,
            region.start < region.end,
            region.start as int % PAGE_SIZE as int == 0,
            region.end as int % PAGE_SIZE as int == 0,
            region.start >= PAGE_SIZE,
            forall|j: int| 0 <= j < old(self).managed@.len() ==> #[trigger] old(self).managed@[j].end <= region.start,
        ensures
            final(self).wf(),
            final(self).free@ == final(self).managed@,
            ({
                let m = old(self).managed@;
                if m.len() > 0 && m.last().end == region.start {
                    r is Ok && final(self).managed@ == m.update(m.len() - 1, Region { start: m.last().start, end: region.end })
                } else if m.len() >= N {
                    r == Err::<(), PhysicalMemoryError>(PhysicalMemoryError::Capacity) && final(self).managed@ == m
                } else {
                    r is Ok && final(self).managed@ == m.push(region)
                }
            }),
    {
        let ghost m = self.managed@;
        let len = self.managed.len();
        if len > 0 && self.managed[len - 1].end == region.start {
            let mut last = self.managed[len - 1];
            last.end = region.end;
            self.managed.set(len - 1, last);
            self.free.set(len - 1, last);
            proof {
                assert(self.managed@.drop_last() =~= m.drop_last());
                assert(m[len - 1].start < m[len - 1].end);
            }
        } else {
            if self.managed.len() == N || self.free.len() == N {
                return Err(PhysicalMemoryError::Capacity);
            }
            self.managed.push(region);
            self.free.push(region);
            proof {
                assert(self.managed@.drop_last() =~= m);
            }
        }
        proof {
            let n = self.managed@;
            assert(separated(n)) by {
                assert forall|a: int, b: int| 0 <= a < b < n.len() implies #[trigger] n[a].end < #[trigger] n[b].start by {
                    if b == n.len() - 1 && b < m.len() {
                        assert(a < m.len() - 1);
                        assert(m[a].end < m[b].start);
                    } else if b < m.len() {
                        assert(m[a].end < m[b].start);
                    } else {
                        assert(m[a].end <= region.start);
                        if a == m.len() - 1 {
                        }
                    }
                }
            }
            assert(aligned_to(n, PAGE_SIZE as int));
            crate::regions::lemma_sum_fits(n);
            assert(sum_len(n) == sum_len(m) + (region.end - region.start));
        }
        let bytes = region.end - region.start;
        self.total_bytes = match self.total_bytes.checked_add(bytes) {
            Some(v) => v,
            None => return Err(PhysicalMemoryError::Overflow),
        };
        self.free_bytes = match self.free_bytes.checked_add(bytes) {
            Some(v) => v,
            None => return Err(PhysicalMemoryError::Overflow),
        };
        Ok(())
    }

    pub fn total_bytes(&self) -> (r: u64)
        ensures
            r == self.total_spec(),
    {
        self.total_bytes
    }

    pub fn free_bytes(&self) -> (r: u64)
        ensures
            r == self.free_spec(),
    {
        self.free_bytes
    }

    pub fn used_bytes(&self) -> (r: u64)
        requires
            self.wf(),
        ensures
            r == self.total_spec() - self.free_spec(),
    {
        proof {
            self.lemma_wf();
        }
        self.total_bytes - self.free_bytes
    }

    pub fn managed_region_count(&self) -> (r: usize)
        ensures
            r == self.managed_regions().len(),
    {
        self.managed.len()
    }

    pub fn free_region_count(&self) -> (r: usize)
        ensures
            r == self.free_regions().len(),
    {
        self.free.len()
    }
}

impl<const N: usize> PhysicalMemory<N> {
    /// The free list is unchanged.
    pub open spec fn same_free(&self, other: &Self) -> bool {
        &&& self.free_regions() == other.free_regions()
        &&& self.free_spec() == other.free_spec()
    }

    /// The request (`pages`, `align_pages`) is well formed.
    pub open spec fn valid_request(pages: u64, align_pages: u64) -> bool {
        pages != 0 && align_pages != 0 && is_pow2(align_pages as nat)
    }

    /// The byte size and byte alignment of a valid request fit in 64 bits.
    pub open spec fn request_fits(pages: u64, align_pages: u64) -> bool {
        pages * PAGE_SIZE <= u64::MAX && align_pages * PAGE_SIZE <= u64::MAX
    }

    /// Allocation took [start, start + size) out of the free set.
    pub open spec fn took(&self, next: &Self, start: int, size: int) -> bool {
        &&& range(start, start + size).subset_of(self.free_set())
        &&& next.free_set() == self.free_set().difference(range(start, start + size))
        &&& next.free_spec() == self.free_spec() - size
    }

    /// Freeing gave [start, start + size) back to the free set.
    pub open spec fn gave_back(&self, next: &Self, start: int, size: int) -> bool {
        &&& range(start, start + size).disjoint(self.free_set())
        &&& next.free_set() == self.free_set() + range(start, start + size)
        &&& next.free_spec() == self.free_spec() + size
    }

    pub fn allocate_frame(&mut self) -> (r: Result<Option<u64>, PhysicalMemoryError>)
        requires
            old(self).wf(),
        ensures
            final(self).wf(),
            final(self).managed_regions() == old(self).managed_regions(),
            final(self).total_spec() == old(self).total_spec(),
            match r {
                Ok(None) => no_fit(old(self).free_regions(), PAGE_SIZE as int, PAGE_SIZE as int)
                    && final(self).same_free(old(self)),
                Ok(Some(frame)) => {
                    &&& is_first_fit(old(self).free_regions(), PAGE_SIZE as int, PAGE_SIZE as int, 0)
                    &&& frame == old(self).free_regions()[0].start
                    &&& old(self).took(final(self), frame as int, PAGE_SIZE as int)
                },
                Err(_) => false,
            },
    {
        proof {
            assert(is_pow2(1));
            let s = old(self).free@;
            if s.len() > 0 {
                assert(s[0].start as int % PAGE_SIZE as int == 0 && s[0].start < s[0].end && s[0].end as int % PAGE_SIZE as int == 0);
                crate::arith::lemma_round_up(s[0].start as int, PAGE_SIZE as int);
                assert(fits(s[0], PAGE_SIZE as int, PAGE_SIZE as int));
                assert(!splits(s, PAGE_SIZE as int, PAGE_SIZE as int, 0));
            }
        }
        self.allocate_pages(1, 1)
    }

    pub fn allocate_pages(&mut self, pages: u64, align_pages: u64) -> (r: Result<
        Option<u64>,
        PhysicalMemoryError,
    >)
        requires
            old(self).wf(),
        ensures
            final(self).wf(),
            final(self).managed_regions() == old(self).managed_regions(),
            final(self).total_spec() == old(self).total_spec(),
            !Self::valid_request(pages, align_pages) ==> r == Err::<Option<u64>, PhysicalMemoryError>(
                PhysicalMemoryError::InvalidRequest,
            ) && final(self).same_free(old(self)),
            Self::valid_request(pages, align_pages) && !Self::request_fits(pages, align_pages)
                ==> r == Err::<Option<u64>, PhysicalMemoryError>(PhysicalMemoryError::Overflow)
                && final(self).same_free(old(self)),
            Self::valid_request(pages, align_pages) && Self::request_fits(pages, align_pages) ==> {
                let size = pages * PAGE_SIZE;
                let alignment = align_pages * PAGE_SIZE;
                let s = old(self).free_regions();
                &&& no_fit(s, size, alignment) ==> r == Ok::<Option<u64>, PhysicalMemoryError>(None)
                &&& match r {
                    Ok(None) => no_fit(s, size, alignment) && final(self).same_free(old(self)),
                    Ok(Some(start)) => exists|k: int|
                        {
                            &&& is_first_fit(s, size, alignment, k)
                            &&& !(splits(s, size, alignment, k) && s.len() == N)
                            &&& start == round_up(s[k].start as int, alignment)
                            &&& start as int % alignment == 0
                            &&& old(self).took(final(self), start as int, size)
                        },
                    Err(e) => {
                        &&& e == PhysicalMemoryError::Capacity
                        &&& final(self).same_free(old(self))
                        &&& s.len() == N
                        &&& exists|k: int| is_first_fit(s, size, alignment, k) && splits(s, size, alignment, k)
                    },
                }
            },
    {
        if pages == 0 || align_pages == 0 || !is_power_of_two(align_pages) {
            return Err(PhysicalMemoryError::InvalidRequest);
        }

        let size = match pages.checked_mul(PAGE_SIZE) {
            Some(v) => v,
            None => return Err(PhysicalMemoryError::Overflow),
        };
        let alignment = match align_pages.checked_mul(PAGE_SIZE) {
            Some(v) => v,
            None => return Err(PhysicalMemoryError::Overflow),
        };

        let ghost s = self.free@;
        let mut index: usize = 0;
        while index < self.free.len()
            invariant
                self.wf(),
                *self == *old(self),
                s == self.free@,
                size == pages * PAGE_SIZE,
                alignment == align_pages * PAGE_SIZE,
                Self::valid_request(pages, align_pages),
                index <= s.len(),
                forall|j: int| 0 <= j < index ==> !fits(#[trigger] s[j], size as int, alignment as int),
            decreases s.len() - index,
        {
            let region = self.free[index];
            let start = match align_up(region.start, alignment) {
                Some(v) => v,
                None => {
                    index += 1;
                    continue;
                },
            };
            let end = match start.checked_add(size) {
                Some(v) => v,
                None => {
                    index += 1;
                    continue;
                },
            };
            if end > region.end {
                index += 1;
                continue;
            }
            proof {
                assert(fits(s[index as int], size as int, alignment as int));
                assert(is_first_fit(s, size as int, alignment as int, index as int));
            }

            let has_prefix = start > region.start;
            let has_suffix = end < region.end;
            if has_prefix && has_suffix && self.free.len() == N {
                return Err(PhysicalMemoryError::Capacity);
            }

            proof {
                crate::arith::lemma_round_up(region.start as int, alignment as int);
                vstd::arithmetic::mul::lemma_mul_strictly_positive(align_pages as int, PAGE_SIZE as int);
                crate::arith::lemma_mod_of_multiple(start as int, align_pages as int, PAGE_SIZE as int);
                vstd::arithmetic::div_mod::lemma_mod_multiples_basic(pages as int, PAGE_SIZE as int);
                crate::arith::lemma_multiple_sum(start as int, size as int, PAGE_SIZE as int);
                assert(s[index as int].start < s[index as int].end);
                assert(s[index as int].start as int % PAGE_SIZE as int == 0);
            }
            let ghost k = index as int;
            let prefix = Region { start: region.start, end: start };
            let suffix = Region { start: end, end: region.end };
            let ghost mid = if has_prefix && has_suffix {
                seq![prefix, suffix]
            } else if has_prefix {
                seq![prefix]
            } else if has_suffix {
                seq![suffix]
            } else {
                Seq::<Region>::empty()
            };
            if !has_prefix && !has_suffix {
                self.remove_free(index);
            } else if !has_prefix && has_suffix {
                self.free.set(index, suffix);
            } else if has_prefix && !has_suffix {
                self.free.set(index, prefix);
            } else {
                self.free.set(index, prefix);
                match self.insert_free(index + 1, suffix) {
                    Ok(()) => {},
                    Err(e) => return Err(e),
                }
            }
            proof {
                let n = self.free@;
                assert(n =~= splice(s, k, 1, mid));
                let lo = region.start as int;
                let hi = region.end as int;
                if k > 0 {
                    assert(s[k - 1].end < s[k].start);
                }
                if k + 1 < s.len() {
                    assert(s[k].end < s[k + 1].start);
                }
                crate::regions::lemma_splice(s, k, 1, mid, lo, hi);
                let taken = range(start as int, end as int);
                let whole = range(lo, hi);
                crate::regions::lemma_region_in_set(s, k);
                if has_prefix && has_suffix {
                    crate::regions::lemma_pair(prefix, suffix);
                } else if has_prefix {
                    crate::regions::lemma_single(prefix);
                } else if has_suffix {
                    crate::regions::lemma_single(suffix);
                } else {
                    assert(addr_set(mid) =~= Set::<int>::empty());
                }
                assert(addr_set(mid) =~= whole.difference(taken));
                assert(addr_set(n) =~= addr_set(s).difference(taken));
                assert(aligned_to(n, PAGE_SIZE as int));
                assert(addr_set(n).subset_of(addr_set(self.managed@)));
                assert(addr_set(s) =~= addr_set(n) + taken);
                crate::regions::lemma_sum_add_range(n, s, start as int, end as int);
                crate::regions::lemma_addr_set_len(n);
                assert(self.free_bytes == sum_len(s));
            }
            self.free_bytes = self.free_bytes - size;
            return Ok(Some(start));
        }
        Ok(None)
    }

    fn insert_free(&mut self, index: usize, region: Region) -> (r: Result<(), PhysicalMemoryError>)
        requires
            index <= old(self).free@.len(),
        ensures
            old(self).free@.len() >= N ==> r == Err::<(), PhysicalMemoryError>(PhysicalMemoryError::Capacity)
                && *final(self) == *old(self),
            old(self).free@.len() < N ==> r is Ok && final(self).free@ == old(self).free@.insert(index as int, region)
                && final(self).managed@ == old(self).managed@
                && final(self).total_bytes == old(self).total_bytes
                && final(self).free_bytes == old(self).free_bytes,
    {
        if self.free.len() >= N {
            return Err(PhysicalMemoryError::Capacity);
        }
        self.free.insert(index, region);
        Ok(())
    }

    fn remove_free(&mut self, index: usize)
        requires
            index < old(self).free@.len(),
        ensures
            final(self).free@ == old(self).free@.remove(index as int),
            final(self).managed@ == old(self).managed@,
            final(self).total_bytes == old(self).total_bytes,
            final(self).free_bytes == old(self).free_bytes,
    {
        self.free.remove(index);
    }
}

/// Some region of `s` contains all of [start, end).
pub open spec fn contains_range(s: Seq<Region>, start: int, end: int) -> bool {
    exists|i: int| 0 <= i < s.len() && (#[trigger] s[i]).start <= start && end <= s[i].end
}

/// No free region ends at `start` and none starts at `end`, so freeing
/// [start, end) needs a new free-list entry.
pub open spec fn needs_new_entry(s: Seq<Region>, start: int, end: int) -> bool {
    &&& !exists|i: int| 0 <= i < s.len() && (#[trigger] s[i]).end == start
    &&& !exists|i: int| 0 <= i < s.len() && (#[trigger] s[i]).start == end
}


/// Locating the insertion point of [start, ...) in a separated free list.
proof fn lemma_locate_tail(s: Seq<Region>, start: int, index: int)
    requires
        separated(s),
        0 <= index <= s.len(),
        forall|j: int| 0 <= j < index ==> (#[trigger] s[j]).start < start,
        index < s.len() ==> s[index].start >= start,
    ensures
        forall|j: int| index <= j < s.len() ==> (#[trigger] s[j]).start >= start,
{
    assert forall|j: int| index <= j < s.len() implies (#[trigger] s[j]).start >= start by {
        if j > index {
            assert(s[index].end < s[j].start);
            assert(s[index].start < s[index].end);
        }
    }
}

/// With the neighbours of the insertion point clear of [start, end), the
/// whole free list is, and the merge flags say whether any region touches it.
proof fn lemma_locate(s: Seq<Region>, start: int, end: int, index: int, merge_left: bool, merge_right: bool)
    requires
        separated(s),
        start < end,
        0 <= index <= s.len(),
        forall|j: int| 0 <= j < index ==> (#[trigger] s[j]).start < start,
        forall|j: int| index <= j < s.len() ==> (#[trigger] s[j]).start >= start,
        index > 0 ==> s[index - 1].end <= start,
        index < s.len() ==> s[index].start >= end,
        merge_left == (index > 0 && s[index - 1].end == start),
        merge_right == (index < s.len() && s[index].start == end),
    ensures
        range(start, end).disjoint(addr_set(s)),
        (exists|i: int| 0 <= i < s.len() && (#[trigger] s[i]).end == start) == merge_left,
        (exists|i: int| 0 <= i < s.len() && (#[trigger] s[i]).start == end) == merge_right,
{
    let taken = range(start, end);
    assert forall|a: int| taken.contains(a) implies !addr_set(s).contains(a) by {
        if addr_set(s).contains(a) {
            let i = choose|i: int| 0 <= i < s.len() && (#[trigger] s[i]).start <= a < s[i].end;
            if i < index - 1 {
                assert(s[i].end < s[index - 1].start);
            } else if i > index {
                assert(s[index].end < s[i].start);
            }
        }
    }
    if exists|i: int| 0 <= i < s.len() && (#[trigger] s[i]).end == start {
        let i = choose|i: int| 0 <= i < s.len() && (#[trigger] s[i]).end == start;
        assert(s[i].start < s[i].end);
        if i < index - 1 {
            assert(s[i].end < s[index - 1].start);
        }
    }
    if exists|i: int| 0 <= i < s.len() && (#[trigger] s[i]).start == end {
        let i = choose|i: int| 0 <= i < s.len() && (#[trigger] s[i]).start == end;
        if i > index {
            assert(s[index].end < s[i].start);
            assert(s[index].start < s[index].end);
        }
    }
}

/// Coalescing [start, end) with the touching neighbours yields a separated
/// list whose address set gained exactly [start, end).
proof fn lemma_coalesce(
    s: Seq<Region>,
    k: int,
    c: int,
    merged: Region,
    start: int,
    end: int,
    index: int,
    merge_left: bool,
    merge_right: bool,
)
    requires
        separated(s),
        start < end,
        0 <= index <= s.len(),
        index > 0 ==> s[index - 1].end <= start,
        index < s.len() ==> s[index].start >= end,
        merge_left == (index > 0 && s[index - 1].end == start),
        merge_right == (index < s.len() && s[index].start == end),
        k == (if merge_left { index - 1 } else { index }),
        c == (if merge_left { 1int } else { 0int }) + (if merge_right { 1int } else { 0int }),
        merged.start == (if merge_left { s[index - 1].start as int } else { start }),
        merged.end == (if merge_right { s[index].end as int } else { end }),
    ensures
        separated(splice(s, k, c, seq![merged])),
        addr_set(splice(s, k, c, seq![merged])) == addr_set(s) + range(start, end),
{
    let lo = merged.start as int;
    let hi = merged.end as int;
    if merge_left {
        assert(s[index - 1].start < s[index - 1].end);
    }
    if merge_right {
        assert(s[index].start < s[index].end);
    }
    assert(k > 0 ==> s[k - 1].end < lo) by {
        if k > 0 {
            if merge_left {
                assert(s[k - 1].end < s[k].start);
            }
        }
    }
    assert(k + c < s.len() ==> hi < s[k + c].start) by {
        if k + c < s.len() {
            if merge_right {
                assert(s[index].end < s[index + 1].start);
            }
        }
    }
    assert(separated(seq![merged])) by {
        assert(seq![merged][0] == merged);
    }
    crate::regions::lemma_splice(s, k, c, seq![merged], lo, hi);
    crate::regions::lemma_single(merged);
    let window = range(lo, hi);
    let taken = range(start, end);
    if merge_left {
        crate::regions::lemma_region_in_set(s, index - 1);
    }
    if merge_right {
        crate::regions::lemma_region_in_set(s, index);
    }
    assert forall|a: int| window.contains(a) implies (addr_set(s) + taken).contains(a) by {
        if a < start {
            assert(s[index - 1].start <= a < s[index - 1].end);
        } else if a >= end {
            assert(s[index].start <= a < s[index].end);
        }
    }
    assert(addr_set(splice(s, k, c, seq![merged])) =~= addr_set(s) + taken);
}

impl<const N: usize> PhysicalMemory<N> {
    pub fn free_pages(&mut self, start: u64, pages: u64) -> (r: Result<(), PhysicalMemoryError>)
        requires
            old(self).wf(),
        ensures
            final(self).wf(),
            final(self).managed_regions() == old(self).managed_regions(),
            final(self).total_spec() == old(self).total_spec(),
            r is Err ==> final(self).same_free(old(self)),
            (pages == 0 || start < PAGE_SIZE || start % PAGE_SIZE != 0) ==> r == Err::<(), PhysicalMemoryError>(
                PhysicalMemoryError::InvalidFree,
            ),
            !(pages == 0 || start < PAGE_SIZE || start % PAGE_SIZE != 0) ==> {
                let size = pages * PAGE_SIZE;
                let end = start + size;
                let s = old(self).free_regions();
                if size > u64::MAX || end > u64::MAX {
                    r == Err::<(), PhysicalMemoryError>(PhysicalMemoryError::Overflow)
                } else if !contains_range(old(self).managed_regions(), start as int, end) {
                    r == Err::<(), PhysicalMemoryError>(PhysicalMemoryError::InvalidFree)
                } else if !range(start as int, end).disjoint(old(self).free_set()) {
                    r == Err::<(), PhysicalMemoryError>(PhysicalMemoryError::InvalidFree)
                } else if needs_new_entry(s, start as int, end) && s.len() >= N {
                    r == Err::<(), PhysicalMemoryError>(PhysicalMemoryError::Capacity)
                } else {
                    r is Ok && old(self).gave_back(final(self), start as int, size)
                }
            },
    {
        if pages == 0 || start < PAGE_SIZE || start % PAGE_SIZE != 0 {
            return Err(PhysicalMemoryError::InvalidFree);
        }

        let size = match pages.checked_mul(PAGE_SIZE) {
            Some(v) => v,
            None => return Err(PhysicalMemoryError::Overflow),
        };
        let end = match start.checked_add(size) {
            Some(v) => v,
            None => return Err(PhysicalMemoryError::Overflow),
        };
        proof {
            vstd::arithmetic::div_mod::lemma_mod_multiples_basic(pages as int, PAGE_SIZE as int);
            crate::arith::lemma_multiple_sum(start as int, size as int, PAGE_SIZE as int);
        }
        if end % PAGE_SIZE != 0 || !self.is_managed(start, end) {
            return Err(PhysicalMemoryError::InvalidFree);
        }

        let ghost s = self.free@;
        let ghost taken = range(start as int, end as int);
        let len = self.free.len();
        let mut index: usize = 0;
        while index < len && self.free[index].start < start
            invariant
                self.wf(),
                *self == *old(self),
                s == self.free@,
                len == s.len(),
                index <= len,
                forall|j: int| 0 <= j < index ==> (#[trigger] s[j]).start < start,
            decreases len - index,
        {
            index += 1;
        }
        if index > 0 && self.free[index - 1].end > start {
            proof {
                assert(s[index - 1].start < start);
                assert(addr_set(s).contains(start as int));
                assert(taken.contains(start as int));
            }
            return Err(PhysicalMemoryError::InvalidFree);
        }
        if index < len && self.free[index].start < end {
            proof {
                lemma_locate_tail(s, start as int, index as int);
                let a = s[index as int].start as int;
                assert(s[index as int].start < s[index as int].end);
                assert(addr_set(s).contains(a));
                assert(taken.contains(a));
            }
            return Err(PhysicalMemoryError::InvalidFree);
        }
        let merge_left = index > 0 && self.free[index - 1].end == start;
        let merge_right = index < len && self.free[index].start == end;
        proof {
            lemma_locate_tail(s, start as int, index as int);
            lemma_locate(s, start as int, end as int, index as int, merge_left, merge_right);
        }

        let ghost k: int;
        let ghost c: int;
        let ghost lo: int;
        let ghost hi: int;
        let ghost merged: Region;
        if merge_left && merge_right {
            let left = self.free[index - 1];
            let right = self.free[index];
            let joined = Region { start: left.start, end: right.end };
            self.free.set(index - 1, joined);
            self.remove_free(index);
            proof {
                k = index - 1;
                c = 2;
                merged = joined;
                assert(self.free@ =~= splice(s, k, c, seq![joined]));
            }
        } else if merge_left && !merge_right {
            let left = self.free[index - 1];
            let joined = Region { start: left.start, end };
            self.free.set(index - 1, joined);
            proof {
                k = index - 1;
                c = 1;
                merged = joined;
                assert(self.free@ =~= splice(s, k, c, seq![joined]));
            }
        } else if !merge_left && merge_right {
            let right = self.free[index];
            let joined = Region { start, end: right.end };
            self.free.set(index, joined);
            proof {
                k = index as int;
                c = 1;
                merged = joined;
                assert(self.free@ =~= splice(s, k, c, seq![joined]));
            }
        } else {
            let joined = Region { start, end };
            match self.insert_free(index, joined) {
                Ok(()) => {},
                Err(e) => return Err(e),
            }
            proof {
                k = index as int;
                c = 0;
                merged = joined;
                assert(self.free@ =~= splice(s, k, c, seq![joined]));
            }
        }
        proof {
            let n = self.free@;
            lemma_coalesce(s, k, c, merged, start as int, end as int, index as int, merge_left, merge_right);
            assert(aligned_to(n, PAGE_SIZE as int));
            assert(addr_set(n).subset_of(addr_set(self.managed@))) by {
                let i = choose|i: int| 0 <= i < self.managed@.len() && (#[trigger] self.managed@[i]).start <= start && end <= self.managed@[i].end;
                assert forall|a: int| taken.contains(a) implies addr_set(self.managed@).contains(a) by {
                    assert(self.managed@[i].start <= a < self.managed@[i].end);
                }
            }
            crate::regions::lemma_sum_add_range(s, n, start as int, end as int);
            crate::regions::lemma_sum_subset(n, self.managed@);
        }

        self.free_bytes = match self.free_bytes.checked_add(size) {
            Some(v) => v,
            None => return Err(PhysicalMemoryError::Overflow),
        };
        if self.free_bytes > self.total_bytes {
            return Err(PhysicalMemoryError::InvalidFree);
        }
        Ok(())
    }

    fn is_managed(&self, start: u64, end: u64) -> (r: bool)
        ensures
            r == contains_range(self.managed@, start as int, end as int),
    {
        let mut i: usize = 0;
        while i < self.managed.len()
            invariant
                i <= self.managed@.len(),
                forall|j: int| 0 <= j < i ==> !((#[trigger] self.managed@[j]).start <= start && end <= self.managed@[j].end),
            decreases self.managed@.len() - i,
        {
            let region = self.managed[i];
            if region.start <= start && end <= region.end {
                return true;
            }
            i += 1;
        }
        false
    }
}

impl<const N: usize> PhysicalMemory<N> {
    /// Allocation never hands out the null page or memory outside the managed
    /// regions, and what it hands out is no longer free.
    pub proof fn law_allocation_is_managed(&self, next: &Self, start: int, size: int)
        requires
            self.wf(),
            next.wf(),
            size > 0,
            self.took(next, start, size),
        ensures
            start >= PAGE_SIZE,
            range(start, start + size).subset_of(self.managed_set()),
            range(start, start + size).disjoint(next.free_set()),
    {
        assert(self.free_set().contains(start));
        assert(self.managed_set().contains(start));
        let i = choose|i: int| 0 <= i < self.managed@.len() && (#[trigger] self.managed@[i]).start <= start < self.managed@[i].end;
        assert(self.managed@[i].start >= PAGE_SIZE);
    }

    /// Freeing exactly what an allocation took restores the free set and the
    /// free byte count.
    pub proof fn law_free_undoes_allocate(&self, mid: &Self, after: &Self, start: int, size: int)
        requires
            self.took(mid, start, size),
            mid.gave_back(after, start, size),
        ensures
            after.free_set() == self.free_set(),
            after.free_spec() == self.free_spec(),
    {
        assert(after.free_set() =~= self.free_set());
    }

    /// A well-formed allocator keeps its free ranges sorted, disjoint and
    /// never touching (so fully coalesced), page-aligned, within the managed
    /// memory and no more than `N` of them, and never has more free bytes
    /// than it manages.
    pub proof fn law_free_list_shape(&self)
        requires
            self.wf(),
        ensures
            separated(self.free_regions()),
            separated(self.managed_regions()),
            aligned_to(self.free_regions(), PAGE_SIZE as int),
            self.free_regions().len() <= N,
            self.free_set().subset_of(self.managed_set()),
            self.free_spec() == sum_len(self.free_regions()),
            self.free_spec() <= self.total_spec(),
    {
        crate::regions::lemma_sum_subset(self.free@, self.managed@);
    }

    /// Freeing exactly what an allocation just took is accepted: one managed
    /// region holds the range, none of it is free, and the free list never
    /// runs out of room for it (the range either touches a free neighbour,
    /// or it was a whole free region, so the list is one entry shorter).
    pub proof fn law_free_after_allocate_fits(&self, mid: &Self, start: int, size: int)
        requires
            self.wf(),
            mid.wf(),
            self.took(mid, start, size),
            mid.managed_regions() == self.managed_regions(),
            size > 0,
        ensures
            contains_range(mid.managed_regions(), start, start + size),
            range(start, start + size).disjoint(mid.free_set()),
            !(needs_new_entry(mid.free_regions(), start, start + size) && mid.free_regions().len() >= N),
    {
        let g = self.managed@;
        let b0 = start + size;
        assert(range(start, b0).contains(start));
        assert(addr_set(g).contains(start));
        let k0 = choose|k: int| 0 <= k < g.len() && (#[trigger] g[k]).start <= start < g[k].end;
        if b0 > g[k0].end {
            let e = g[k0].end as int;
            assert(range(start, b0).contains(e));
            assert(addr_set(self.free@).contains(e));
            assert(addr_set(g).contains(e));
            let m = choose|m: int| 0 <= m < g.len() && (#[trigger] g[m]).start <= e < g[m].end;
            if m < k0 {
                assert(g[m].end < g[k0].start);
            } else if m > k0 {
                assert(g[k0].end < g[m].start);
            }
        }
        assert(contains_range(mid.managed_regions(), start, b0));
        let s = self.free@;
        let t = mid.free@;
        let b = start + size;
        if needs_new_entry(t, start, b) {
            assert(range(start, b).contains(start));
            assert(addr_set(s).contains(start));
            let k = choose|k: int| 0 <= k < s.len() && (#[trigger] s[k]).start <= start < s[k].end;
            if b > s[k].end {
                let e = s[k].end as int;
                assert(range(start, b).contains(e));
                assert(addr_set(s).contains(e));
                let m = choose|m: int| 0 <= m < s.len() && (#[trigger] s[m]).start <= e < s[m].end;
                if m < k {
                    assert(s[m].end < s[k].start);
                } else if m > k {
                    assert(s[k].end < s[m].start);
                }
            }
            if s[k].start < start {
                let x = start - 1;
                assert(addr_set(s).contains(x));
                assert(!range(start, b).contains(x));
                assert(addr_set(t).contains(x));
                let i = choose|i: int| 0 <= i < t.len() && (#[trigger] t[i]).start <= x < t[i].end;
                assert(!addr_set(t).contains(start));
                if t[i].end > start {
                    assert(addr_set(t).contains(start));
                }
                assert(t[i].end == start);
            }
            if b < s[k].end {
                assert(addr_set(s).contains(b));
                assert(!range(start, b).contains(b));
                assert(addr_set(t).contains(b));
                let i = choose|i: int| 0 <= i < t.len() && (#[trigger] t[i]).start <= b < t[i].end;
                assert(range(start, b).contains(b - 1));
                assert(!addr_set(t).contains(b - 1));
                if t[i].start < b {
                    assert(addr_set(t).contains(b - 1));
                }
                assert(t[i].start == b);
            }
            let r = s.remove(k);
            assert(separated(r)) by {
                assert forall|i: int| 0 <= i < r.len() implies #[trigger] r[i].start < r[i].end by {
                    if i < k {
                        assert(r[i] == s[i]);
                    } else {
                        assert(r[i] == s[i + 1]);
                    }
                }
                assert forall|i: int, j: int| 0 <= i < j < r.len() implies #[trigger] r[i].end < #[trigger] r[j].start by {
                    let i2 = if i < k { i } else { i + 1 };
                    let j2 = if j < k { j } else { j + 1 };
                    assert(r[i] == s[i2]);
                    assert(r[j] == s[j2]);
                }
            }
            assert(addr_set(r) =~= addr_set(t)) by {
                assert forall|x: int| addr_set(r).contains(x) implies addr_set(t).contains(x) by {
                    let i = choose|i: int| 0 <= i < r.len() && (#[trigger] r[i]).start <= x < r[i].end;
                    let i2 = if i < k { i } else { i + 1 };
                    assert(r[i] == s[i2]);
                    assert(addr_set(s).contains(x));
                    if i2 < k {
                        assert(s[i2].end < s[k].start);
                    } else {
                        assert(s[k].end < s[i2].start);
                    }
                    assert(!range(start, b).contains(x));
                }
                assert forall|x: int| addr_set(t).contains(x) implies addr_set(r).contains(x) by {
                    assert(addr_set(s).contains(x));
                    assert(!range(start, b).contains(x));
                    let m = choose|m: int| 0 <= m < s.len() && (#[trigger] s[m]).start <= x < s[m].end;
                    assert(m != k);
                    let m2 = if m < k { m } else { m - 1 };
                    assert(r[m2] == s[m]);
                }
            }
            crate::regions::lemma_canonical(r, t);
        }
    }

    /// The free list is determined by the set of free addresses: adjacent free
    /// ranges are always coalesced. In particular, once every managed byte is
    /// free again, the free list equals the managed list.
    pub proof fn law_free_list_is_canonical(&self, other: &Self)
        requires
            self.wf(),
            other.wf(),
            self.free_set() == other.free_set(),
        ensures
            self.free_regions() == other.free_regions(),
    {
        crate::regions::lemma_canonical(self.free@, other.free@);
    }

    /// When all managed memory is free, there is one free region per managed
    /// region and the free byte count equals the total.
    pub proof fn law_fully_free_is_coalesced(&self)
        requires
            self.wf(),
            self.free_set() == self.managed_set(),
        ensures
            self.free_regions() == self.managed_regions(),
            self.free_spec() == self.total_spec(),
    {
        crate::regions::lemma_canonical(self.free@, self.managed@);
    }
}

} // verus!
