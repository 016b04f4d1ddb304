//! The kernel heap: a first-fit allocator over a sorted list of free
//! address ranges, coalesced on release.

use vstd::prelude::*;
use crate::arith::{round_up, lemma_round_up};

verus! {

/// The most free ranges the heap keeps track of.
pub const MAX_FREE_RANGES: usize = 256;

/// A free address range [start, end).
#[derive(Clone, Copy, Debug, PartialEq, Eq, Structural)]
pub struct Range {
    pub start: usize,
    pub end: usize,
}

/// Why a release of a block would corrupt the heap.
#[derive(Clone, Copy, Debug, PartialEq, Eq, Structural)]
pub enum HeapError {
    NotInitialized,
    AddressOverflow,
    OutsideHeap,
    Overlap,
    MetadataExhausted,
}

/// The text that describes `e`.
pub open spec fn heap_text(e: HeapError) -> Seq<char> {
    match e {
        HeapError::NotInitialized => "kernel heap deallocation before init"@,
        HeapError::AddressOverflow => "kernel heap deallocation overflow"@,
        HeapError::OutsideHeap => "kernel heap deallocation outside heap"@,
        HeapError::Overlap => "kernel heap double free or overlap"@,
        HeapError::MetadataExhausted => "kernel heap free-range metadata exhausted"@,
    }
}

impl HeapError {
    /// A one-line description of the error.
    pub fn message(&self) -> (r: &'static str)
        ensures
            r@ == heap_text(*self),
    {
        match self {
            HeapError::NotInitialized => "kernel heap deallocation before init",
            HeapError::AddressOverflow => "kernel heap deallocation overflow",
            HeapError::OutsideHeap => "kernel heap deallocation outside heap",
            HeapError::Overlap => "kernel heap double free or overlap",
            HeapError::MetadataExhausted => "kernel heap free-range metadata exhausted",
        }
    }
}

/// The number of bytes in `r`.
pub open spec fn span(r: Range) -> int {
    r.end - r.start
}

/// The number of bytes in all of `s`.
pub open spec fn total(s: Seq<Range>) -> int
    decreases s.len(),
{
    if s.len() == 0 {
        0
    } else {
        total(s.drop_last()) + span(s.last())
    }
}

/// Every range of `s` is non-empty and inside [lo, hi); the ranges come in
/// address order with a gap between any two.
pub open spec fn ranges_ok(s: Seq<Range>, lo: int, hi: int) -> bool {
    &&& forall|k: int| 0 <= k < s.len() ==> lo <= (#[trigger] s[k]).start < s[k].end <= hi
    &&& forall|j: int, k: int| 0 <= j < k < s.len() ==> (#[trigger] s[j]).end < (#[trigger] s[k]).start
}

/// A request of `size` bytes takes at least one byte.
pub open spec fn block_size(size: int) -> int {
    if size == 0 {
        1
    } else {
        size
    }
}

/// First fit from range `i` on: the range that serves a block of `size`
/// bytes aligned to `align`, and the block's start. A range is passed over
/// when the block does not fit in it, or when serving it would split it in
/// two while the list is `full`. Address overflow ends the search.
pub open spec fn fit(s: Seq<Range>, i: int, size: int, align: int, full: bool) -> Option<(int, int)>
    decreases s.len() - i,
{
    if i < 0 || i >= s.len() {
        None
    } else if s[i].start + align - 1 > usize::MAX {
        None
    } else if round_up(s[i].start as int, align) + size > usize::MAX {
        None
    } else {
        let st = round_up(s[i].start as int, align);
        let en = st + size;
        if en > s[i].end || (st > s[i].start && en < s[i].end && full) {
            fit(s, i + 1, size, align, full)
        } else {
            Some((i, st))
        }
    }
}

/// The free list once block [st, en) is taken out of range `i`.
pub open spec fn carve(s: Seq<Range>, i: int, st: int, en: int) -> Seq<Range> {
    let r = s[i];
    if st <= r.start && en >= r.end {
        s.remove(i)
    } else if st <= r.start {
        s.update(i, Range { start: en as usize, end: r.end })
    } else if en >= r.end {
        s.update(i, Range { start: r.start, end: st as usize })
    } else {
        s.update(i, Range { start: r.start, end: st as usize }).insert(
            i + 1,
            Range { start: en as usize, end: r.end },
        )
    }
}

/// The number of ranges of the sorted list `s` that start below `start`.
pub open spec fn insertion_index(s: Seq<Range>, start: int) -> int
    decreases s.len(),
{
    if s.len() == 0 {
        0
    } else if s.last().start < start {
        s.len() as int
    } else {
        insertion_index(s.drop_last(), start)
    }
}

/// The free list once block [start, end) is given back, merged with the
/// free ranges it touches.
pub open spec fn coalesce(s: Seq<Range>, start: int, end: int) -> Seq<Range> {
    let k = insertion_index(s, start);
    let left = k > 0 && s[k - 1].end == start;
    let right = k < s.len() && s[k].start == end;
    if left && right {
        s.update(k - 1, Range { start: s[k - 1].start, end: s[k].end }).remove(k)
    } else if left {
        s.update(k - 1, Range { start: s[k - 1].start, end: end as usize })
    } else if right {
        s.update(k, Range { start: start as usize, end: s[k].end })
    } else {
        s.insert(k, Range { start: start as usize, end: end as usize })
    }
}

/// The error, if any, that a release of `size` bytes at `start` meets: a heap
/// not set up yet, a block past the end of the address space or outside the
/// heap, a block that overlaps free memory, or no room for one more range.
pub open spec fn release_error(
    initialized: bool,
    s: Seq<Range>,
    lo: int,
    hi: int,
    start: int,
    size: int,
) -> Option<HeapError> {
    let n = block_size(size);
    if !initialized {
        Some(HeapError::NotInitialized)
    } else if start + n > usize::MAX {
        Some(HeapError::AddressOverflow)
    } else if start < lo || start + n > hi {
        Some(HeapError::OutsideHeap)
    } else if exists|k: int| 0 <= k < s.len() && !((#[trigger] s[k]).end <= start || start + n <= s[k].start) {
        Some(HeapError::Overlap)
    } else if s.len() == MAX_FREE_RANGES && !exists|k: int|
        0 <= k < s.len() && ((#[trigger] s[k]).end == start || s[k].start == start + n) {
        Some(HeapError::MetadataExhausted)
    } else {
        None
    }
}

proof fn lemma_total_update(s: Seq<Range>, i: int, r: Range)
    requires
        0 <= i < s.len(),
    ensures
        total(s.update(i, r)) == total(s) - span(s[i]) + span(r),
    decreases s.len(),
{
    let t = s.update(i, r);
    if i == s.len() - 1 {
        assert(t.drop_last() =~= s.drop_last());
    } else {
        assert(t.drop_last() =~= s.drop_last().update(i, r));
        lemma_total_update(s.drop_last(), i, r);
    }
}

proof fn lemma_total_insert(s: Seq<Range>, i: int, r: Range)
    requires
        0 <= i <= s.len(),
    ensures
        total(s.insert(i, r)) == total(s) + span(r),
    decreases s.len(),
{
    let t = s.insert(i, r);
    if i == s.len() {
        assert(t.drop_last() =~= s);
    } else {
        assert(t.drop_last() =~= s.drop_last().insert(i, r));
        assert(t.last() == s.last());
        lemma_total_insert(s.drop_last(), i, r);
    }
}

proof fn lemma_total_remove(s: Seq<Range>, i: int)
    requires
        0 <= i < s.len(),
    ensures
        total(s.remove(i)) == total(s) - span(s[i]),
{
    assert(s.remove(i).insert(i, s[i]) =~= s);
    lemma_total_insert(s.remove(i), i, s[i]);
}

/// The free bytes of a well-formed list never exceed the heap's size.
pub proof fn lemma_total_bound(s: Seq<Range>, lo: int, hi: int)
    requires
        ranges_ok(s, lo, hi),
    ensures
        0 <= total(s),
        s.len() > 0 ==> total(s) <= s.last().end - lo,
        s.len() > 0 ==> total(s) <= hi - lo,
    decreases s.len(),
{
    if s.len() > 0 {
        let d = s.drop_last();
        assert(ranges_ok(d, lo, hi)) by {
            assert forall|k: int| 0 <= k < d.len() implies lo <= (#[trigger] d[k]).start < d[k].end <= hi by {
                assert(d[k] == s[k]);
            }
            assert forall|j: int, k: int| 0 <= j < k < d.len() implies (#[trigger] d[j]).end < (
            #[trigger] d[k]).start by {
                assert(d[j] == s[j] && d[k] == s[k]);
            }
        }
        lemma_total_bound(d, lo, hi);
        if d.len() > 0 {
            assert(d.last() == s[s.len() - 2]);
            assert(s[s.len() - 2].end < s[s.len() - 1].start);
        }
        assert(lo <= s[s.len() - 1].start);
    }
}

proof fn lemma_insertion_index(s: Seq<Range>, start: int, k: int, lo: int, hi: int)
    requires
        ranges_ok(s, lo, hi),
        0 <= k <= s.len(),
        forall|j: int| 0 <= j < k ==> (#[trigger] s[j]).start < start,
        k < s.len() ==> s[k].start >= start,
    ensures
        insertion_index(s, start) == k,
    decreases s.len(),
{
    if s.len() > 0 && k < s.len() {
        let n = s.len() - 1;
        assert(s[n].start >= start) by {
            if k < n {
                assert(s[k].end < s[n].start);
                assert(s[k].start < s[k].end);
            }
        }
        let d = s.drop_last();
        assert(ranges_ok(d, lo, hi)) by {
            assert forall|i: int| 0 <= i < d.len() implies lo <= (#[trigger] d[i]).start < d[i].end <= hi by {
                assert(d[i] == s[i]);
            }
            assert forall|i: int, j: int| 0 <= i < j < d.len() implies (#[trigger] d[i]).end < (
            #[trigger] d[j]).start by {
                assert(d[i] == s[i] && d[j] == s[j]);
            }
        }
        assert forall|j: int| 0 <= j < k implies (#[trigger] d[j]).start < start by {
            assert(d[j] == s[j]);
        }
        if k < d.len() {
            assert(d[k] == s[k]);
        }
        lemma_insertion_index(d, start, k, lo, hi);
    }
}

/// Carving a block out of a free range keeps the list well formed and takes
/// the block's bytes from the free total.
proof fn lemma_carve(s: Seq<Range>, i: int, st: int, en: int, lo: int, hi: int)
    requires
        ranges_ok(s, lo, hi),
        0 <= i < s.len(),
        s[i].start <= st < en <= s[i].end,
        st > s[i].start && en < s[i].end ==> s.len() < MAX_FREE_RANGES,
        s.len() <= MAX_FREE_RANGES,
    ensures
        ranges_ok(carve(s, i, st, en), lo, hi),
        total(carve(s, i, st, en)) == total(s) - (en - st),
        carve(s, i, st, en).len() <= MAX_FREE_RANGES,
        forall|k: int|
            0 <= k < carve(s, i, st, en).len() ==> (#[trigger] carve(s, i, st, en)[k]).end <= st || en
                <= carve(s, i, st, en)[k].start,
{
    let r = s[i];
    let c = carve(s, i, st, en);
    if st <= r.start && en >= r.end {
        lemma_total_remove(s, i);
        assert forall|k: int| 0 <= k < c.len() implies lo <= (#[trigger] c[k]).start < c[k].end <= hi by {
            if k < i {
                assert(c[k] == s[k]);
            } else {
                assert(c[k] == s[k + 1]);
            }
        }
        assert forall|a: int, b: int| 0 <= a < b < c.len() implies (#[trigger] c[a]).end < (
        #[trigger] c[b]).start by {
            let a2 = if a < i { a } else { a + 1 };
            let b2 = if b < i { b } else { b + 1 };
            assert(c[a] == s[a2] && c[b] == s[b2]);
        }
        assert forall|k: int| 0 <= k < c.len() implies (#[trigger] c[k]).end <= st || en <= c[k].start by {
            let k2 = if k < i { k } else { k + 1 };
            assert(c[k] == s[k2]);
            if k2 < i {
                assert(s[k2].end < s[i].start);
            } else {
                assert(s[i].end < s[k2].start);
            }
        }
    } else if st <= r.start {
        lemma_total_update(s, i, Range { start: en as usize, end: r.end });
        assert forall|a: int, b: int| 0 <= a < b < c.len() implies (#[trigger] c[a]).end < (
        #[trigger] c[b]).start by {
            assert(s[a].end < s[b].start);
        }
        assert forall|k: int| 0 <= k < c.len() implies (#[trigger] c[k]).end <= st || en <= c[k].start by {
            if k < i {
                assert(s[k].end < s[i].start);
            } else if k > i {
                assert(s[i].end < s[k].start);
            }
        }
    } else if en >= r.end {
        lemma_total_update(s, i, Range { start: r.start, end: st as usize });
        assert forall|a: int, b: int| 0 <= a < b < c.len() implies (#[trigger] c[a]).end < (
        #[trigger] c[b]).start by {
            assert(s[a].end < s[b].start);
        }
        assert forall|k: int| 0 <= k < c.len() implies (#[trigger] c[k]).end <= st || en <= c[k].start by {
            if k < i {
                assert(s[k].end < s[i].start);
            } else if k > i {
                assert(s[i].end < s[k].start);
            }
        }
    } else {
        let u = s.update(i, Range { start: r.start, end: st as usize });
        let piece = Range { start: en as usize, end: r.end };
        lemma_total_update(s, i, Range { start: r.start, end: st as usize });
        lemma_total_insert(u, i + 1, piece);
        assert forall|k: int| 0 <= k < c.len() implies lo <= (#[trigger] c[k]).start < c[k].end <= hi by {
            if k <= i {
                assert(c[k] == u[k]);
            } else if k > i + 1 {
                assert(c[k] == s[k - 1]);
            }
        }
        assert forall|a: int, b: int| 0 <= a < b < c.len() implies (#[trigger] c[a]).end < (
        #[trigger] c[b]).start by {
            let a2 = if a <= i { a } else { a - 1 };
            let b2 = if b <= i { b } else { b - 1 };
            if a2 != b2 {
                assert(s[a2].end < s[b2].start);
            }
        }
        assert forall|k: int| 0 <= k < c.len() implies (#[trigger] c[k]).end <= st || en <= c[k].start by {
            if k < i {
                assert(s[k].end < s[i].start);
            } else if k > i + 1 {
                assert(s[i].end < s[k - 1].start);
            }
        }
    }
}

/// Giving back a block that overlaps no free range keeps the list well
/// formed and adds the block's bytes to the free total.
proof fn lemma_coalesce(s: Seq<Range>, start: int, end: int, lo: int, hi: int)
    requires
        ranges_ok(s, lo, hi),
        0 <= lo <= start < end <= hi,
        end <= usize::MAX,
        s.len() <= MAX_FREE_RANGES,
        forall|k: int| 0 <= k < s.len() ==> (#[trigger] s[k]).end <= start || end <= s[k].start,
        s.len() == MAX_FREE_RANGES ==> exists|k: int|
            0 <= k < s.len() && ((#[trigger] s[k]).end == start || s[k].start == end),
    ensures
        ranges_ok(coalesce(s, start, end), lo, hi),
        total(coalesce(s, start, end)) == total(s) + (end - start),
        coalesce(s, start, end).len() <= MAX_FREE_RANGES,
{
    let k = insertion_index(s, start);
    assert(0 <= k <= s.len() && (forall|j: int| 0 <= j < k ==> (#[trigger] s[j]).start < start) && (k
        < s.len() ==> s[k].start >= start)) by {
        lemma_insertion_facts(s, start, lo, hi);
    }
    if k > 0 {
        assert(s[k - 1].end <= start);
    }
    if k < s.len() {
        assert(end <= s[k].start);
    }
    let left = k > 0 && s[k - 1].end == start;
    let right = k < s.len() && s[k].start == end;
    let c = coalesce(s, start, end);
    if s.len() == MAX_FREE_RANGES {
        let w = choose|w: int| 0 <= w < s.len() && ((#[trigger] s[w]).end == start || s[w].start == end);
        if s[w].end == start {
            assert(w == k - 1) by {
                assert(s[w].start < s[w].end);
                if w < k - 1 {
                    assert(s[w].end < s[k - 1].start);
                }
                if w >= k {
                    assert(s[w].start >= start);
                }
            }
        } else {
            assert(w == k) by {
                if w < k {
                    assert(s[w].start < start);
                }
                if w > k {
                    assert(s[k].end < s[w].start);
                    assert(s[k].start < s[k].end);
                }
            }
        }
        assert(left || right);
    }
    if left && right {
        let u = s.update(k - 1, Range { start: s[k - 1].start, end: s[k].end });
        lemma_total_update(s, k - 1, Range { start: s[k - 1].start, end: s[k].end });
        lemma_total_remove(u, k);
        assert forall|a: int| 0 <= a < c.len() implies lo <= (#[trigger] c[a]).start < c[a].end <= hi by {
            if a < k - 1 {
                assert(c[a] == s[a]);
            } else if a > k - 1 {
                assert(c[a] == s[a + 1]);
            }
        }
        assert forall|a: int, b: int| 0 <= a < b < c.len() implies (#[trigger] c[a]).end < (
        #[trigger] c[b]).start by {
            let a2 = if a < k { a } else { a + 1 };
            let b2 = if b < k { b } else { b + 1 };
            if a == k - 1 {
                assert(s[k].end < s[b2].start);
            } else if b == k - 1 {
                assert(s[a2].end < s[k - 1].start);
            } else {
                assert(s[a2].end < s[b2].start);
            }
        }
    } else if left {
        lemma_total_update(s, k - 1, Range { start: s[k - 1].start, end: end as usize });
        assert forall|a: int, b: int| 0 <= a < b < c.len() implies (#[trigger] c[a]).end < (
        #[trigger] c[b]).start by {
            if a == k - 1 {
                if b > k {
                    assert(s[k].end < s[b].start);
                    assert(s[k].start < s[k].end);
                }
            } else if b == k - 1 {
                assert(s[a].end < s[k - 1].start);
            } else {
                assert(s[a].end < s[b].start);
            }
        }
    } else if right {
        lemma_total_update(s, k, Range { start: start as usize, end: s[k].end });
        assert forall|a: int, b: int| 0 <= a < b < c.len() implies (#[trigger] c[a]).end < (
        #[trigger] c[b]).start by {
            if b == k {
                if a < k - 1 {
                    assert(s[a].end < s[k - 1].start);
                    assert(s[k - 1].start < s[k - 1].end);
                }
            } else if a == k {
                assert(s[k].end < s[b].start);
            } else {
                assert(s[a].end < s[b].start);
            }
        }
    } else {
        let piece = Range { start: start as usize, end: end as usize };
        lemma_total_insert(s, k, piece);
        assert forall|a: int| 0 <= a < c.len() implies lo <= (#[trigger] c[a]).start < c[a].end <= hi by {
            if a < k {
                assert(c[a] == s[a]);
            } else if a > k {
                assert(c[a] == s[a - 1]);
            }
        }
        assert forall|a: int, b: int| 0 <= a < b < c.len() implies (#[trigger] c[a]).end < (
        #[trigger] c[b]).start by {
            let a2 = if a < k { a } else { a - 1 };
            let b2 = if b < k { b } else { b - 1 };
            if a == k {
                assert(c[b] == s[b2]);
                if b2 > k {
                    assert(s[k].end < s[b2].start);
                    assert(s[k].start < s[k].end);
                }
            } else if b == k {
                assert(c[a] == s[a2]);
                if a2 < k - 1 {
                    assert(s[a2].end < s[k - 1].start);
                    assert(s[k - 1].start < s[k - 1].end);
                }
            } else {
                assert(c[a] == s[a2] && c[b] == s[b2]);
                assert(s[a2].end < s[b2].start);
            }
        }
    }
}

proof fn lemma_insertion_facts(s: Seq<Range>, start: int, lo: int, hi: int)
    requires
        ranges_ok(s, lo, hi),
    ensures
        0 <= insertion_index(s, start) <= s.len(),
        forall|j: int| 0 <= j < insertion_index(s, start) ==> (#[trigger] s[j]).start < start,
        insertion_index(s, start) < s.len() ==> s[insertion_index(s, start)].start >= start,
    decreases s.len(),
{
    if s.len() > 0 {
        let n = s.len() - 1;
        if s.last().start < start {
            assert forall|j: int| 0 <= j < s.len() implies (#[trigger] s[j]).start < start by {
                if j < n {
                    assert(s[j].end < s[n].start);
                }
            }
        } else {
            let d = s.drop_last();
            assert(ranges_ok(d, lo, hi)) by {
                assert forall|i: int| 0 <= i < d.len() implies lo <= (#[trigger] d[i]).start < d[i].end
                    <= hi by {
                    assert(d[i] == s[i]);
                }
                assert forall|i: int, j: int| 0 <= i < j < d.len() implies (#[trigger] d[i]).end < (
                #[trigger] d[j]).start by {
                    assert(d[i] == s[i] && d[j] == s[j]);
                }
            }
            lemma_insertion_facts(d, start, lo, hi);
            let k = insertion_index(d, start);
            assert forall|j: int| 0 <= j < k implies (#[trigger] s[j]).start < start by {
                assert(d[j] == s[j]);
            }
            if k < d.len() {
                assert(d[k] == s[k]);
            }
        }
    }
}

proof fn lemma_carve_index(s: Seq<Range>, i: int, st: int, en: int, lo: int, hi: int)
    requires
        ranges_ok(s, lo, hi),
        0 <= lo,
        0 <= i < s.len(),
        s[i].start <= st < en <= s[i].end,
        st > s[i].start && en < s[i].end ==> s.len() < MAX_FREE_RANGES,
        s.len() <= MAX_FREE_RANGES,
    ensures
        insertion_index(carve(s, i, st, en), st) == if st > s[i].start { i + 1 } else { i },
{
    lemma_carve(s, i, st, en, lo, hi);
    let c = carve(s, i, st, en);
    let k = if st > s[i].start { i + 1 } else { i };
    assert forall|j: int| 0 <= j < k implies (#[trigger] c[j]).start < st by {
        if j < i {
            assert(c[j] == s[j]);
            assert(s[j].end < s[i].start);
            assert(s[j].start < s[j].end);
        }
    }
    if k < c.len() {
        if st <= s[i].start && en >= s[i].end {
            assert(c[k] == s[i + 1]);
            assert(s[i].end < s[i + 1].start);
        }
    }
    lemma_insertion_index(c, st, k, lo, hi);
}

proof fn lemma_coalesce_carve(s: Seq<Range>, i: int, st: int, en: int, lo: int, hi: int)
    requires
        ranges_ok(s, lo, hi),
        0 <= lo,
        0 <= i < s.len(),
        s[i].start <= st < en <= s[i].end,
        st > s[i].start && en < s[i].end ==> s.len() < MAX_FREE_RANGES,
        s.len() <= MAX_FREE_RANGES,
    ensures
        coalesce(carve(s, i, st, en), st, en) == s,
{
    lemma_carve_index(s, i, st, en, lo, hi);
    let c = carve(s, i, st, en);
    let prefix = st > s[i].start;
    let suffix = en < s[i].end;
    if !prefix && !suffix {
        if i > 0 {
            assert(c[i - 1] == s[i - 1]);
            assert(s[i - 1].end < s[i].start);
        }
        if i < c.len() {
            assert(c[i] == s[i + 1]);
            assert(s[i].end < s[i + 1].start);
        }
        assert(coalesce(c, st, en) =~= s);
    } else if !prefix {
        if i > 0 {
            assert(c[i - 1] == s[i - 1]);
            assert(s[i - 1].end < s[i].start);
        }
        assert(coalesce(c, st, en) =~= s);
    } else if !suffix {
        if i + 1 < c.len() {
            assert(c[i + 1] == s[i + 1]);
            assert(s[i].end < s[i + 1].start);
        }
        assert(coalesce(c, st, en) =~= s);
    } else {
        assert(coalesce(c, st, en) =~= s);
    }
}

/// Taking a block by first fit and giving it straight back leaves the free
/// list as it was: the allocator coalesces what it split.
pub proof fn lemma_release_undoes_allocate(s: Seq<Range>, lo: int, hi: int, size: int, align: int, full: bool)
    requires
        ranges_ok(s, lo, hi),
        0 <= lo,
        s.len() <= MAX_FREE_RANGES,
        full == (s.len() == MAX_FREE_RANGES),
        align > 0,
        size > 0,
        fit(s, 0, size, align, full) is Some,
    ensures
        ({
            let (i, st) = fit(s, 0, size, align, full)->Some_0;
            &&& release_error(true, carve(s, i, st, st + size), lo, hi, st, size) is None
            &&& coalesce(carve(s, i, st, st + size), st, st + size) == s
        }),
{
    lemma_fit_facts(s, 0, size, align, full);
    let (i, st) = fit(s, 0, size, align, full)->Some_0;
    let en = st + size;
    lemma_carve(s, i, st, en, lo, hi);
    lemma_coalesce_carve(s, i, st, en, lo, hi);
    let c = carve(s, i, st, en);
    assert(lo <= s[i].start && s[i].end <= hi);
    if c.len() == MAX_FREE_RANGES {
        if st > s[i].start {
            assert(c[i].end == st);
        } else {
            assert(c[i].start == en);
        }
    }
}

/// A block that first fit hands out is aligned, lay wholly inside one free
/// range, and is free no longer: no range left in the list meets it, and the
/// free total drops by its size.
pub proof fn lemma_allocated_block(s: Seq<Range>, lo: int, hi: int, size: int, align: int, full: bool)
    requires
        ranges_ok(s, lo, hi),
        0 <= lo,
        s.len() <= MAX_FREE_RANGES,
        full == (s.len() == MAX_FREE_RANGES),
        align > 0,
        size > 0,
        fit(s, 0, size, align, full) is Some,
    ensures
        ({
            let (i, st) = fit(s, 0, size, align, full)->Some_0;
            let c = carve(s, i, st, st + size);
            &&& st % align == 0
            &&& 0 <= i < s.len()
            &&& s[i].start <= st && st + size <= s[i].end
            &&& ranges_ok(c, lo, hi)
            &&& total(c) == total(s) - size
            &&& forall|k: int| 0 <= k < c.len() ==> (#[trigger] c[k]).end <= st || st + size <= c[k].start
        }),
{
    lemma_fit_facts(s, 0, size, align, full);
    let (i, st) = fit(s, 0, size, align, full)->Some_0;
    lemma_carve(s, i, st, st + size, lo, hi);
}

proof fn lemma_fit_facts(s: Seq<Range>, i: int, size: int, align: int, full: bool)
    requires
        align > 0,
        size > 0,
        0 <= i,
        fit(s, i, size, align, full) is Some,
    ensures
        ({
            let (j, st) = fit(s, i, size, align, full)->Some_0;
            &&& i <= j < s.len()
            &&& s[j].start <= st
            &&& st + size <= s[j].end
            &&& st + size <= usize::MAX
            &&& st % align == 0
            &&& full && st > s[j].start ==> st + size >= s[j].end
        }),
    decreases s.len() - i,
{
    lemma_round_up(s[i].start as int, align);
    let st = round_up(s[i].start as int, align);
    if !(st + size > s[i].end || (st > s[i].start && st + size < s[i].end && full)) {
    } else {
        lemma_fit_facts(s, i + 1, size, align, full);
    }
}

/// The kernel heap's bookkeeping: its bounds and its free ranges.
pub struct HeapState {
    initialized: bool,
    start: usize,
    end: usize,
    free: Vec<Range>,
    free_bytes: usize,
}

impl HeapState {
    pub closed spec fn wf(&self) -> bool {
        &&& self.free@.len() <= MAX_FREE_RANGES
        &&& !self.initialized ==> self.free@.len() == 0 && self.start == 0 && self.end == 0
        &&& self.initialized ==> self.start < self.end
        &&& ranges_ok(self.free@, self.start as int, self.end as int)
        &&& self.free_bytes == total(self.free@)
    }

    /// Giving back at once the block an allocation of `size` bytes aligned to
    /// `align` handed out is a release the heap accepts, and it restores the
    /// free ranges exactly.
    pub proof fn law_deallocate_undoes_allocate(&self, size: usize, align: usize)
        requires
            self.wf(),
            self.is_initialized(),
            align > 0,
            fit(self.ranges(), 0, block_size(size as int), align as int, self.ranges().len() == MAX_FREE_RANGES) is Some,
        ensures
            ({
                let n = block_size(size as int);
                let (i, st) = fit(self.ranges(), 0, n, align as int, self.ranges().len() == MAX_FREE_RANGES)->Some_0;
                let mid = carve(self.ranges(), i, st, st + n);
                &&& release_error(true, mid, self.low(), self.high(), st, size as int) is None
                &&& coalesce(mid, st, st + block_size(size as int)) == self.ranges()
            }),
    {
        lemma_release_undoes_allocate(
            self.free@,
            self.start as int,
            self.end as int,
            block_size(size as int),
            align as int,
            self.free@.len() == MAX_FREE_RANGES,
        );
    }

    /// Whether the heap has been given its memory.
    pub closed spec fn is_initialized(&self) -> bool {
        self.initialized
    }

    /// The heap's first address.
    pub closed spec fn low(&self) -> int {
        self.start as int
    }

    /// The address just past the heap.
    pub closed spec fn high(&self) -> int {
        self.end as int
    }

    /// The free ranges, in address order.
    pub closed spec fn ranges(&self) -> Seq<Range> {
        self.free@
    }

    /// The bookkeeping of a heap with no memory yet.
    pub fn empty() -> (r: Self)
        ensures
            r.wf(),
            !r.is_initialized(),
            r.ranges().len() == 0,
    {
        HeapState { initialized: false, start: 0, end: 0, free: Vec::new(), free_bytes: 0 }
    }

    /// Gives the heap the `size` bytes at `start`, all of them free.
    pub fn init(&mut self, start: usize, size: usize)
        requires
            old(self).wf(),
            !old(self).is_initialized(),
            start + size <= usize::MAX,
            size > 0,
        ensures
            final(self).wf(),
            final(self).is_initialized(),
            final(self).low() == start,
            final(self).high() == start + size,
            final(self).ranges() == seq![Range { start: start, end: (start + size) as usize }],
    {
        let end = start + size;
        let mut free: Vec<Range> = Vec::new();
        free.push(Range { start, end });
        proof {
            assert(free@ =~= seq![Range { start, end }]);
            assert(free@.drop_last() =~= Seq::<Range>::empty());
            assert(total(free@.drop_last()) == 0);
            assert(total(free@) == size);
        }
        *self = HeapState { initialized: true, start, end, free, free_bytes: size };
    }

    pub fn is_ready(&self) -> (r: bool)
        ensures
            r == self.is_initialized(),
    {
        self.initialized
    }

    /// The number of free bytes.
    pub fn free_bytes(&self) -> (r: usize)
        requires
            self.wf(),
        ensures
            r == total(self.ranges()),
    {
        self.free_bytes
    }

    /// The heap's size, 0 before it is given memory.
    pub fn total_bytes(&self) -> (r: usize)
        requires
            self.wf(),
        ensures
            r == if self.is_initialized() { self.high() - self.low() } else { 0 },
    {
        if self.initialized {
            self.end - self.start
        } else {
            0
        }
    }

    /// Takes a block of `size` bytes (one byte at least) aligned to `align`,
    /// by first fit over the free ranges in address order.
    pub fn allocate(&mut self, size: usize, align: usize) -> (r: Option<usize>)
        requires
            old(self).wf(),
            align > 0,
        ensures
            final(self).wf(),
            final(self).is_initialized() == old(self).is_initialized(),
            final(self).low() == old(self).low(),
            final(self).high() == old(self).high(),
            ({
                let n = block_size(size as int);
                let s = old(self).ranges();
                let f = fit(s, 0, n, align as int, s.len() == MAX_FREE_RANGES);
                if !old(self).is_initialized() || f is None {
                    r is None && final(self).ranges() == s
                } else {
                    let (i, st) = f->Some_0;
                    &&& r == Some(st as usize)
                    &&& final(self).ranges() == carve(s, i, st, st + n)
                }
            }),
            r matches Some(p) ==> release_error(
                final(self).is_initialized(),
                final(self).ranges(),
                final(self).low(),
                final(self).high(),
                p as int,
                size as int,
            ) is None && coalesce(final(self).ranges(), p as int, p + block_size(size as int)) == old(self).ranges(),
    {
        let ghost pre = *self;
        if !self.initialized {
            return None;
        }
        let n = if size == 0 {
            1
        } else {
            size
        };
        let full = self.free.len() == MAX_FREE_RANGES;
        let ghost s = self.free@;
        let mut index: usize = 0;
        while index < self.free.len()
            invariant
                self.initialized == old(self).initialized,
                self.start == old(self).start,
                self.end == old(self).end,
                self.free@ == old(self).free@,
                self.free_bytes == old(self).free_bytes,
                self.wf(),
                s == self.free@,
                n == block_size(size as int),
                align > 0,
                full == (s.len() == MAX_FREE_RANGES),
                index <= s.len(),
                fit(s, 0, n as int, align as int, full) == fit(s, index as int, n as int, align as int, full),
                pre == *old(self),
                pre.wf(),
            decreases s.len() - index,
        {
            let region = self.free[index];
            proof {
                lemma_round_up(region.start as int, align as int);
            }
            let start = match region.start.checked_add(align - 1) {
                Some(rounded) => rounded - rounded % align,
                None => return None,
            };
            let end = match start.checked_add(n) {
                Some(end) => end,
                None => return None,
            };
            if end > region.end {
                index += 1;
                continue;
            }
            let has_prefix = start > region.start;
            let has_suffix = end < region.end;
            if has_prefix && has_suffix && self.free.len() == MAX_FREE_RANGES {
                index += 1;
                continue;
            }
            proof {
                lemma_carve(s, index as int, start as int, end as int, self.start as int, self.end as int);
                lemma_total_bound(carve(s, index as int, start as int, end as int), self.start as int, self.end as int);
            }
            if !has_prefix && !has_suffix {
                self.free.remove(index);
            } else if !has_prefix {
                self.free.set(index, Range { start: end, end: region.end });
            } else if !has_suffix {
                self.free.set(index, Range { start: region.start, end: start });
            } else {
                self.free.set(index, Range { start: region.start, end: start });
                self.free.insert(index + 1, Range { start: end, end: region.end });
            }
            proof {
                assert(self.free@ =~= carve(s, index as int, start as int, end as int));
            }
            self.free_bytes = self.free_bytes - n;
            proof {
                pre.law_deallocate_undoes_allocate(size, align);
            }
            return Some(start);
        }
        None
    }

    /// What a release of `size` bytes at `start` would meet; `Ok` where it
    /// may go ahead.
    pub fn check_release(&self, start: usize, size: usize) -> (r: Result<(), HeapError>)
        requires
            self.wf(),
        ensures
            match release_error(self.is_initialized(), self.ranges(), self.low(), self.high(), start as int, size as int) {
                Some(e) => r == Err::<(), HeapError>(e),
                None => r is Ok,
            },
    {
        let n = if size == 0 {
            1
        } else {
            size
        };
        if !self.initialized {
            return Err(HeapError::NotInitialized);
        }
        let end = match start.checked_add(n) {
            Some(end) => end,
            None => return Err(HeapError::AddressOverflow),
        };
        if start < self.start || end > self.end {
            return Err(HeapError::OutsideHeap);
        }
        let mut touches = false;
        let mut k: usize = 0;
        while k < self.free.len()
            invariant
                self.wf(),
                self.initialized,
                self.start <= start,
                end <= self.end,
                k <= self.free@.len(),
                end == start + n,
                n == block_size(size as int),
                forall|j: int| 0 <= j < k ==> (#[trigger] self.free@[j]).end <= start || end <= self.free@[j].start,
                touches == exists|j: int|
                    0 <= j < k && ((#[trigger] self.free@[j]).end == start || self.free@[j].start == end),
            decreases self.free@.len() - k,
        {
            let r = self.free[k];
            proof {
                assert(self.free@[k as int] == r);
            }
            if !(r.end <= start || end <= r.start) {
                proof {
                    let w = k as int;
                    assert(0 <= w < self.ranges().len() && !((self.ranges()[w]).end <= start || start + block_size(size as int)
                        <= self.ranges()[w].start));
                    assert(release_error(self.is_initialized(), self.ranges(), self.low(), self.high(), start as int, size as int) == Some(HeapError::Overlap));
                }
                return Err(HeapError::Overlap);
            }
            if r.end == start || r.start == end {
                touches = true;
            }
            proof {
                assert(self.free@[k as int] == r);
            }
            k += 1;
        }
        if self.free.len() == MAX_FREE_RANGES && !touches {
            return Err(HeapError::MetadataExhausted);
        }
        Ok(())
    }

    /// Gives back the `size` bytes at `start` (one byte at least), merged with
    /// the free ranges on either side.
    pub fn deallocate(&mut self, start: usize, size: usize)
        requires
            old(self).wf(),
            release_error(old(self).is_initialized(), old(self).ranges(), old(self).low(), old(self).high(), start as int, size as int) is None,
        ensures
            final(self).wf(),
            final(self).is_initialized() == old(self).is_initialized(),
            final(self).low() == old(self).low(),
            final(self).high() == old(self).high(),
            final(self).ranges() == coalesce(old(self).ranges(), start as int, start + block_size(size as int)),
    {
        let size = if size == 0 {
            1
        } else {
            size
        };
        let end = start + size;
        let ghost s = self.free@;
        let ghost lo = self.start as int;
        let ghost hi = self.end as int;
        let mut index: usize = 0;
        while index < self.free.len() && self.free[index].start < start
            invariant
                self.free@ == s,
                index <= s.len(),
                forall|j: int| 0 <= j < index ==> (#[trigger] s[j]).start < start,
            decreases s.len() - index,
        {
            index += 1;
        }
        proof {
            lemma_insertion_index(s, start as int, index as int, lo, hi);
            lemma_coalesce(s, start as int, end as int, lo, hi);
            lemma_total_bound(coalesce(s, start as int, end as int), lo, hi);
        }
        let merge_left = index > 0 && self.free[index - 1].end == start;
        let merge_right = index < self.free.len() && self.free[index].start == end;
        if merge_left && merge_right {
            let joined = Range { start: self.free[index - 1].start, end: self.free[index].end };
            self.free.set(index - 1, joined);
            self.free.remove(index);
        } else if merge_left {
            let joined = Range { start: self.free[index - 1].start, end };
            self.free.set(index - 1, joined);
        } else if merge_right {
            let joined = Range { start, end: self.free[index].end };
            self.free.set(index, joined);
        } else {
            self.free.insert(index, Range { start, end });
        }
        proof {
            assert(self.free@ =~= coalesce(s, start as int, end as int));
        }
        self.free_bytes = self.free_bytes + size;
    }
}

} // verus!
