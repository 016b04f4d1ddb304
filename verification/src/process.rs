//! User processes: the pages that load an ELF image into the low half of
//! an address space, and the table of processes started.

use crate::arith::{lemma_round_down, lemma_round_up, round_down, round_up};
use crate::elf::{ElfImage, LoadSegment};
use crate::PAGE_SIZE;
use vstd::prelude::*;

verus! {

pub const USER_STACK_BASE: u64 = 0x0000_0000_0080_0000;
pub const USER_LIMIT: u64 = 0x0000_8000_0000_0000;

#[derive(Clone, Copy, Debug, PartialEq, Eq, Structural)]
pub enum ProcessState {
    Running,
    Exited,
}

#[derive(Clone, Debug)]
pub struct ProcessInfo {
    pub pid: u64,
    pub name: String,
    pub state: ProcessState,
    pub entry: u64,
    pub exit_code: Option<u64>,
}

#[derive(Clone, Copy, Debug)]
pub struct Diagnostics {
    pub probe_ok: bool,
    pub process_count: usize,
    pub last_exit: u64,
}

#[derive(Clone, Copy, Debug, PartialEq, Eq, Structural)]
pub enum LoadError {
    EntryOutside,
    SegmentStartsOutside,
    SegmentOverflow,
    SegmentEndsOutside,
    PageRangeOverflow,
    FileOverflow,
}

/// The text that describes `e`.
pub open spec fn load_text(e: LoadError) -> Seq<char> {
    match e {
        LoadError::EntryOutside => "ELF entry is outside userspace"@,
        LoadError::SegmentStartsOutside => "ELF segment starts outside userspace"@,
        LoadError::SegmentOverflow => "ELF segment address overflow"@,
        LoadError::SegmentEndsOutside => "ELF segment ends outside userspace"@,
        LoadError::PageRangeOverflow => "ELF page range overflow"@,
        LoadError::FileOverflow => "ELF file segment overflow"@,
    }
}

impl LoadError {
    /// A one-line description of the error.
    pub fn message(&self) -> (r: &'static str)
        ensures
            r@ == load_text(*self),
    {
        match self {
            LoadError::EntryOutside => "ELF entry is outside userspace",
            LoadError::SegmentStartsOutside => "ELF segment starts outside userspace",
            LoadError::SegmentOverflow => "ELF segment address overflow",
            LoadError::SegmentEndsOutside => "ELF segment ends outside userspace",
            LoadError::PageRangeOverflow => "ELF page range overflow",
            LoadError::FileOverflow => "ELF file segment overflow",
        }
    }
}

/// A user page to map: where, with which rights, and what it holds first
/// (zeros past the end of `initial`).
pub struct PageLoad {
    pub address: u64,
    pub writable: bool,
    pub executable: bool,
    pub initial: Vec<u8>,
}

/// A page to map, as the contracts see it.
pub struct PageView {
    pub address: int,
    pub writable: bool,
    pub executable: bool,
    pub initial: Seq<u8>,
}

impl PageLoad {
    pub open spec fn view(&self) -> PageView {
        PageView {
            address: self.address as int,
            writable: self.writable,
            executable: self.executable,
            initial: self.initial@,
        }
    }
}

/// Why segment `s` cannot be loaded, if it cannot.
pub open spec fn segment_error(s: LoadSegment) -> Option<LoadError> {
    let va = s.virtual_address as int;
    let end = va + s.memory_size;
    if s.memory_size == 0 {
        None
    } else if va >= USER_LIMIT {
        Some(LoadError::SegmentStartsOutside)
    } else if end > u64::MAX {
        Some(LoadError::SegmentOverflow)
    } else if end > USER_LIMIT {
        Some(LoadError::SegmentEndsOutside)
    } else if end + PAGE_SIZE - 1 > u64::MAX {
        Some(LoadError::PageRangeOverflow)
    } else if va + s.file_data@.len() > u64::MAX {
        Some(LoadError::FileOverflow)
    } else {
        None
    }
}

/// The first contents of the page at `page` for segment `s`: the bytes of
/// the file image that fall in the page, zeros elsewhere.
pub open spec fn page_bytes(s: LoadSegment, page: int) -> Seq<u8> {
    Seq::new(
        PAGE_SIZE as nat,
        |i: int|
            if s.virtual_address <= page + i && page + i < s.virtual_address + s.file_data@.len() {
                s.file_data@[page + i - s.virtual_address]
            } else {
                0u8
            },
    )
}

/// The pages of segment `s`: every page it touches, in address order.
pub open spec fn segment_pages(s: LoadSegment) -> Seq<PageView> {
    if s.memory_size == 0 {
        Seq::empty()
    } else {
        let start = round_down(s.virtual_address as int, PAGE_SIZE as int);
        let end = round_up(s.virtual_address + s.memory_size, PAGE_SIZE as int);
        Seq::new(
            ((end - start) / PAGE_SIZE as int) as nat,
            |k: int|
                PageView {
                    address: start + k * PAGE_SIZE,
                    writable: s.writable,
                    executable: s.executable,
                    initial: page_bytes(s, start + k * PAGE_SIZE),
                },
        )
    }
}

/// The pages of `segs`, one segment after the other, or the first
/// segment's error.
pub open spec fn plan_segments(segs: Seq<LoadSegment>) -> Result<Seq<PageView>, LoadError>
    decreases segs.len(),
{
    if segs.len() == 0 {
        Ok(Seq::empty())
    } else {
        match segment_error(segs[0]) {
            Some(e) => Err(e),
            None => match plan_segments(segs.drop_first()) {
                Err(e) => Err(e),
                Ok(rest) => Ok(segment_pages(segs[0]) + rest),
            },
        }
    }
}

/// The pages that load an image whose entry is `entry`.
pub open spec fn plan_spec(entry: u64, segs: Seq<LoadSegment>) -> Result<Seq<PageView>, LoadError> {
    if entry >= USER_LIMIT {
        Err(LoadError::EntryOutside)
    } else {
        plan_segments(segs)
    }
}

/// The first contents of the page at `page` for `segment`.
fn page_contents(segment: &LoadSegment, page: u64) -> (r: Vec<u8>)
    requires
        page + PAGE_SIZE <= u64::MAX,
        segment.virtual_address + segment.file_data@.len() <= u64::MAX,
    ensures
        r@ == page_bytes(*segment, page as int),
{
    let mut initial: Vec<u8> = vec![0u8; 4096];
    let file_end = segment.virtual_address + segment.file_data.len() as u64;
    let copy_start = if page > segment.virtual_address {
        page
    } else {
        segment.virtual_address
    };
    let copy_end = if page + PAGE_SIZE < file_end {
        page + PAGE_SIZE
    } else {
        file_end
    };
    let ghost want = page_bytes(*segment, page as int);
    let mut a = copy_start;
    while a < copy_end
        invariant
            initial@.len() == 4096,
            want == page_bytes(*segment, page as int),
            file_end == segment.virtual_address + segment.file_data@.len(),
            copy_start == if page > segment.virtual_address { page } else { segment.virtual_address },
            copy_end <= page + PAGE_SIZE,
            copy_end <= file_end,
            copy_start <= a,
            a <= copy_end || copy_end <= copy_start,
            page <= copy_start,
            forall|i: int|
                0 <= i < 4096 ==> #[trigger] initial@[i] == if page + i < a { want[i] } else { 0u8 },
        decreases copy_end - a,
    {
        let index = (a - page) as usize;
        let source = (a - segment.virtual_address) as usize;
        initial.set(index, segment.file_data[source]);
        a = a + 1;
    }
    proof {
        assert forall|i: int| 0 <= i < 4096 implies initial@[i] == want[i] by {
            if page + i >= a {
                assert(page + i >= copy_end || page + i < copy_start);
            }
        }
        assert(initial@ =~= want);
    }
    initial
}

/// The pages that load `image` into a user address space, or why the image
/// cannot be loaded: its entry and every segment must lie below
/// `USER_LIMIT`.
pub fn load_plan(image: &ElfImage) -> (r: Result<Vec<PageLoad>, LoadError>)
    ensures
        match plan_spec(image.entry_spec(), image.segments_spec()) {
            Err(e) => r == Err::<Vec<PageLoad>, LoadError>(e),
            Ok(pages) => r matches Ok(v) && v@.len() == pages.len() && forall|k: int|
                0 <= k < pages.len() ==> #[trigger] v@[k].view() == pages[k],
        },
{
    if image.entry() >= USER_LIMIT {
        return Err(LoadError::EntryOutside);
    }
    let segments = image.segments();
    let ghost segs = segments@;
    let mut plan: Vec<PageLoad> = Vec::new();
    let mut index: usize = 0;
    proof {
        assert(segs.skip(0) =~= segs);
        assert(views(plan@) =~= Seq::<PageView>::empty());
        match plan_segments(segs) {
            Err(e) => {},
            Ok(rest) => {
                assert(views(plan@) + rest =~= rest);
            },
        }
    }
    while index < segments.len()
        invariant
            segs == segments@,
            segs == image.segments_spec(),
            image.entry_spec() < USER_LIMIT,
            index <= segs.len(),
            plan_segments(segs) == match plan_segments(segs.skip(index as int)) {
                Err(e) => Err(e),
                Ok(rest) => Ok(views(plan@) + rest),
            },
        decreases segs.len() - index,
    {
        let segment = &segments[index];
        proof {
            assert(segs.skip(index as int).drop_first() =~= segs.skip(index + 1));
            assert(segs.skip(index as int)[0] == segs[index as int]);
        }
        if segment.memory_size == 0 {
            proof {
                assert(segment_pages(*segment) =~= Seq::<PageView>::empty());
            }
            index += 1;
            continue;
        }
        let va = segment.virtual_address;
        if va >= USER_LIMIT {
            return Err(LoadError::SegmentStartsOutside);
        }
        let end = match va.checked_add(segment.memory_size) {
            Some(end) => end,
            None => return Err(LoadError::SegmentOverflow),
        };
        if end > USER_LIMIT {
            return Err(LoadError::SegmentEndsOutside);
        }
        let page_end = match crate::arith::align_up(end, PAGE_SIZE) {
            Some(page_end) => page_end,
            None => return Err(LoadError::PageRangeOverflow),
        };
        if va.checked_add(segment.file_data.len() as u64).is_none() {
            return Err(LoadError::FileOverflow);
        }
        let page_start = crate::arith::align_down(va, PAGE_SIZE);
        proof {
            lemma_round_down(va as int, PAGE_SIZE as int);
            lemma_round_up(end as int, PAGE_SIZE as int);
            lemma_multiple_difference(page_end as int, page_start as int);
        }
        let ghost before = views(plan@);
        let ghost pages = segment_pages(*segment);
        let mut page = page_start;
        let ghost mut k: int = 0;
        while page < page_end
            invariant
                page_start <= page <= page_end,
                page_end <= USER_LIMIT + PAGE_SIZE,
                page_start % PAGE_SIZE == 0,
                page_end % PAGE_SIZE == 0,
                (page - page_start) % PAGE_SIZE as int == 0,
                page == page_start + k * PAGE_SIZE,
                pages == segment_pages(*segment),
                segment.memory_size > 0,
                page_start == round_down(segment.virtual_address as int, PAGE_SIZE as int),
                page_end == round_up(segment.virtual_address + segment.memory_size, PAGE_SIZE as int),
                segment.virtual_address + segment.file_data@.len() <= u64::MAX,
                views(plan@) == before + pages.take(k),
                0 <= k,
                k <= pages.len(),
            decreases page_end - page,
        {
            proof {
                assert(page + PAGE_SIZE <= page_end) by {
                    lemma_multiple_difference(page_end as int, page as int);
                }
                assert(pages.len() == (page_end - page_start) / PAGE_SIZE as int);
                assert(k < pages.len()) by (nonlinear_arith)
                    requires
                        page == page_start + k * 4096,
                        page < page_end,
                        pages.len() == (page_end - page_start) / 4096,
                        (page_end - page_start) % 4096 == 0,
                        page_end > page_start,
                {
                }
            }
            let initial = page_contents(segment, page);
            let load = PageLoad { address: page, writable: segment.writable, executable: segment.executable, initial };
            let ghost previous = plan@;
            plan.push(load);
            proof {
                assert(pages[k] == load.view());
                assert(views(plan@) =~= views(previous).push(load.view()));
                assert(pages.take(k + 1) =~= pages.take(k).push(pages[k]));
                assert(views(plan@) =~= before + pages.take(k + 1));
            }
            page = page + PAGE_SIZE;
            proof {
                k = k + 1;
            }
        }
        proof {
            assert(k == pages.len()) by (nonlinear_arith)
                requires
                    page == page_start + k * 4096,
                    page == page_end,
                    pages.len() == (page_end - page_start) / 4096,
            {
            }
            assert(pages.take(k as int) =~= pages);
            assert(segment_error(*segment) is None);
            match plan_segments(segs.skip(index + 1)) {
                Err(e) => {},
                Ok(rest) => {
                    assert(views(plan@) + rest =~= before + (pages + rest));
                },
            }
        }
        index += 1;
    }
    proof {
        assert(segs.skip(index as int) =~= Seq::<LoadSegment>::empty());
        assert(views(plan@) + Seq::<PageView>::empty() =~= views(plan@));
    }
    Ok(plan)
}

proof fn lemma_multiple_difference(a: int, b: int)
    requires
        a % 4096 == 0,
        b % 4096 == 0,
        b < a,
    ensures
        b + 4096 <= a,
        (a - b) % 4096 == 0,
{
    crate::arith::lemma_multiple_sum(a, b, 4096);
}

/// What the pages of `v` say.
pub open spec fn views(v: Seq<PageLoad>) -> Seq<PageView> {
    v.map_values(|p: PageLoad| p.view())
}

/// The processes started, in order.
pub struct ProcessTable {
    processes: Vec<ProcessInfo>,
}

impl ProcessTable {
    /// The pid, state, entry and exit code of each process, in order.
    pub closed spec fn records(&self) -> Seq<(u64, ProcessState, u64, Option<u64>)> {
        self.processes@.map_values(|p: ProcessInfo| (p.pid, p.state, p.entry, p.exit_code))
    }

    pub fn new() -> (r: Self)
        ensures
            r.records().len() == 0,
    {
        ProcessTable { processes: Vec::new() }
    }

    pub fn len(&self) -> (r: usize)
        ensures
            r == self.records().len(),
    {
        self.processes.len()
    }

    /// Records a running process.
    pub fn add(&mut self, pid: u64, name: String, entry: u64)
        ensures
            final(self).records() == old(self).records().push((pid, ProcessState::Running, entry, None)),
    {
        self.processes.push(ProcessInfo { pid, name, state: ProcessState::Running, entry, exit_code: None });
        proof {
            assert(final(self).records() =~= old(self).records().push((pid, ProcessState::Running, entry, None)));
        }
    }

    /// Marks the first process with `pid` exited with `code`; whether there
    /// was one.
    pub fn finish(&mut self, pid: u64, code: u64) -> (r: bool)
        ensures
            r == exists|k: int| 0 <= k < old(self).records().len() && (#[trigger] old(self).records()[k]).0 == pid,
            final(self).records().len() == old(self).records().len(),
            forall|k: int|
                0 <= k < old(self).records().len() ==> #[trigger] final(self).records()[k] == if k == first_with(
                    old(self).records(),
                    pid,
                ) {
                    (pid, ProcessState::Exited, old(self).records()[k].2, Some(code))
                } else {
                    old(self).records()[k]
                },
    {
        let mut k: usize = 0;
        while k < self.processes.len()
            invariant
                self.processes@ == old(self).processes@,
                k <= self.processes@.len(),
                forall|j: int| 0 <= j < k ==> (#[trigger] self.processes@[j]).pid != pid,
            decreases self.processes@.len() - k,
        {
            if self.processes[k].pid == pid {
                let mut process = self.processes.remove(k);
                process.state = ProcessState::Exited;
                process.exit_code = Some(code);
                self.processes.insert(k, process);
                proof {
                    let old_records = old(self).records();
                    assert(old_records[k as int].0 == pid);
                    lemma_first_with(old_records, pid, k as int);
                    assert forall|j: int| 0 <= j < old_records.len() implies #[trigger] self.records()[j] == if j
                        == first_with(old_records, pid) {
                        (pid, ProcessState::Exited, old_records[j].2, Some(code))
                    } else {
                        old_records[j]
                    } by {
                        if j != k {
                            assert(self.processes@[j] == old(self).processes@[j]);
                        }
                    }
                }
                return true;
            }
            k += 1;
        }
        proof {
            assert forall|j: int| 0 <= j < old(self).records().len() implies (#[trigger] old(self).records()[j]).0
                != pid by {
                assert(old(self).records()[j].0 == old(self).processes@[j].pid);
            }
            lemma_first_with_none(old(self).records(), pid);
        }
        false
    }

    /// A copy of each process's record, in order.
    pub fn processes(&self) -> (r: Vec<ProcessInfo>)
        ensures
            r@.len() == self.records().len(),
            forall|k: int|
                0 <= k < r@.len() ==> ((#[trigger] r@[k]).pid, r@[k].state, r@[k].entry, r@[k].exit_code)
                    == self.records()[k],
    {
        let mut out: Vec<ProcessInfo> = Vec::new();
        let mut k: usize = 0;
        while k < self.processes.len()
            invariant
                k <= self.processes@.len(),
                out@.len() == k,
                forall|j: int|
                    0 <= j < k ==> ((#[trigger] out@[j]).pid, out@[j].state, out@[j].entry, out@[j].exit_code)
                        == self.records()[j],
            decreases self.processes@.len() - k,
        {
            let p = &self.processes[k];
            out.push(ProcessInfo { pid: p.pid, name: p.name.clone(), state: p.state, entry: p.entry, exit_code: p.exit_code });
            k += 1;
        }
        out
    }
}

/// The index of the first record with `pid`, or the length where none has.
pub open spec fn first_with(s: Seq<(u64, ProcessState, u64, Option<u64>)>, pid: u64) -> int
    decreases s.len(),
{
    if s.len() == 0 {
        0
    } else if s[0].0 == pid {
        0
    } else {
        1 + first_with(s.drop_first(), pid)
    }
}

proof fn lemma_first_with(s: Seq<(u64, ProcessState, u64, Option<u64>)>, pid: u64, k: int)
    requires
        0 <= k < s.len(),
        s[k].0 == pid,
        forall|j: int| 0 <= j < k ==> (#[trigger] s[j]).0 != pid,
    ensures
        first_with(s, pid) == k,
    decreases k,
{
    if k > 0 {
        assert forall|j: int| 0 <= j < k - 1 implies (#[trigger] s.drop_first()[j]).0 != pid by {
            assert(s.drop_first()[j] == s[j + 1]);
        }
        lemma_first_with(s.drop_first(), pid, k - 1);
    }
}

proof fn lemma_first_with_none(s: Seq<(u64, ProcessState, u64, Option<u64>)>, pid: u64)
    requires
        forall|j: int| 0 <= j < s.len() ==> (#[trigger] s[j]).0 != pid,
    ensures
        first_with(s, pid) == s.len(),
    decreases s.len(),
{
    if s.len() > 0 {
        assert forall|j: int| 0 <= j < s.len() - 1 implies (#[trigger] s.drop_first()[j]).0 != pid by {
            assert(s.drop_first()[j] == s[j + 1]);
        }
        lemma_first_with_none(s.drop_first(), pid);
    }
}

} // verus!
