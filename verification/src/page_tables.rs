//! Testable x86_64 four-level page-table handoff. No physical pointers here.

use vstd::prelude::*;

verus! {

pub const PRESENT: u64 = 1;
pub const HUGE: u64 = 0x80;
pub const ADDRESS: u64 = 0x000f_ffff_ffff_f000;

#[derive(Clone, Copy, Debug, PartialEq, Eq, Structural)]
pub enum CloneError {
    OutOfMemory,
    TableLimit,
    InvalidFrame,
    InvalidHugePage,
    Cycle,
}

/// Implementations must return fresh, exclusively owned frames from allocate,
/// disjoint from the source tables. Reads/writes address initialized tables.
/// release must accept every allocated frame, including partial clones.
pub trait TableMemory {
    /// Entry `index` of the table in `frame`. Implementations describe
    /// their memory by defining this; the default describes tables of
    /// zeros.
    closed spec fn entry(&self, frame: u64, index: int) -> u64 {
        0
    }

    /// `frame` holds a live table (part of the source tree or allocated).
    /// The default holds none.
    closed spec fn in_use(&self, frame: u64) -> bool {
        false
    }

    /// How many more frames `allocate` is sure to hand out. The default
    /// promises none.
    closed spec fn frames_left(&self) -> nat {
        0
    }

    fn allocate(&mut self) -> (r: Option<u64>)
        ensures
            old(self).frames_left() > 0 ==> r is Some,
            r is Some ==> final(self).frames_left() >= old(self).frames_left() - 1,
            match r {
                Some(f) => {
                    &&& !old(self).in_use(f)
                    &&& final(self).in_use(f)
                    &&& forall|g: u64| g != f ==> final(self).in_use(g) == old(self).in_use(g)
                    &&& forall|g: u64, i: int| g != f ==> final(self).entry(g, i) == old(self).entry(g, i)
                },
                None => {
                    &&& forall|g: u64| final(self).in_use(g) == old(self).in_use(g)
                    &&& forall|g: u64, i: int| final(self).entry(g, i) == old(self).entry(g, i)
                },
            },
    ;

    fn release(&mut self, frame: u64)
        requires
            old(self).in_use(frame),
        ensures
            !final(self).in_use(frame),
            forall|g: u64| g != frame ==> final(self).in_use(g) == old(self).in_use(g),
            forall|g: u64, i: int| g != frame ==> final(self).entry(g, i) == old(self).entry(g, i),
    ;

    fn read(&self, frame: u64, index: usize) -> (r: u64)
        requires
            index < 512,
        ensures
            r == self.entry(frame, index as int),
    ;

    fn write(&mut self, frame: u64, index: usize, entry: u64)
        requires
            index < 512,
            old(self).in_use(frame),
        ensures
            final(self).entry(frame, index as int) == entry,
            forall|g: u64, i: int| !(g == frame && i == index) ==> final(self).entry(g, i) == old(self).entry(g, i),
            forall|g: u64| final(self).in_use(g) == old(self).in_use(g),
            final(self).frames_left() == old(self).frames_left(),
    ;
}

#[derive(Clone, Copy, Debug)]
pub struct OwnedRoot {
    pub physical: u64,
    pub table_frames: usize,
}

/// `f` is a non-null, page-aligned physical frame address.
pub open spec fn valid_frame(f: u64) -> bool {
    f != 0 && f & !ADDRESS == 0
}

/// Entry `e` of a level-`level` table points at a lower-level table.
pub open spec fn descends(e: u64, level: int) -> bool {
    e & PRESENT != 0 && level > 1 && e & HUGE == 0
}

/// Entry `e` of a level-`level` table is a large leaf.
pub open spec fn large_leaf(e: u64, level: int) -> bool {
    e & PRESENT != 0 && level > 1 && e & HUGE != 0
}

/// Address bits that must be clear in a 1 GiB (level 3) or 2 MiB leaf; bit
/// 12 is PAT there, not an address bit.
pub open spec fn reserved_bits(level: int) -> u64 {
    if level == 3 {
        0x3fff_e000
    } else {
        0x1f_e000
    }
}

/// A large leaf at this level is acceptable.
pub open spec fn large_leaf_ok(e: u64, level: int) -> bool {
    level != 4 && e & reserved_bits(level) == 0
}

/// Every frame of the valid part of the tree below `src` is in use.
pub open spec fn source_in_use<M: TableMemory>(m: M, src: u64, level: int) -> bool
    decreases level,
{
    valid_frame(src) ==> {
        &&& m.in_use(src)
        &&& forall|i: int|
            0 <= i < 512 && descends(#[trigger] m.entry(src, i), level) ==> source_in_use(
                m,
                m.entry(src, i) & ADDRESS,
                level - 1,
            )
    }
}

/// The tree below `src` has valid frames, no cycle through the path `path`,
/// no large page at level 4 and no reserved address bits in large leaves.
pub open spec fn tree_ok<M: TableMemory>(m: M, src: u64, level: int, path: Seq<u64>) -> bool
    decreases level,
{
    &&& valid_frame(src)
    &&& !path.contains(src)
    &&& forall|i: int|
        0 <= i < 512 ==> {
            let e = #[trigger] m.entry(src, i);
            &&& large_leaf(e, level) ==> large_leaf_ok(e, level)
            &&& descends(e, level) ==> tree_ok(m, e & ADDRESS, level - 1, path.push(src))
        }
}

/// Along some chain of present non-leaf entries below `src`, a table is
/// reached a second time (counting the tables of `path` above `src`).
pub open spec fn has_cycle<M: TableMemory>(m: M, src: u64, level: int, path: Seq<u64>) -> bool
    decreases level,
{
    &&& valid_frame(src)
    &&& (path.contains(src) || exists|i: int|
        #![trigger m.entry(src, i)]
        0 <= i < 512 && descends(m.entry(src, i), level) && has_cycle(
            m,
            m.entry(src, i) & ADDRESS,
            level - 1,
            path.push(src),
        ))
}

/// Some table below `src` holds a large leaf that is not acceptable at its
/// level (a large page at level 4, or reserved address bits set).
pub open spec fn bad_leaf<M: TableMemory>(m: M, src: u64, level: int) -> bool
    decreases level,
{
    &&& valid_frame(src)
    &&& exists|i: int|
        #![trigger m.entry(src, i)]
        0 <= i < 512 && ((large_leaf(m.entry(src, i), level) && !large_leaf_ok(m.entry(src, i), level))
            || (descends(m.entry(src, i), level) && bad_leaf(m, m.entry(src, i) & ADDRESS, level - 1)))
}

/// A cycle or a bad large leaf makes the tree unsound.
proof fn lemma_faults_break_tree<M: TableMemory>(m: M, src: u64, level: int, path: Seq<u64>)
    ensures
        has_cycle(m, src, level, path) ==> !tree_ok(m, src, level, path),
        bad_leaf(m, src, level) ==> !tree_ok(m, src, level, path),
    decreases level,
{
    if has_cycle(m, src, level, path) && !path.contains(src) {
        let i = choose|i: int|
            #![trigger m.entry(src, i)]
            0 <= i < 512 && descends(m.entry(src, i), level) && has_cycle(m, m.entry(src, i) & ADDRESS, level - 1, path.push(src));
        lemma_faults_break_tree(m, m.entry(src, i) & ADDRESS, level - 1, path.push(src));
    }
    if bad_leaf(m, src, level) {
        let i = choose|i: int|
            #![trigger m.entry(src, i)]
            0 <= i < 512 && ((large_leaf(m.entry(src, i), level) && !large_leaf_ok(m.entry(src, i), level))
                || (descends(m.entry(src, i), level) && bad_leaf(m, m.entry(src, i) & ADDRESS, level - 1)));
        if descends(m.entry(src, i), level) {
            lemma_faults_break_tree(m, m.entry(src, i) & ADDRESS, level - 1, path.push(src));
        }
    }
}

/// Number of tables in the tree below `src`.
pub open spec fn tree_size<M: TableMemory>(m: M, src: u64, level: int) -> nat
    decreases level, 513int,
{
    if valid_frame(src) {
        1 + children_size(m, src, level, 0)
    } else {
        0
    }
}

/// Number of tables below entries `i..512` of `src`.
pub open spec fn children_size<M: TableMemory>(m: M, src: u64, level: int, i: int) -> nat
    decreases level, 512 - i,
{
    if i >= 512 || i < 0 {
        0
    } else {
        let e = m.entry(src, i);
        (if descends(e, level) {
            tree_size(m, e & ADDRESS, level - 1)
        } else {
            0
        }) + children_size(m, src, level, i + 1)
    }
}

/// The table tree at `dst` in `after` is a deep copy of the tree at `src` in
/// `before`: every present non-leaf entry points at a copied child with all
/// flag bits kept, every other entry (leaves of any size, non-present
/// entries) is copied verbatim, and every copied table lies in `frames`.
pub open spec fn cloned<M: TableMemory>(before: M, after: M, src: u64, dst: u64, level: int, frames: Set<u64>) -> bool
    decreases level,
{
    &&& frames.contains(dst)
    &&& forall|i: int|
        0 <= i < 512 ==> {
            let e = #[trigger] before.entry(src, i);
            let d = after.entry(dst, i);
            if descends(e, level) {
                &&& d & !ADDRESS == e & !ADDRESS
                &&& cloned(before, after, e & ADDRESS, d & ADDRESS, level - 1, frames)
            } else {
                d == e
            }
        }
}

/// Every frame of `new` was free before and is in use after.
pub open spec fn fresh_frames<M: TableMemory>(before: M, after: M, new: Seq<u64>) -> bool {
    forall|j: int| 0 <= j < new.len() ==> !before.in_use(#[trigger] new[j]) && after.in_use(new[j])
}

/// The frames in use after are those in use before plus the frames of `new`.
pub open spec fn in_use_grown<M: TableMemory>(before: M, after: M, new: Seq<u64>) -> bool {
    forall|f: u64| #[trigger] after.in_use(f) == (before.in_use(f) || new.contains(f))
}

/// Two memories hold the same entries in every frame of `frames`.
pub open spec fn same_on<M: TableMemory>(a: M, b: M, frames: Set<u64>) -> bool {
    forall|f: u64, i: int| frames.contains(f) ==> #[trigger] a.entry(f, i) == b.entry(f, i)
}

/// Two memories agree on which frames are in use and on every in-use frame.
pub open spec fn agree_in_use<M: TableMemory>(a: M, b: M) -> bool {
    &&& forall|f: u64| #[trigger] a.in_use(f) ==> b.in_use(f)
    &&& forall|f: u64, i: int| a.in_use(f) ==> #[trigger] b.entry(f, i) == a.entry(f, i)
}

proof fn lemma_replacement(e: u64, child: u64)
    requires
        child & !ADDRESS == 0,
    ensures
        ((e & !ADDRESS) | child) & !ADDRESS == e & !ADDRESS,
        ((e & !ADDRESS) | child) & ADDRESS == child,
{
    assert(((e & !ADDRESS) | child) & !ADDRESS == e & !ADDRESS) by (bit_vector)
        requires
            child & !ADDRESS == 0,
    ;
    assert(((e & !ADDRESS) | child) & ADDRESS == child) by (bit_vector)
        requires
            child & !ADDRESS == 0,
    ;
}

/// A copy stays a copy while its frames are untouched.
proof fn lemma_cloned_stable<M: TableMemory>(
    before: M,
    a1: M,
    a2: M,
    src: u64,
    dst: u64,
    level: int,
    frames: Set<u64>,
    wider: Set<u64>,
)
    requires
        cloned(before, a1, src, dst, level, frames),
        same_on(a1, a2, frames),
        frames.subset_of(wider),
    ensures
        cloned(before, a2, src, dst, level, wider),
    decreases level,
{
    assert forall|i: int| 0 <= i < 512 implies {
        let e = #[trigger] before.entry(src, i);
        let d = a2.entry(dst, i);
        if descends(e, level) {
            &&& d & !ADDRESS == e & !ADDRESS
            &&& cloned(before, a2, e & ADDRESS, d & ADDRESS, level - 1, wider)
        } else {
            d == e
        }
    } by {
        let e = before.entry(src, i);
        assert(a1.entry(dst, i) == a2.entry(dst, i));
        if descends(e, level) {
            let d = a1.entry(dst, i);
            lemma_cloned_stable(before, a1, a2, e & ADDRESS, d & ADDRESS, level - 1, frames, wider);
        }
    }
}

/// The source-side predicates only read in-use frames, so they carry over
/// to a memory that agrees on every in-use frame.
proof fn lemma_source_transfer<M: TableMemory>(a: M, b: M, src: u64, level: int, path: Seq<u64>)
    requires
        source_in_use(a, src, level),
        agree_in_use(a, b),
    ensures
        source_in_use(b, src, level),
        tree_ok(a, src, level, path) == tree_ok(b, src, level, path),
        tree_size(a, src, level) == tree_size(b, src, level),
        has_cycle(a, src, level, path) == has_cycle(b, src, level, path),
        bad_leaf(a, src, level) == bad_leaf(b, src, level),
    decreases level,
{
    if valid_frame(src) {
        assert forall|i: int| 0 <= i < 512 implies #[trigger] b.entry(src, i) == a.entry(src, i) by {}
        assert forall|i: int| 0 <= i < 512 && descends(#[trigger] a.entry(src, i), level) implies {
            &&& source_in_use(b, a.entry(src, i) & ADDRESS, level - 1)
            &&& tree_ok(a, a.entry(src, i) & ADDRESS, level - 1, path.push(src)) == tree_ok(b, a.entry(src, i) & ADDRESS, level - 1, path.push(src))
            &&& tree_size(a, a.entry(src, i) & ADDRESS, level - 1) == tree_size(b, a.entry(src, i) & ADDRESS, level - 1)
            &&& has_cycle(a, a.entry(src, i) & ADDRESS, level - 1, path.push(src)) == has_cycle(b, a.entry(src, i) & ADDRESS, level - 1, path.push(src))
            &&& bad_leaf(a, a.entry(src, i) & ADDRESS, level - 1) == bad_leaf(b, a.entry(src, i) & ADDRESS, level - 1)
        } by {
            lemma_source_transfer(a, b, a.entry(src, i) & ADDRESS, level - 1, path.push(src));
        }
        if has_cycle(a, src, level, path) && !path.contains(src) {
            let i = choose|i: int|
                #![trigger a.entry(src, i)]
                0 <= i < 512 && descends(a.entry(src, i), level) && has_cycle(a, a.entry(src, i) & ADDRESS, level - 1, path.push(src));
            assert(b.entry(src, i) == a.entry(src, i));
        }
        if has_cycle(b, src, level, path) && !path.contains(src) {
            let i = choose|i: int|
                #![trigger b.entry(src, i)]
                0 <= i < 512 && descends(b.entry(src, i), level) && has_cycle(b, b.entry(src, i) & ADDRESS, level - 1, path.push(src));
            assert(b.entry(src, i) == a.entry(src, i));
        }
        if bad_leaf(a, src, level) {
            let i = choose|i: int|
                #![trigger a.entry(src, i)]
                0 <= i < 512 && ((large_leaf(a.entry(src, i), level) && !large_leaf_ok(a.entry(src, i), level))
                    || (descends(a.entry(src, i), level) && bad_leaf(a, a.entry(src, i) & ADDRESS, level - 1)));
            assert(b.entry(src, i) == a.entry(src, i));
        }
        if bad_leaf(b, src, level) {
            let i = choose|i: int|
                #![trigger b.entry(src, i)]
                0 <= i < 512 && ((large_leaf(b.entry(src, i), level) && !large_leaf_ok(b.entry(src, i), level))
                    || (descends(b.entry(src, i), level) && bad_leaf(b, b.entry(src, i) & ADDRESS, level - 1)));
            assert(b.entry(src, i) == a.entry(src, i));
        }
        assert forall|i: int| 0 <= i < 512 && descends(#[trigger] b.entry(src, i), level) implies source_in_use(b, b.entry(src, i) & ADDRESS, level - 1) by {
            assert(descends(a.entry(src, i), level));
        }
        assert(source_in_use(b, src, level));
        if tree_ok(a, src, level, path) {
            assert forall|i: int| 0 <= i < 512 implies {
                let e = #[trigger] b.entry(src, i);
                &&& large_leaf(e, level) ==> large_leaf_ok(e, level)
                &&& descends(e, level) ==> tree_ok(b, e & ADDRESS, level - 1, path.push(src))
            } by {
                assert(b.entry(src, i) == a.entry(src, i));
            }
        }
        if tree_ok(b, src, level, path) {
            assert forall|i: int| 0 <= i < 512 implies {
                let e = #[trigger] a.entry(src, i);
                &&& large_leaf(e, level) ==> large_leaf_ok(e, level)
                &&& descends(e, level) ==> tree_ok(a, e & ADDRESS, level - 1, path.push(src))
            } by {
                assert(b.entry(src, i) == a.entry(src, i));
            }
        }
        lemma_children_from(a, b, src, level, 0);
    }
}

proof fn lemma_children_from<M: TableMemory>(a: M, b: M, src: u64, level: int, j: int)
    requires
        valid_frame(src),
        0 <= j <= 512,
        forall|k: int| 0 <= k < 512 ==> #[trigger] b.entry(src, k) == a.entry(src, k),
        forall|k: int| 0 <= k < 512 && descends(#[trigger] a.entry(src, k), level) ==> tree_size(a, a.entry(src, k) & ADDRESS, level - 1) == tree_size(b, a.entry(src, k) & ADDRESS, level - 1),
    ensures
        children_size(a, src, level, j) == children_size(b, src, level, j),
    decreases 512 - j,
{
    if j < 512 {
        lemma_children_from(a, b, src, level, j + 1);
        assert(b.entry(src, j) == a.entry(src, j));
    }
}

/// Reading the source through a memory that agrees on in-use frames gives
/// the same copy relation.
proof fn lemma_cloned_before<M: TableMemory>(old: M, pre: M, after: M, src: u64, dst: u64, level: int, path: Seq<u64>, frames: Set<u64>)
    requires
        source_in_use(old, src, level),
        tree_ok(old, src, level, path),
        agree_in_use(old, pre),
        cloned(pre, after, src, dst, level, frames),
    ensures
        cloned(old, after, src, dst, level, frames),
    decreases level,
{
    assert forall|i: int| 0 <= i < 512 implies {
        let e = #[trigger] old.entry(src, i);
        let d = after.entry(dst, i);
        if descends(e, level) {
            &&& d & !ADDRESS == e & !ADDRESS
            &&& cloned(old, after, e & ADDRESS, d & ADDRESS, level - 1, frames)
        } else {
            d == e
        }
    } by {
        assert(pre.entry(src, i) == old.entry(src, i));
        let e = old.entry(src, i);
        if descends(e, level) {
            lemma_cloned_before(old, pre, after, e & ADDRESS, after.entry(dst, i) & ADDRESS, level - 1, path.push(src), frames);
        }
    }
}

proof fn lemma_children_step<M: TableMemory>(m: M, src: u64, level: int, i: int)
    requires
        0 <= i < 512,
    ensures
        children_size(m, src, level, i) == (if descends(m.entry(src, i), level) {
            tree_size(m, m.entry(src, i) & ADDRESS, level - 1)
        } else {
            0
        }) + children_size(m, src, level, i + 1),
{
}

fn clone_table<const LIMIT: usize>(
    memory: &mut impl TableMemory,
    source: u64,
    level: usize,
    ancestors: &mut Vec<u64>,
    allocated: &mut Vec<u64>,
) -> (r: Result<u64, CloneError>)
    requires
        1 <= level <= 4,
        old(ancestors)@.len() == 4,
        old(allocated)@.len() <= LIMIT,
        old(allocated)@.no_duplicates(),
        forall|j: int| 0 <= j < old(allocated)@.len() ==> old(memory).in_use(#[trigger] old(allocated)@[j]),
        source_in_use(*old(memory), source, level as int),
    ensures
        final(allocated)@.take(old(allocated)@.len() as int) == old(allocated)@,
        final(allocated)@.len() >= old(allocated)@.len(),
        final(allocated)@.len() <= LIMIT,
        final(allocated)@.no_duplicates(),
        fresh_frames(*old(memory), *final(memory), final(allocated)@.skip(old(allocated)@.len() as int)),
        in_use_grown(*old(memory), *final(memory), final(allocated)@.skip(old(allocated)@.len() as int)),
        agree_in_use(*old(memory), *final(memory)),
        final(ancestors)@.len() == 4,
        final(ancestors)@.take(4 - level) == old(ancestors)@.take(4 - level),
        !valid_frame(source) ==> r == Err::<u64, CloneError>(CloneError::InvalidFrame)
            && final(allocated)@ == old(allocated)@ && *final(memory) == *old(memory),
        !tree_ok(*old(memory), source, level as int, old(ancestors)@.take(4 - level)) ==> r is Err,
        r == Err::<u64, CloneError>(CloneError::Cycle) ==> has_cycle(*old(memory), source, level as int, old(ancestors)@.take(4 - level)),
        r == Err::<u64, CloneError>(CloneError::InvalidHugePage) ==> bad_leaf(*old(memory), source, level as int),
        r == Err::<u64, CloneError>(CloneError::TableLimit) ==> old(allocated)@.len() + tree_size(*old(memory), source, level as int) > LIMIT,
        r == Err::<u64, CloneError>(CloneError::OutOfMemory) ==> old(memory).frames_left() < tree_size(*old(memory), source, level as int),
        r is Ok ==> final(memory).frames_left() + final(allocated)@.len() >= old(memory).frames_left() + old(allocated)@.len(),
        r is Ok ==> {
            let new = final(allocated)@.skip(old(allocated)@.len() as int);
            let d = r->Ok_0;
            &&& new.len() > 0
            &&& new[0] == d
            &&& valid_frame(d)
            &&& tree_ok(*old(memory), source, level as int, old(ancestors)@.take(4 - level))
            &&& cloned(*old(memory), *final(memory), source, d, level as int, new.to_set())
            &&& new.len() == tree_size(*old(memory), source, level as int)
        },
    decreases level,
{
    let ghost before = *memory;
    let ghost old_alloc = allocated@;
    let ghost base = allocated@.len() as int;
    let ghost path = ancestors@.take(4 - level);
    if source == 0 || source & !ADDRESS != 0 {
        proof {
            assert(allocated@.skip(base) =~= Seq::<u64>::empty());
            assert(allocated@.take(base) =~= old_alloc);
        }
        return Err(CloneError::InvalidFrame);
    }
    let depth = 4 - level;
    let mut j: usize = 0;
    while j < depth
        invariant
            j <= depth,
            depth == 4 - level,
            ancestors@.len() == 4,
            path == ancestors@.take(depth as int),
            forall|k: int| 0 <= k < j ==> ancestors@[k] != source,
            allocated@ == old_alloc,
            base == old_alloc.len(),
            *memory == before,
            valid_frame(source),
            old(allocated)@ == old_alloc,
            *old(memory) == before,
            old_alloc.len() <= LIMIT,
            old_alloc.no_duplicates(),
        decreases depth - j,
    {
        if ancestors[j] == source {
            proof {
                assert(path[j as int] == source);
                assert(path.contains(source));
                assert(allocated@.skip(base) =~= Seq::<u64>::empty());
                assert(allocated@.take(base) =~= old_alloc);
                assert(has_cycle(before, source, level as int, path));
            }
            return Err(CloneError::Cycle);
        }
        j += 1;
    }
    proof {
        assert(!path.contains(source)) by {
            if path.contains(source) {
                let k = choose|k: int| 0 <= k < path.len() && (#[trigger] path[k]) == source;
                assert(ancestors@[k] == source);
            }
        }
    }
    ancestors.set(depth, source);
    proof {
        assert(ancestors@.take(depth as int) =~= path);
        assert(ancestors@.take(depth as int + 1) =~= path.push(source));
    }
    if allocated.len() == LIMIT {
        proof {
            assert(allocated@.skip(base) =~= Seq::<u64>::empty());
            assert(allocated@.take(base) =~= old_alloc);
        }
        return Err(CloneError::TableLimit);
    }
    let destination = match memory.allocate() {
        Some(frame) => frame,
        None => {
            proof {
                assert(allocated@.skip(base) =~= Seq::<u64>::empty());
                assert(allocated@.take(base) =~= old_alloc);
                assert(tree_size(before, source, level as int) >= 1);
            }
            return Err(CloneError::OutOfMemory);
        },
    };
    allocated.push(destination);
    proof {
        assert(allocated@.skip(base) =~= seq![destination]);
        assert(allocated@.take(base) =~= old_alloc);
        assert(allocated@.no_duplicates()) by {
            assert forall|a: int, b: int| 0 <= a < b < allocated@.len() implies allocated@[a] != allocated@[b] by {
                if b == base {
                    assert(before.in_use(old_alloc[a]));
                }
            }
        }
        assert forall|f: u64| #[trigger] memory.in_use(f) == (before.in_use(f) || allocated@.skip(base).contains(f)) by {
            if f == destination {
                assert(allocated@.skip(base)[0] == f);
            }
        }
    }
    if destination == 0 || destination & !ADDRESS != 0 {
        return Err(CloneError::InvalidFrame);
    }

    let mut index: usize = 0;
    while index < 512
        invariant
            1 <= level <= 4,
            depth == 4 - level,
            valid_frame(source),
            valid_frame(destination),
            source_in_use(before, source, level as int),
            !path.contains(source),
            ancestors@.len() == 4,
            ancestors@.take(depth as int) == path,
            ancestors@.take(depth as int + 1) == path.push(source),
            allocated@.len() <= LIMIT,
            base == old_alloc.len(),
            old(allocated)@ == old_alloc,
            *old(memory) == before,
            path == old(ancestors)@.take(4 - level),
            forall|k: int| 0 <= k < old_alloc.len() ==> before.in_use(#[trigger] old_alloc[k]),
            allocated@.len() > base,
            allocated@.take(base) == old_alloc,
            allocated@[base] == destination,
            allocated@.no_duplicates(),
            forall|k: int| base <= k < allocated@.len() ==> !before.in_use(#[trigger] allocated@[k]) && memory.in_use(allocated@[k]),
            forall|f: u64| #[trigger] memory.in_use(f) == (before.in_use(f) || allocated@.skip(base).contains(f)),
            agree_in_use(before, *memory),
            memory.frames_left() + allocated@.len() >= before.frames_left() + base,
            index <= 512,
            allocated@.len() - base == 1 + children_size(before, source, level as int, 0) - children_size(before, source, level as int, index as int),
            forall|k: int| 0 <= k < index ==> {
                let e = #[trigger] before.entry(source, k);
                let d = memory.entry(destination, k);
                &&& large_leaf(e, level as int) ==> large_leaf_ok(e, level as int)
                &&& if descends(e, level as int) {
                    &&& d & !ADDRESS == e & !ADDRESS
                    &&& tree_ok(before, e & ADDRESS, level - 1, path.push(source))
                    &&& cloned(before, *memory, e & ADDRESS, d & ADDRESS, level - 1, allocated@.subrange(base + 1, allocated@.len() as int).to_set())
                } else {
                    d == e
                }
            },
        decreases 512 - index,
    {
        let ghost pre = *memory;
        let ghost pre_alloc = allocated@;
        let entry = memory.read(source, index);
        proof {
            assert(before.in_use(source));
            assert(entry == before.entry(source, index as int));
            lemma_children_step(before, source, level as int, index as int);
        }
        let mut replacement = entry;
        if entry & PRESENT != 0 && level > 1 {
            if entry & HUGE != 0 {
                if level == 4 {
                    proof {
                        lemma_new_frames(allocated@, base, before, *memory);
                        assert(allocated@.take(base) =~= old_alloc);
                        assert(large_leaf(before.entry(source, index as int), level as int));
                        assert(!large_leaf_ok(before.entry(source, index as int), level as int));
                        assert(bad_leaf(before, source, level as int));
                    }
                    return Err(CloneError::InvalidHugePage);
                }
                let reserved: u64 = if level == 3 { 0x3fff_e000 } else { 0x1f_e000 };
                if entry & reserved != 0 {
                    proof {
                        lemma_new_frames(allocated@, base, before, *memory);
                        assert(allocated@.take(base) =~= old_alloc);
                        assert(reserved == reserved_bits(level as int));
                        assert(large_leaf(before.entry(source, index as int), level as int));
                        assert(!large_leaf_ok(before.entry(source, index as int), level as int));
                        assert(bad_leaf(before, source, level as int));
                    }
                    return Err(CloneError::InvalidHugePage);
                }
            } else {
                let ghost child_src = entry & ADDRESS;
                proof {
                    assert(descends(entry, level as int));
                    lemma_source_transfer(before, pre, child_src, level - 1, path.push(source));
                    assert forall|k: int| 0 <= k < allocated@.len() implies pre.in_use(#[trigger] allocated@[k]) by {
                        if k < base {
                            assert(allocated@.take(base)[k] == allocated@[k]);
                            assert(allocated@[k] == old_alloc[k]);
                            assert(before.in_use(old_alloc[k]));
                        }
                    }
                }
                let child = match clone_table::<LIMIT>(memory, entry & ADDRESS, level - 1, ancestors, allocated) {
                    Ok(c) => c,
                    Err(e) => {
                        proof {
                            let new = allocated@.skip(base);
                            assert(allocated@.take(base) =~= old_alloc) by {
                                assert(allocated@.take(pre_alloc.len() as int) == pre_alloc);
                                assert forall|i: int| 0 <= i < base implies allocated@[i] == old_alloc[i] by {
                                    assert(allocated@.take(pre_alloc.len() as int)[i] == allocated@[i]);
                                    assert(pre_alloc.take(base)[i] == pre_alloc[i]);
                                }
                            }
                            assert forall|k: int| 0 <= k < new.len() implies !before.in_use(#[trigger] new[k]) && memory.in_use(new[k]) by {
                                assert(new[k] == allocated@[base + k]);
                                if base + k >= pre_alloc.len() {
                                    assert(allocated@.skip(pre_alloc.len() as int)[base + k - pre_alloc.len()] == allocated@[base + k]);
                                } else {
                                    assert(allocated@[base + k] == pre_alloc[base + k]);
                                }
                            }
                            assert forall|f: u64| #[trigger] memory.in_use(f) == (before.in_use(f) || new.contains(f)) by {
                                lemma_tail_contains(pre_alloc, allocated@, base, f);
                            }
                            assert(ancestors@.take(depth as int) =~= path) by {
                                assert(ancestors@.take(depth as int + 1) == path.push(source));
                            }
                            assert(descends(before.entry(source, index as int), level as int));
                            if e == CloneError::Cycle {
                                assert(has_cycle(before, child_src, level - 1, path.push(source)));
                                assert(has_cycle(before, source, level as int, path));
                            }
                            if e == CloneError::InvalidHugePage {
                                assert(bad_leaf(before, child_src, level - 1));
                                assert(bad_leaf(before, source, level as int));
                            }
                            if e == CloneError::TableLimit {
                                assert(tree_size(before, source, level as int) == 1 + children_size(before, source, level as int, 0));
                                assert(pre_alloc.len() + tree_size(before, child_src, level - 1) > LIMIT);
                            }
                            if e == CloneError::OutOfMemory {
                                assert(tree_size(before, source, level as int) == 1 + children_size(before, source, level as int, 0));
                                assert(pre.frames_left() < tree_size(before, child_src, level - 1));
                            }
                        }
                        return Err(e);
                    },
                };
                proof {
                    let post = *memory;
                    let child_new = allocated@.skip(pre_alloc.len() as int);
                    lemma_replacement(entry, child);
                    lemma_source_transfer(before, pre, child_src, level - 1, path.push(source));
                    lemma_cloned_before(before, pre, post, child_src, child, level - 1, path.push(source), child_new.to_set());
                    assert(allocated@.take(pre_alloc.len() as int) == pre_alloc);
                    let sub = allocated@.subrange(base + 1, allocated@.len() as int).to_set();
                    assert(child_new.to_set().subset_of(sub)) by {
                        assert forall|f: u64| child_new.to_set().contains(f) implies sub.contains(f) by {
                            let k = choose|k: int| 0 <= k < child_new.len() && (#[trigger] child_new[k]) == f;
                            assert(allocated@.subrange(base + 1, allocated@.len() as int)[pre_alloc.len() + k - base - 1] == f);
                        }
                    }
                    lemma_cloned_stable(before, post, post, child_src, child, level - 1, child_new.to_set(), sub);
                }
                replacement = (entry & !ADDRESS) | child;
            }
        }
        proof {
            assert(memory.in_use(destination)) by {
                assert(allocated@[base] == destination);
            }
        }
        let ghost mid = *memory;
        memory.write(destination, index, replacement);
        proof {
            let fin = *memory;
            let sub_now = allocated@.subrange(base + 1, allocated@.len() as int).to_set();
            let sub_pre = pre_alloc.subrange(base + 1, pre_alloc.len() as int).to_set();
            assert(pre_alloc.take(base) == old_alloc);
            assert(allocated@.take(pre_alloc.len() as int) == pre_alloc);
            assert(sub_pre.subset_of(sub_now)) by {
                assert forall|f: u64| sub_pre.contains(f) implies sub_now.contains(f) by {
                    let k = choose|k: int| 0 <= k < pre_alloc.len() - base - 1 && (#[trigger] pre_alloc.subrange(base + 1, pre_alloc.len() as int)[k]) == f;
                    assert(allocated@.take(pre_alloc.len() as int)[base + 1 + k] == allocated@[base + 1 + k]);
                    assert(allocated@.subrange(base + 1, allocated@.len() as int)[k] == f);
                }
            }
            assert(!sub_now.contains(destination)) by {
                if sub_now.contains(destination) {
                    let k = choose|k: int| 0 <= k < allocated@.len() - base - 1 && (#[trigger] allocated@.subrange(base + 1, allocated@.len() as int)[k]) == destination;
                    assert(allocated@[base + 1 + k] == allocated@[base]);
                }
            }
            assert(same_on(mid, fin, sub_now));
            assert(same_on(pre, mid, sub_pre)) by {
                assert forall|f: u64, i: int| sub_pre.contains(f) implies #[trigger] pre.entry(f, i) == mid.entry(f, i) by {
                    let k = choose|k: int| 0 <= k < pre_alloc.len() - base - 1 && (#[trigger] pre_alloc.subrange(base + 1, pre_alloc.len() as int)[k]) == f;
                    assert(pre.in_use(f)) by {
                        assert(pre_alloc[base + 1 + k] == f);
                    }
                }
            }
            assert forall|k: int| 0 <= k < index implies {
                let e = #[trigger] before.entry(source, k);
                let d = fin.entry(destination, k);
                &&& large_leaf(e, level as int) ==> large_leaf_ok(e, level as int)
                &&& if descends(e, level as int) {
                    &&& d & !ADDRESS == e & !ADDRESS
                    &&& tree_ok(before, e & ADDRESS, level - 1, path.push(source))
                    &&& cloned(before, fin, e & ADDRESS, d & ADDRESS, level - 1, sub_now)
                } else {
                    d == e
                }
            } by {
                let e = before.entry(source, k);
                assert(fin.entry(destination, k) == pre.entry(destination, k));
                if descends(e, level as int) {
                    let d = pre.entry(destination, k);
                    lemma_cloned_stable(before, pre, mid, e & ADDRESS, d & ADDRESS, level - 1, sub_pre, sub_now);
                    lemma_cloned_stable(before, mid, fin, e & ADDRESS, d & ADDRESS, level - 1, sub_now, sub_now);
                }
            }
            let e = before.entry(source, index as int);
            if descends(e, level as int) {
                assert(fin.entry(destination, index as int) == replacement);
                lemma_cloned_stable(before, mid, fin, e & ADDRESS, replacement & ADDRESS, level - 1, sub_now, sub_now);
            }
            assert forall|f: u64| #[trigger] fin.in_use(f) == (before.in_use(f) || allocated@.skip(base).contains(f)) by {
                lemma_tail_contains(pre_alloc, allocated@, base, f);
                if pre_alloc.len() < allocated@.len() {
                    lemma_tail_contains(pre_alloc, allocated@, pre_alloc.len() as int, f);
                }
            }
            assert forall|k: int| base <= k < allocated@.len() implies !before.in_use(#[trigger] allocated@[k]) && fin.in_use(allocated@[k]) by {
                if k >= pre_alloc.len() {
                    assert(allocated@.skip(pre_alloc.len() as int)[k - pre_alloc.len()] == allocated@[k]);
                } else {
                    assert(allocated@[k] == pre_alloc[k]);
                }
            }
            assert(agree_in_use(before, fin));
        }
        index += 1;
    }
    proof {
        let fin = *memory;
        let new = allocated@.skip(base);
        assert(allocated@.take(base) =~= old_alloc);
        assert(ancestors@.take(depth as int) == path);
        assert(tree_ok(before, source, level as int, path));
        let sub = allocated@.subrange(base + 1, allocated@.len() as int).to_set();
        assert(sub.subset_of(new.to_set())) by {
            assert forall|f: u64| sub.contains(f) implies new.to_set().contains(f) by {
                let k = choose|k: int| 0 <= k < allocated@.len() - base - 1 && (#[trigger] allocated@.subrange(base + 1, allocated@.len() as int)[k]) == f;
                assert(new[k + 1] == f);
            }
        }
        assert(new[0] == destination);
        assert forall|k: int| 0 <= k < 512 implies {
            let e = #[trigger] before.entry(source, k);
            let d = fin.entry(destination, k);
            if descends(e, level as int) {
                &&& d & !ADDRESS == e & !ADDRESS
                &&& cloned(before, fin, e & ADDRESS, d & ADDRESS, level - 1, new.to_set())
            } else {
                d == e
            }
        } by {
            let e = before.entry(source, k);
            if descends(e, level as int) {
                let d = fin.entry(destination, k);
                lemma_cloned_stable(before, fin, fin, e & ADDRESS, d & ADDRESS, level - 1, sub, new.to_set());
            }
        }
        assert(cloned(before, fin, source, destination, level as int, new.to_set()));
        assert forall|j: int| 0 <= j < new.len() implies !before.in_use(#[trigger] new[j]) && fin.in_use(new[j]) by {
            assert(new[j] == allocated@[base + j]);
        }
    }
    Ok(destination)
}

proof fn lemma_new_frames<M: TableMemory>(alloc: Seq<u64>, base: int, before: M, now: M)
    requires
        0 <= base <= alloc.len(),
        forall|k: int| base <= k < alloc.len() ==> !before.in_use(#[trigger] alloc[k]) && now.in_use(alloc[k]),
    ensures
        forall|j: int| 0 <= j < alloc.skip(base).len() ==> !before.in_use(#[trigger] alloc.skip(base)[j]) && now.in_use(alloc.skip(base)[j]),
{
    assert forall|j: int| 0 <= j < alloc.skip(base).len() implies !before.in_use(#[trigger] alloc.skip(base)[j]) && now.in_use(alloc.skip(base)[j]) by {
        assert(alloc.skip(base)[j] == alloc[base + j]);
    }
}

/// Membership in the frames allocated since `base`, split at the length of
/// an earlier snapshot.
proof fn lemma_tail_contains(pre: Seq<u64>, now: Seq<u64>, base: int, f: u64)
    requires
        0 <= base <= pre.len() <= now.len(),
        now.take(pre.len() as int) == pre,
    ensures
        now.skip(base).contains(f) == (pre.skip(base).contains(f) || now.skip(pre.len() as int).contains(f)),
{
    if now.skip(base).contains(f) {
        let k = choose|k: int| 0 <= k < now.skip(base).len() && (#[trigger] now.skip(base)[k]) == f;
        if base + k < pre.len() {
            assert(pre.skip(base)[k] == f);
        } else {
            assert(now.skip(pre.len() as int)[base + k - pre.len()] == f);
        }
    }
    if pre.skip(base).contains(f) {
        let k = choose|k: int| 0 <= k < pre.skip(base).len() && (#[trigger] pre.skip(base)[k]) == f;
        assert(now.skip(base)[k] == f);
    }
    if now.skip(pre.len() as int).contains(f) {
        let k = choose|k: int| 0 <= k < now.skip(pre.len() as int).len() && (#[trigger] now.skip(pre.len() as int)[k]) == f;
        assert(now.skip(base)[pre.len() - base + k] == f);
    }
}

/// How the frame allocator's count can disagree with a clone.
#[derive(Clone, Copy, Debug, PartialEq, Eq, Structural)]
pub enum AccountingError {
    /// The allocator has more free bytes than before the clone.
    Underflow,
    /// The bytes taken are not one page per table of the clone.
    Mismatch,
}

/// Checks that a clone of `table_frames` tables took exactly one 4 KiB page
/// per table from an allocator that had `free_before` bytes free before the
/// clone and has `free_after` now.
pub fn check_clone_accounting(free_before: u64, free_after: u64, table_frames: usize) -> (r: Result<(), AccountingError>)
    ensures
        free_after > free_before ==> r == Err::<(), AccountingError>(AccountingError::Underflow),
        free_after <= free_before ==> (r is Ok <==> free_before - free_after == table_frames * 4096),
        free_after <= free_before && r is Err ==> r == Err::<(), AccountingError>(AccountingError::Mismatch),
{
    if free_after > free_before {
        return Err(AccountingError::Underflow);
    }
    let consumed = free_before - free_after;
    match (table_frames as u64).checked_mul(4096) {
        Some(expected) => if consumed == expected {
            Ok(())
        } else {
            Err(AccountingError::Mismatch)
        },
        None => Err(AccountingError::Mismatch),
    }
}

/// Deep-copy every present table, retaining leaf addresses and ALL flags.
/// 1 GiB/2 MiB leaves are not descended into; bit 7 at level 1 is PAT.
/// A failed attempt frees all allocations and never writes to the source.
/// Recursive mappings are rejected; Generic uses a physical direct map instead.
pub fn clone_root<const LIMIT: usize>(memory: &mut impl TableMemory, source: u64) -> (r: Result<
    OwnedRoot,
    CloneError,
>)
    requires
        source_in_use(*old(memory), source, 4),
    ensures
        agree_in_use(*old(memory), *final(memory)),
        !valid_frame(source) ==> r == Err::<OwnedRoot, CloneError>(CloneError::InvalidFrame)
            && *final(memory) == *old(memory),
        !tree_ok(*old(memory), source, 4, Seq::empty()) ==> r is Err,
        tree_size(*old(memory), source, 4) > LIMIT ==> r is Err,
        r == Err::<OwnedRoot, CloneError>(CloneError::Cycle) ==> has_cycle(*old(memory), source, 4, Seq::empty()),
        r == Err::<OwnedRoot, CloneError>(CloneError::InvalidHugePage) ==> bad_leaf(*old(memory), source, 4),
        r == Err::<OwnedRoot, CloneError>(CloneError::TableLimit) ==> tree_size(*old(memory), source, 4) > LIMIT,
        r == Err::<OwnedRoot, CloneError>(CloneError::OutOfMemory) ==> old(memory).frames_left() < tree_size(*old(memory), source, 4),
        tree_ok(*old(memory), source, 4, Seq::empty()) ==> r != Err::<OwnedRoot, CloneError>(CloneError::Cycle)
            && r != Err::<OwnedRoot, CloneError>(CloneError::InvalidHugePage),
        has_cycle(*old(memory), source, 4, Seq::empty()) && !bad_leaf(*old(memory), source, 4) && tree_size(*old(memory), source, 4) <= LIMIT
            && tree_size(*old(memory), source, 4) <= old(memory).frames_left() ==> r == Err::<OwnedRoot, CloneError>(CloneError::Cycle)
            || r == Err::<OwnedRoot, CloneError>(CloneError::InvalidFrame),
        match r {
            Ok(root) => exists|frames: Seq<u64>|
                {
                    &&& frames.no_duplicates()
                    &&& frames.len() == root.table_frames
                    &&& root.table_frames == tree_size(*old(memory), source, 4)
                    &&& root.table_frames <= LIMIT
                    &&& fresh_frames(*old(memory), *final(memory), frames)
                    &&& in_use_grown(*old(memory), *final(memory), frames)
                    &&& frames[0] == root.physical
                    &&& tree_ok(*old(memory), source, 4, Seq::empty())
                    &&& cloned(*old(memory), *final(memory), source, root.physical, 4, frames.to_set())
                },
            Err(_) => forall|f: u64| #[trigger] final(memory).in_use(f) == old(memory).in_use(f),
        },
{
    proof {
        lemma_faults_break_tree(*memory, source, 4, Seq::empty());
    }
    let ghost before = *memory;
    let mut allocated: Vec<u64> = Vec::new();
    let mut ancestors: Vec<u64> = vec![0u64, 0u64, 0u64, 0u64];
    proof {
        assert(ancestors@.take(0) =~= Seq::<u64>::empty());
        assert(allocated@.skip(0) =~= allocated@);
    }
    let result = clone_table::<LIMIT>(memory, source, 4, &mut ancestors, &mut allocated);
    proof {
        assert(allocated@.skip(0) =~= allocated@);
    }
    match result {
        Ok(physical) => Ok(OwnedRoot { physical, table_frames: allocated.len() }),
        Err(error) => {
            let mut i = allocated.len();
            while i > 0
                invariant
                    i <= allocated@.len(),
                    allocated@.no_duplicates(),
                    fresh_frames(before, *memory, allocated@.take(i as int)),
                    forall|f: u64| #[trigger] memory.in_use(f) == (before.in_use(f) || allocated@.take(i as int).contains(f)),
                    agree_in_use(before, *memory),
                    forall|f: u64, k: int| before.in_use(f) ==> #[trigger] memory.entry(f, k) == before.entry(f, k),
                    !valid_frame(source) ==> *memory == before && allocated@.len() == 0,
                decreases i,
            {
                let ghost pre = *memory;
                let frame = allocated[i - 1];
                proof {
                    assert(allocated@.take(i as int)[i - 1] == frame);
                }
                memory.release(frame);
                proof {
                    let t = allocated@.take(i - 1);
                    assert forall|j: int| 0 <= j < t.len() implies !before.in_use(#[trigger] t[j]) && memory.in_use(t[j]) by {
                        assert(t[j] == allocated@.take(i as int)[j]);
                        assert(t[j] != frame);
                    }
                    assert forall|f: u64| #[trigger] memory.in_use(f) == (before.in_use(f) || t.contains(f)) by {
                        if allocated@.take(i as int).contains(f) && f != frame {
                            let k = choose|k: int| 0 <= k < i && (#[trigger] allocated@.take(i as int)[k]) == f;
                            assert(t[k] == f);
                        }
                        if t.contains(f) {
                            let k = choose|k: int| 0 <= k < i - 1 && (#[trigger] t[k]) == f;
                            assert(allocated@.take(i as int)[k] == f);
                        }
                        if f == frame {
                            assert(!before.in_use(frame));
                            if t.contains(f) {
                                let k = choose|k: int| 0 <= k < i - 1 && (#[trigger] t[k]) == f;
                                assert(allocated@[k] == allocated@[i - 1]);
                            }
                        }
                    }
                }
                i -= 1;
            }
            proof {
                assert forall|f: u64| #[trigger] memory.in_use(f) == before.in_use(f) by {
                    assert(!allocated@.take(0).contains(f));
                }
            }
            Err(error)
        },
    }
}

} // verus!
