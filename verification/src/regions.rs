//! Sets of byte addresses described by sequences of regions.

use crate::Region;
use vstd::prelude::*;
use vstd::set_lib::set_int_range;

verus! {

pub open spec fn region_len(r: Region) -> int {
    r.end - r.start
}

/// Some region of `s` contains address `a`.
pub open spec fn covers(s: Seq<Region>, a: int) -> bool {
    exists|i: int| 0 <= i < s.len() && (#[trigger] s[i]).start <= a < s[i].end
}

/// The byte addresses covered by the regions of `s`.
pub open spec fn addr_set(s: Seq<Region>) -> Set<int> {
    Set::new(|a: int| covers(s, a))
}

/// Total number of bytes of the regions of `s`.
pub open spec fn sum_len(s: Seq<Region>) -> int
    decreases s.len(),
{
    if s.len() == 0 {
        0
    } else {
        sum_len(s.drop_last()) + region_len(s.last())
    }
}

/// Non-empty, sorted, and strictly separated: no two regions touch, so the
/// sequence is the canonical decomposition of its address set.
pub open spec fn separated(s: Seq<Region>) -> bool {
    &&& forall|i: int| 0 <= i < s.len() ==> #[trigger] s[i].start < s[i].end
    &&& forall|i: int, j: int| 0 <= i < j < s.len() ==> #[trigger] s[i].end < #[trigger] s[j].start
}

/// Every boundary of every region is a multiple of `a`.
pub open spec fn aligned_to(s: Seq<Region>, a: int) -> bool {
    forall|i: int|
        0 <= i < s.len() ==> (#[trigger] s[i]).start as int % a == 0 && s[i].end as int % a == 0
}

pub proof fn lemma_addr_set_len(s: Seq<Region>)
    requires
        separated(s),
    ensures
        addr_set(s).finite(),
        addr_set(s).len() == sum_len(s),
    decreases s.len(),
{
    if s.len() == 0 {
        assert(addr_set(s) =~= Set::empty());
    } else {
        let p = s.drop_last();
        let last = s.last();
        assert(separated(p)) by {
            assert forall|i: int, j: int| 0 <= i < j < p.len() implies #[trigger] p[i].end
                < #[trigger] p[j].start by {
                assert(s[i].end < s[j].start);
            }
            assert forall|i: int| 0 <= i < p.len() implies #[trigger] p[i].start < p[i].end by {
                assert(s[i].start < s[i].end);
            }
        }
        lemma_addr_set_len(p);
        let r = set_int_range(last.start as int, last.end as int);
        assert(s[s.len() - 1].start < s[s.len() - 1].end);
        vstd::set_lib::lemma_int_range(last.start as int, last.end as int);
        assert(addr_set(s) =~= addr_set(p) + r) by {
            assert forall|a: int| addr_set(s).contains(a) implies (addr_set(p) + r).contains(a) by {
                let i = choose|i: int| 0 <= i < s.len() && (#[trigger] s[i]).start <= a < s[i].end;
                if i < s.len() - 1 {
                    assert(p[i] == s[i]);
                }
            }
            assert forall|a: int| (addr_set(p) + r).contains(a) implies addr_set(s).contains(a) by {
                if addr_set(p).contains(a) {
                    let i = choose|i: int| 0 <= i < p.len() && (#[trigger] p[i]).start <= a < p[i].end;
                    assert(s[i] == p[i]);
                } else {
                    assert(s[s.len() - 1].start <= a < s[s.len() - 1].end);
                }
            }
        }
        assert(addr_set(p).disjoint(r)) by {
            assert forall|a: int| addr_set(p).contains(a) implies !r.contains(a) by {
                let i = choose|i: int| 0 <= i < p.len() && (#[trigger] p[i]).start <= a < p[i].end;
                assert(s[i].end < s[s.len() - 1].start);
            }
        }
        vstd::set_lib::lemma_set_disjoint_lens(addr_set(p), r);
    }
}

/// The regions of a separated map lie inside the 64-bit address space, so
/// their total size fits in a `u64`.
pub proof fn lemma_sum_fits(s: Seq<Region>)
    requires
        separated(s),
    ensures
        0 <= sum_len(s) <= u64::MAX,
{
    lemma_addr_set_len(s);
    let all = set_int_range(0, u64::MAX as int);
    vstd::set_lib::lemma_int_range(0, u64::MAX as int);
    assert(addr_set(s).subset_of(all)) by {
        assert forall|a: int| addr_set(s).contains(a) implies all.contains(a) by {
            let i = choose|i: int| 0 <= i < s.len() && (#[trigger] s[i]).start <= a < s[i].end;
        }
    }
    vstd::set_lib::lemma_len_subset(addr_set(s), all);
}

/// A subset relation between address sets bounds the byte totals.
pub proof fn lemma_sum_subset(s: Seq<Region>, t: Seq<Region>)
    requires
        separated(s),
        separated(t),
        addr_set(s).subset_of(addr_set(t)),
    ensures
        sum_len(s) <= sum_len(t),
{
    lemma_addr_set_len(s);
    lemma_addr_set_len(t);
    vstd::set_lib::lemma_len_subset(addr_set(s), addr_set(t));
}

/// Adding a disjoint range adds its length.
pub proof fn lemma_sum_add_range(s: Seq<Region>, t: Seq<Region>, lo: int, hi: int)
    requires
        separated(s),
        separated(t),
        lo <= hi,
        addr_set(t) == addr_set(s) + set_int_range(lo, hi),
        addr_set(s).disjoint(set_int_range(lo, hi)),
    ensures
        sum_len(t) == sum_len(s) + (hi - lo),
{
    lemma_addr_set_len(s);
    lemma_addr_set_len(t);
    vstd::set_lib::lemma_int_range(lo, hi);
    vstd::set_lib::lemma_set_disjoint_lens(addr_set(s), set_int_range(lo, hi));
}

/// `s` with the `c` regions starting at `k` replaced by `mid`.
pub open spec fn splice(s: Seq<Region>, k: int, c: int, mid: Seq<Region>) -> Seq<Region> {
    s.take(k) + mid + s.skip(k + c)
}

/// Replacing a window of a separated sequence by regions confined to a gap
/// [lo, hi) that the window fills keeps it separated, and changes the address
/// set only inside [lo, hi).
pub proof fn lemma_splice(s: Seq<Region>, k: int, c: int, mid: Seq<Region>, lo: int, hi: int)
    requires
        separated(s),
        separated(mid),
        0 <= k <= k + c <= s.len(),
        k > 0 ==> s[k - 1].end < lo,
        k + c < s.len() ==> hi < s[k + c].start,
        forall|i: int| 0 <= i < mid.len() ==> lo <= (#[trigger] mid[i]).start && mid[i].end <= hi,
        forall|i: int| k <= i < k + c ==> lo <= (#[trigger] s[i]).start && s[i].end <= hi,
    ensures
        separated(splice(s, k, c, mid)),
        addr_set(splice(s, k, c, mid)) == addr_set(s).difference(set_int_range(lo, hi)) + addr_set(mid),
{
    let n = splice(s, k, c, mid);
    let m = mid.len() as int;
    assert(n.len() == s.len() - c + m);
    assert forall|i: int| 0 <= i < n.len() implies #[trigger] n[i] == (if i < k {
        s[i]
    } else if i < k + m {
        mid[i - k]
    } else {
        s[i - m + c]
    }) by {
        if i < k {
            assert(n[i] == s.take(k)[i]);
        } else if i < k + m {
            assert(n[i] == (s.take(k) + mid)[i]);
        } else {
            assert(n[i] == s.skip(k + c)[i - k - m]);
        }
    }
    assert forall|i: int| 0 <= i < n.len() implies #[trigger] n[i].start < n[i].end by {
        if i < k {
            assert(s[i].start < s[i].end);
        } else if i < k + m {
            assert(mid[i - k].start < mid[i - k].end);
        } else {
            assert(s[i - m + c].start < s[i - m + c].end);
        }
    }
    assert forall|i: int, j: int| 0 <= i < j < n.len() implies #[trigger] n[i].end < #[trigger] n[j].start by {
        if j < k {
            assert(s[i].end < s[j].start);
        } else if j < k + m {
            if i < k {
                if i < k - 1 {
                    assert(s[i].end < s[k - 1].start);
                    assert(s[k - 1].start < s[k - 1].end);
                }
                assert(mid[j - k].start >= lo);
            } else {
                assert(mid[i - k].end < mid[j - k].start);
            }
        } else {
            let jj = j - m + c;
            if i < k {
                assert(s[i].end < s[jj].start);
            } else if i < k + m {
                assert(mid[i - k].end <= hi);
                if jj > k + c {
                    assert(s[k + c].end < s[jj].start);
                    assert(s[k + c].start < s[k + c].end);
                }
            } else {
                assert(s[i - m + c].end < s[jj].start);
            }
        }
    }
    let r = set_int_range(lo, hi);
    assert forall|a: int| addr_set(n).contains(a) implies (addr_set(s).difference(r) + addr_set(mid)).contains(a) by {
        let i = choose|i: int| 0 <= i < n.len() && (#[trigger] n[i]).start <= a < n[i].end;
        if i < k {
            assert(s[i].start <= a < s[i].end);
            if k > 0 && i < k - 1 {
                assert(s[i].end < s[k - 1].start);
                assert(s[k - 1].start < s[k - 1].end);
            }
        } else if i < k + m {
            assert(mid[i - k].start <= a < mid[i - k].end);
        } else {
            let ii = i - m + c;
            assert(s[ii].start <= a < s[ii].end);
            if ii > k + c {
                assert(s[k + c].end < s[ii].start);
                assert(s[k + c].start < s[k + c].end);
            }
        }
    }
    assert forall|a: int| (addr_set(s).difference(r) + addr_set(mid)).contains(a) implies addr_set(n).contains(a) by {
        if addr_set(mid).contains(a) {
            let i = choose|i: int| 0 <= i < mid.len() && (#[trigger] mid[i]).start <= a < mid[i].end;
            assert(n[i + k] == mid[i]);
        } else {
            let i = choose|i: int| 0 <= i < s.len() && (#[trigger] s[i]).start <= a < s[i].end;
            if i < k {
                assert(n[i] == s[i]);
            } else if i < k + c {
                assert(lo <= s[i].start && s[i].end <= hi);
            } else {
                assert(n[i - c + m] == s[i]);
            }
        }
    }
    assert(addr_set(n) =~= addr_set(s).difference(r) + addr_set(mid));
}

/// The address set of a single region.
pub proof fn lemma_single(r: Region)
    ensures
        addr_set(seq![r]) == set_int_range(r.start as int, r.end as int),
{
    assert forall|a: int| addr_set(seq![r]).contains(a) implies set_int_range(r.start as int, r.end as int).contains(a) by {
        let i = choose|i: int| 0 <= i < 1 && (#[trigger] seq![r][i]).start <= a < seq![r][i].end;
    }
    assert forall|a: int| set_int_range(r.start as int, r.end as int).contains(a) implies addr_set(seq![r]).contains(a) by {
        assert(seq![r][0] == r);
    }
    assert(addr_set(seq![r]) =~= set_int_range(r.start as int, r.end as int));
}

/// The address set of two regions.
pub proof fn lemma_pair(r: Region, q: Region)
    ensures
        addr_set(seq![r, q]) == set_int_range(r.start as int, r.end as int) + set_int_range(q.start as int, q.end as int),
{
    let s = seq![r, q];
    assert forall|a: int| addr_set(s).contains(a) implies (set_int_range(r.start as int, r.end as int) + set_int_range(q.start as int, q.end as int)).contains(a) by {
        let i = choose|i: int| 0 <= i < 2 && (#[trigger] s[i]).start <= a < s[i].end;
    }
    assert forall|a: int| (set_int_range(r.start as int, r.end as int) + set_int_range(q.start as int, q.end as int)).contains(a) implies addr_set(s).contains(a) by {
        assert(s[0] == r);
        assert(s[1] == q);
    }
    assert(addr_set(s) =~= set_int_range(r.start as int, r.end as int) + set_int_range(q.start as int, q.end as int));
}

/// Within a separated sequence, the part of the address set inside a gap
/// around region `k` is exactly that region.
pub proof fn lemma_region_in_set(s: Seq<Region>, k: int)
    requires
        separated(s),
        0 <= k < s.len(),
    ensures
        set_int_range(s[k].start as int, s[k].end as int).subset_of(addr_set(s)),
{
    assert forall|a: int| set_int_range(s[k].start as int, s[k].end as int).contains(a) implies addr_set(s).contains(a) by {
        assert(s[k].start <= a < s[k].end);
    }
}

/// A separated sequence is the unique canonical decomposition of its address
/// set: two separated sequences with the same address set are equal.
pub proof fn lemma_canonical(s: Seq<Region>, t: Seq<Region>)
    requires
        separated(s),
        separated(t),
        addr_set(s) == addr_set(t),
    ensures
        s == t,
    decreases s.len(),
{
    if s.len() == 0 {
        if t.len() > 0 {
            assert(t[0].start < t[0].end);
            assert(addr_set(t).contains(t[0].start as int));
        }
        assert(s =~= t);
    } else {
        if t.len() == 0 {
            assert(s[0].start < s[0].end);
            assert(addr_set(s).contains(s[0].start as int));
        }
        assert(t.len() > 0);
        lemma_first(s);
        lemma_first(t);
        let a = s[0];
        let b = t[0];
        assert(addr_set(s).contains(b.start as int));
        assert(addr_set(t).contains(a.start as int));
        assert(a.start == b.start);
        if a.end < b.end {
            assert(addr_set(t).contains(a.end as int));
        } else if b.end < a.end {
            assert(addr_set(s).contains(b.end as int));
        }
        assert(a == b);
        let s1 = s.skip(1);
        let t1 = t.skip(1);
        lemma_rest(s);
        lemma_rest(t);
        lemma_canonical(s1, t1);
        assert(s =~= seq![a] + s1);
        assert(t =~= seq![b] + t1);
    }
}

/// The first region of a separated sequence starts at the least address of
/// its set, and its end is the first missing address above it.
proof fn lemma_first(s: Seq<Region>)
    requires
        separated(s),
        s.len() > 0,
    ensures
        addr_set(s).contains(s[0].start as int),
        forall|a: int| addr_set(s).contains(a) ==> a >= s[0].start,
        !addr_set(s).contains(s[0].end as int),
        forall|a: int| s[0].start <= a < s[0].end ==> addr_set(s).contains(a),
{
    assert(s[0].start < s[0].end);
    assert forall|a: int| addr_set(s).contains(a) implies a >= s[0].start by {
        let i = choose|i: int| 0 <= i < s.len() && (#[trigger] s[i]).start <= a < s[i].end;
        if i > 0 {
            assert(s[0].end < s[i].start);
        }
    }
    if addr_set(s).contains(s[0].end as int) {
        let i = choose|i: int| 0 <= i < s.len() && (#[trigger] s[i]).start <= s[0].end < s[i].end;
        if i > 0 {
            assert(s[0].end < s[i].start);
        }
    }
    assert forall|a: int| s[0].start <= a < s[0].end implies addr_set(s).contains(a) by {
        assert(s[0].start <= a < s[0].end);
    }
}

/// Dropping the first region of a separated sequence removes exactly its
/// range from the address set.
proof fn lemma_rest(s: Seq<Region>)
    requires
        separated(s),
        s.len() > 0,
    ensures
        separated(s.skip(1)),
        addr_set(s.skip(1)) == addr_set(s).difference(set_int_range(s[0].start as int, s[0].end as int)),
{
    let r = s.skip(1);
    assert forall|i: int| 0 <= i < r.len() implies #[trigger] r[i].start < r[i].end by {
        assert(r[i] == s[i + 1]);
        assert(s[i + 1].start < s[i + 1].end);
    }
    assert forall|i: int, j: int| 0 <= i < j < r.len() implies #[trigger] r[i].end < #[trigger] r[j].start by {
        assert(s[i + 1].end < s[j + 1].start);
    }
    let d = addr_set(s).difference(set_int_range(s[0].start as int, s[0].end as int));
    assert forall|a: int| addr_set(r).contains(a) implies d.contains(a) by {
        let i = choose|i: int| 0 <= i < r.len() && (#[trigger] r[i]).start <= a < r[i].end;
        assert(r[i] == s[i + 1]);
        assert(s[0].end < s[i + 1].start);
    }
    assert forall|a: int| d.contains(a) implies addr_set(r).contains(a) by {
        let i = choose|i: int| 0 <= i < s.len() && (#[trigger] s[i]).start <= a < s[i].end;
        assert(i != 0);
        assert(r[i - 1] == s[i]);
    }
    assert(addr_set(r) =~= d);
}

} // verus!
