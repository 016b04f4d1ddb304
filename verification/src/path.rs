//! Pathname normalization: `.` and `..` handling and the name and path
//! length limits.

use crate::vfs::VfsError;
use vstd::prelude::*;
use vstd::string::{StrSliceExecFns, StringExecFns};
use vstd::utf8::encode_utf8;

verus! {

broadcast use vstd::string::group_string_axioms;

pub const NAME_MAX: usize = 255;

pub const PATH_MAX: usize = 4096;

/// The characters of `s`.
pub fn chars_of(s: &str) -> (r: Vec<char>)
    ensures
        r@ == s@,
{
    let mut out: Vec<char> = Vec::new();
    for c in iter: s.chars()
        invariant
            out@ == iter.seq().take(iter.index() as int),
            iter.seq() == s@,
    {
        out.push(c);
    }
    out
}

/// The texts of a list of strings.
pub open spec fn texts(v: Seq<String>) -> Seq<Seq<char>> {
    v.map_values(|s: String| s@)
}

/// Why `name` cannot be a directory entry name, if it cannot.
pub open spec fn name_error(name: Seq<char>) -> Option<VfsError> {
    if name.len() == 0 || name == seq!['.'] || name == seq!['.', '.'] || name.contains('/')
        || name.contains('\0') {
        Some(VfsError::InvalidName)
    } else if encode_utf8(name).len() > NAME_MAX {
        Some(VfsError::NameTooLong)
    } else {
        None
    }
}

/// The component list after one path segment: empty segments and `.` do
/// nothing, `..` drops the last component (staying at the root), and any
/// other segment is appended once it passes as a name.
pub open spec fn apply_segment(comps: Seq<Seq<char>>, seg: Seq<char>) -> Result<
    Seq<Seq<char>>,
    VfsError,
> {
    if seg.len() == 0 || seg == seq!['.'] {
        Ok(comps)
    } else if seg == seq!['.', '.'] {
        Ok(
            if comps.len() > 0 {
                comps.drop_last()
            } else {
                comps
            },
        )
    } else {
        match name_error(seg) {
            Some(e) => Err(e),
            None => Ok(comps.push(seg)),
        }
    }
}

/// Applies the `/`-separated segments of `s` from position `i` on, the
/// segment in progress having begun at `start`.
pub open spec fn scan_segments(comps: Seq<Seq<char>>, s: Seq<char>, start: int, i: int) -> Result<
    Seq<Seq<char>>,
    VfsError,
>
    decreases s.len() - i,
{
    if i >= s.len() {
        apply_segment(comps, s.subrange(start, s.len() as int))
    } else if s[i] == '/' {
        match apply_segment(comps, s.subrange(start, i)) {
            Err(e) => Err(e),
            Ok(next) => scan_segments(next, s, i + 1, i + 1),
        }
    } else {
        scan_segments(comps, s, start, i + 1)
    }
}

/// Applies every `/`-separated segment of `s`, in order, to `comps`.
pub open spec fn apply_path(comps: Seq<Seq<char>>, s: Seq<char>) -> Result<
    Seq<Seq<char>>,
    VfsError,
> {
    scan_segments(comps, s, 0, 0)
}

/// The absolute path made of `comps`.
pub open spec fn join(comps: Seq<Seq<char>>) -> Seq<char>
    decreases comps.len(),
{
    if comps.len() == 0 {
        seq!['/']
    } else if comps.len() == 1 {
        seq!['/'] + comps[0]
    } else {
        join(comps.drop_last()) + seq!['/'] + comps.last()
    }
}

/// The components of the normalized absolute form of `path`, relative paths
/// being taken from the absolute directory `base`.
pub open spec fn normalized_components(base: Seq<char>, path: Seq<char>) -> Result<
    Seq<Seq<char>>,
    VfsError,
> {
    if path.len() == 0 || path.contains('\0') {
        Err(VfsError::InvalidPath)
    } else if base.len() == 0 || base[0] != '/' || base.contains('\0') {
        Err(VfsError::InvalidPath)
    } else {
        let from_base = if path[0] == '/' {
            Ok(Seq::empty())
        } else {
            apply_path(Seq::empty(), base)
        };
        match from_base {
            Err(e) => Err(e),
            Ok(start) => match apply_path(start, path) {
                Err(e) => Err(e),
                Ok(comps) => if encode_utf8(join(comps)).len() > PATH_MAX {
                    Err(VfsError::NameTooLong)
                } else {
                    Ok(comps)
                },
            },
        }
    }
}

/// The normalized absolute form of `path`, relative paths being taken from
/// the absolute directory `base`.
pub open spec fn normalized(base: Seq<char>, path: Seq<char>) -> Result<Seq<char>, VfsError> {
    match normalized_components(base, path) {
        Ok(comps) => Ok(join(comps)),
        Err(e) => Err(e),
    }
}

/// Whether `c` occurs in `s`.
fn contains_char(s: &Vec<char>, c: char) -> (r: bool)
    ensures
        r == s@.contains(c),
{
    let mut i: usize = 0;
    while i < s.len()
        invariant
            i <= s@.len(),
            forall|j: int| 0 <= j < i ==> s@[j] != c,
        decreases s@.len() - i,
    {
        if s[i] == c {
            return true;
        }
        i = i + 1;
    }
    false
}

/// Whether `s` is exactly `.` or `..`.
fn is_dot(s: &Vec<char>) -> (r: bool)
    ensures
        r == (s@ == seq!['.']),
{
    if s.len() == 1 && s[0] == '.' {
        assert(s@ =~= seq!['.']);
        true
    } else {
        false
    }
}

/// Whether `s` is exactly `..`.
fn is_dot_dot(s: &Vec<char>) -> (r: bool)
    ensures
        r == (s@ == seq!['.', '.']),
{
    if s.len() == 2 && s[0] == '.' && s[1] == '.' {
        assert(s@ =~= seq!['.', '.']);
        true
    } else {
        false
    }
}

/// Checks that `name` can be a directory entry name.
pub fn validate_name(name: &str) -> (r: Result<(), VfsError>)
    ensures
        match r {
            Ok(()) => name_error(name@) is None,
            Err(e) => name_error(name@) == Some(e),
        },
{
    let chars = chars_of(name);
    if chars.len() == 0 || is_dot(&chars) || is_dot_dot(&chars) || contains_char(&chars, '/')
        || contains_char(&chars, '\0') {
        return Err(VfsError::InvalidName);
    }
    if name.as_bytes().len() > NAME_MAX {
        return Err(VfsError::NameTooLong);
    }
    Ok(())
}

/// Applies the segments of `path` to `components`.
fn push_components(components: &mut Vec<String>, path: &str) -> (r: Result<(), VfsError>)
    ensures
        match apply_path(texts(old(components)@), path@) {
            Ok(comps) => r is Ok && texts(final(components)@) == comps,
            Err(e) => r == Err::<(), VfsError>(e),
        },
{
    let chars = chars_of(path);
    let ghost initial = texts(components@);
    let mut start: usize = 0;
    let mut i: usize = 0;
    while i < chars.len()
        invariant
            chars@ == path@,
            initial == texts(old(components)@),
            start <= i <= chars@.len(),
            apply_path(initial, path@) == scan_segments(texts(components@), path@, start as int, i as int),
        decreases chars@.len() - i,
    {
        if chars[i] == '/' {
            let ghost before = texts(components@);
            match apply_segment_at(components, path, &chars, start, i) {
                Ok(()) => {},
                Err(e) => {
                    assert(path@[i as int] == '/');
                    assert(scan_segments(before, path@, start as int, i as int) == Err::<
                        Seq<Seq<char>>,
                        VfsError,
                    >(e));
                    return Err(e);
                },
            }
            assert(apply_path(initial, path@) == scan_segments(
                texts(components@),
                path@,
                i + 1,
                i + 1,
            )) by {
                assert(apply_segment(before, path@.subrange(start as int, i as int)) == Ok::<
                    Seq<Seq<char>>,
                    VfsError,
                >(texts(components@)));
            }
            start = i + 1;
        }
        i = i + 1;
    }
    apply_segment_at(components, path, &chars, start, chars.len())
}

/// Applies the segment `path[start..end]` to `components`.
fn apply_segment_at(
    components: &mut Vec<String>,
    path: &str,
    chars: &Vec<char>,
    start: usize,
    end: usize,
) -> (r: Result<(), VfsError>)
    requires
        chars@ == path@,
        start <= end <= chars@.len(),
    ensures
        match apply_segment(texts(old(components)@), path@.subrange(start as int, end as int)) {
            Ok(comps) => r is Ok && texts(final(components)@) == comps,
            Err(e) => r == Err::<(), VfsError>(e),
        },
{
    let segment = path.substring_char(start, end);
    let ghost seg = segment@;
    let seg_chars = chars_of(segment);
    if seg_chars.len() == 0 || is_dot(&seg_chars) {
        return Ok(());
    }
    if is_dot_dot(&seg_chars) {
        if components.len() > 0 {
            let _ = components.pop();
            assert(texts(components@) =~= texts(old(components)@).drop_last());
        }
        return Ok(());
    }
    validate_name(segment)?;
    components.push(segment.to_owned());
    assert(texts(components@) =~= texts(old(components)@).push(seg));
    Ok(())
}

/// The normalized absolute form of `path`; a relative `path` is taken from
/// the absolute directory `base`.
pub fn normalize_path(base: &str, path: &str) -> (r: Result<String, VfsError>)
    ensures
        match normalized(base@, path@) {
            Ok(p) => r is Ok && r->Ok_0@ == p,
            Err(e) => r is Err && r->Err_0 == e,
        },
{
    match normalize_parts(base, path) {
        Ok((_, joined)) => Ok(joined),
        Err(e) => Err(e),
    }
}

/// The components of the normalized form of `path`, with that form itself.
pub fn normalize_parts(base: &str, path: &str) -> (r: Result<(Vec<String>, String), VfsError>)
    ensures
        match normalized_components(base@, path@) {
            Ok(c) => r is Ok && texts(r->Ok_0.0@) == c && r->Ok_0.1@ == join(c),
            Err(e) => r is Err && r->Err_0 == e,
        },
{
    let path_chars = chars_of(path);
    let base_chars = chars_of(base);
    if path_chars.len() == 0 || contains_char(&path_chars, '\0') {
        return Err(VfsError::InvalidPath);
    }
    if base_chars.len() == 0 || base_chars[0] != '/' || contains_char(&base_chars, '\0') {
        return Err(VfsError::InvalidPath);
    }
    let mut components: Vec<String> = Vec::new();
    assert(texts(components@) =~= Seq::<Seq<char>>::empty());
    if path_chars[0] != '/' {
        push_components(&mut components, base)?;
    }
    apply_components(&mut components, path)?;
    let mut normalized_path = "/".to_owned();
    proof {
        reveal_strlit("/");
    }
    let ghost comps = texts(components@);
    let mut index: usize = 0;
    while index < components.len()
        invariant
            comps == texts(components@),
            index <= components@.len(),
            index == 0 ==> normalized_path@ == seq!['/'],
            index > 0 ==> normalized_path@ == join(comps.take(index as int)),
        decreases components@.len() - index,
    {
        if index > 0 {
            normalized_path.append("/");
        }
        normalized_path.append(components[index].as_str());
        proof {
            reveal_strlit("/");
            let next = comps.take(index + 1);
            if index == 0 {
                assert(next.len() == 1);
                assert(next[0] == components@[0]@);
                assert(normalized_path@ =~= join(next));
            } else {
                assert(next.drop_last() =~= comps.take(index as int));
                assert(next.last() == components@[index as int]@);
                assert(normalized_path@ =~= join(next));
            }
        }
        index = index + 1;
    }
    proof {
        if components@.len() == 0 {
            assert(normalized_path@ =~= join(comps));
        } else {
            assert(comps.take(components@.len() as int) =~= comps);
        }
    }
    if normalized_path.as_str().as_bytes().len() > PATH_MAX {
        return Err(VfsError::NameTooLong);
    }
    Ok((components, normalized_path))
}

/// Applies the segments of `path` to `components`.
fn apply_components(components: &mut Vec<String>, path: &str) -> (r: Result<(), VfsError>)
    ensures
        match apply_path(texts(old(components)@), path@) {
            Ok(comps) => r is Ok && texts(final(components)@) == comps,
            Err(e) => r == Err::<(), VfsError>(e),
        },
{
    push_components(components, path)
}

/// Every component in `comps` is an acceptable entry name.
pub open spec fn all_names(comps: Seq<Seq<char>>) -> bool {
    forall|k: int| 0 <= k < comps.len() ==> name_error(#[trigger] comps[k]) is None
}

proof fn lemma_segment_keeps_names(comps: Seq<Seq<char>>, seg: Seq<char>)
    requires
        all_names(comps),
    ensures
        apply_segment(comps, seg) is Ok ==> all_names(apply_segment(comps, seg)->Ok_0),
{
    if seg.len() == 0 || seg == seq!['.'] {
    } else if seg == seq!['.', '.'] {
        if comps.len() > 0 {
            assert forall|k: int| 0 <= k < comps.drop_last().len() implies name_error(#[trigger] comps.drop_last()[k]) is None by {
                assert(comps.drop_last()[k] == comps[k]);
            }
        }
    } else if name_error(seg) is None {
        assert forall|k: int| 0 <= k < comps.push(seg).len() implies name_error(#[trigger] comps.push(seg)[k]) is None by {
            if k < comps.len() {
                assert(comps.push(seg)[k] == comps[k]);
            }
        }
    }
}

/// Scanning a path from acceptable names gives acceptable names.
proof fn lemma_scan_keeps_names(comps: Seq<Seq<char>>, s: Seq<char>, start: int, i: int)
    requires
        all_names(comps),
        0 <= start <= i,
    ensures
        scan_segments(comps, s, start, i) is Ok ==> all_names(scan_segments(comps, s, start, i)->Ok_0),
    decreases s.len() - i,
{
    if i >= s.len() {
        lemma_segment_keeps_names(comps, s.subrange(start, s.len() as int));
    } else if s[i] == '/' {
        lemma_segment_keeps_names(comps, s.subrange(start, i));
        if let Ok(next) = apply_segment(comps, s.subrange(start, i)) {
            lemma_scan_keeps_names(next, s, i + 1, i + 1);
        }
    } else {
        lemma_scan_keeps_names(comps, s, start, i + 1);
    }
}

/// A tail without `/` is one final segment.
proof fn lemma_scan_last(comps: Seq<Seq<char>>, s: Seq<char>, start: int, i: int)
    requires
        0 <= start <= i <= s.len(),
        forall|k: int| start <= k < s.len() ==> s[k] != '/',
    ensures
        scan_segments(comps, s, start, i) == apply_segment(comps, s.subrange(start, s.len() as int)),
    decreases s.len() - i,
{
    if i < s.len() {
        lemma_scan_last(comps, s, start, i + 1);
    }
}

/// Scanning `u`, a `/` and a segment `c` is scanning `u` and then applying `c`.
proof fn lemma_scan_append(comps: Seq<Seq<char>>, u: Seq<char>, c: Seq<char>, start: int, i: int)
    requires
        0 <= start <= i <= u.len(),
        !c.contains('/'),
    ensures
        scan_segments(comps, u + seq!['/'] + c, start, i) == match scan_segments(comps, u, start, i) {
            Ok(r) => apply_segment(r, c),
            Err(e) => Err(e),
        },
    decreases u.len() - i,
{
    let s = u + seq!['/'] + c;
    if i == u.len() {
        assert(s[i] == '/');
        assert(s.subrange(start, i) =~= u.subrange(start, u.len() as int));
        if let Ok(next) = apply_segment(comps, s.subrange(start, i)) {
            assert forall|k: int| i + 1 <= k < s.len() implies s[k] != '/' by {
                assert(s[k] == c[k - i - 1]);
            }
            lemma_scan_last(next, s, i + 1, i + 1);
            assert(s.subrange(i + 1, s.len() as int) =~= c);
        }
    } else {
        assert(s[i] == u[i]);
        if u[i] == '/' {
            assert(s.subrange(start, i) =~= u.subrange(start, i));
            if let Ok(next) = apply_segment(comps, u.subrange(start, i)) {
                lemma_scan_append(next, u, c, i + 1, i + 1);
            }
        } else {
            lemma_scan_append(comps, u, c, start, i + 1);
        }
    }
}

/// The absolute path of acceptable names starts with `/`, holds no NUL, and
/// reads back as the same names.
proof fn lemma_join_reads_back(comps: Seq<Seq<char>>)
    requires
        all_names(comps),
    ensures
        join(comps).len() > 0,
        join(comps)[0] == '/',
        !join(comps).contains('\0'),
        apply_path(Seq::empty(), join(comps)) == Ok::<Seq<Seq<char>>, VfsError>(comps),
    decreases comps.len(),
{
    let j = join(comps);
    if comps.len() == 0 {
        assert(j =~= seq!['/']);
        assert(j.subrange(0, 0) =~= Seq::<char>::empty());
        assert(j.subrange(1, 1) =~= Seq::<char>::empty());
        assert(scan_segments(Seq::empty(), j, 1, 1) == Ok::<Seq<Seq<char>>, VfsError>(Seq::empty()));
        assert(scan_segments(Seq::empty(), j, 0, 0) == Ok::<Seq<Seq<char>>, VfsError>(Seq::empty()));
        assert(comps =~= Seq::<Seq<char>>::empty());
        assert(!j.contains('\0')) by {
            if j.contains('\0') {
                let k = choose|k: int| 0 <= k < j.len() && j[k] == '\0';
            }
        }
    } else {
        let last = comps.last();
        assert(name_error(comps[comps.len() - 1]) is None);
        assert(!last.contains('/'));
        assert(!last.contains('\0'));
        let rest = comps.drop_last();
        assert(all_names(rest)) by {
            assert forall|k: int| 0 <= k < rest.len() implies name_error(#[trigger] rest[k]) is None by {
                assert(rest[k] == comps[k]);
            }
        }
        if comps.len() == 1 {
            assert(rest =~= Seq::<Seq<char>>::empty());
            assert(j =~= seq!['/'] + last);
            assert(Seq::<char>::empty() + seq!['/'] + last =~= j);
            lemma_scan_append(Seq::empty(), Seq::empty(), last, 0, 0);
            assert(Seq::<char>::empty().subrange(0, 0) =~= Seq::<char>::empty());
            assert(scan_segments(Seq::empty(), Seq::<char>::empty(), 0, 0) == Ok::<Seq<Seq<char>>, VfsError>(Seq::empty()));
            assert(rest.push(last) =~= comps);
        } else {
            lemma_join_reads_back(rest);
            assert(j == join(rest) + seq!['/'] + last);
            lemma_scan_append(Seq::empty(), join(rest), last, 0, 0);
            assert(rest.push(last) =~= comps);
        }
        assert(j[0] == '/') by {
            if comps.len() > 1 {
                assert(j[0] == join(rest)[0]);
            }
        }
        assert(!j.contains('\0')) by {
            if j.contains('\0') {
                let k = choose|k: int| 0 <= k < j.len() && j[k] == '\0';
                if comps.len() == 1 {
                    if k > 0 {
                        assert(last[k - 1] == '\0');
                    }
                } else {
                    let r = join(rest);
                    if k < r.len() {
                        assert(r[k] == '\0');
                    } else if k > r.len() {
                        assert(last[k - r.len() - 1] == '\0');
                    }
                }
            }
        }
    }
}

/// Normalizing a normalized path, from any absolute directory, gives the
/// same path back.
pub proof fn law_normalize_idempotent(base: Seq<char>, path: Seq<char>, other_base: Seq<char>)
    requires
        normalized(base, path) is Ok,
        other_base.len() > 0,
        other_base[0] == '/',
        !other_base.contains('\0'),
    ensures
        normalized(other_base, normalized(base, path)->Ok_0) == normalized(base, path),
{
    let comps = normalized_components(base, path)->Ok_0;
    let start = if path[0] == '/' {
        Seq::<Seq<char>>::empty()
    } else {
        apply_path(Seq::empty(), base)->Ok_0
    };
    lemma_scan_keeps_names(Seq::empty(), base, 0, 0);
    lemma_scan_keeps_names(start, path, 0, 0);
    assert(all_names(comps));
    lemma_join_reads_back(comps);
    let q = join(comps);
    assert(normalized_components(other_base, q) == Ok::<Seq<Seq<char>>, VfsError>(comps));
}

} // verus!
