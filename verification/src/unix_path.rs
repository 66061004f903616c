//! Paths as `std::path` reads them on Unix, over the bytes of the path:
//! `/` separates components, a leading `/` is the root, and repeated
//! separators and `.` components after the first one collapse.

use vstd::prelude::*;
use vstd::utf8::*;
use vstd::string::StringSliceAdditionalSpecFns;
use crate::text::{
    text_of, ascii_cut, all_ascii, lemma_ascii_valid, lemma_ascii_cut_subrange_valid,
    lemma_valid_concat,
};

verus! {

broadcast use {vstd::seq::group_seq_axioms, vstd::seq_lib::group_seq_properties};

/// `Path::is_absolute` on Unix: the path starts at the root.
pub open spec fn is_absolute(p: Seq<u8>) -> bool {
    p.len() > 0 && p[0] == 0x2f
}

/// `base.join(p)` on Unix: an absolute `p` replaces `base`; otherwise `p`
/// is appended, with a separator when `base` is not empty and does not
/// already end in one.
pub open spec fn joined_path(base: Seq<u8>, p: Seq<u8>) -> Seq<u8> {
    if is_absolute(p) {
        p
    } else if base.len() > 0 && base.last() != 0x2f {
        base + seq![0x2fu8] + p
    } else {
        base + p
    }
}

/// The path without trailing separators and without trailing `.`
/// components that follow a separator; a lone root stays.
pub open spec fn trim_back(p: Seq<u8>) -> Seq<u8>
    decreases p.len(),
{
    if p.len() > 1 && (p.last() == 0x2f || (p.last() == 0x2e && p[p.len() - 2] == 0x2f)) {
        trim_back(p.drop_last())
    } else {
        p
    }
}

/// The index just past the last `/` of `t`, or 0 when it holds none.
pub open spec fn after_last_slash(t: Seq<u8>) -> int
    decreases t.len(),
{
    if t.len() == 0 {
        0
    } else if t.last() == 0x2f {
        t.len() as int
    } else {
        after_last_slash(t.drop_last())
    }
}

/// The bytes of the last component, as they stand at the end of the
/// trimmed path; empty for the empty path and the root.
pub open spec fn final_segment(p: Seq<u8>) -> Seq<u8> {
    let t = trim_back(p);
    t.subrange(after_last_slash(t), t.len() as int)
}

/// `.`
pub open spec fn dot() -> Seq<u8> {
    seq![0x2eu8]
}

/// `..`
pub open spec fn dot_dot() -> Seq<u8> {
    seq![0x2eu8, 0x2eu8]
}

/// `Path::file_name`: the final component, unless the path is empty, the
/// root, or ends in a `.` or `..` component.
pub open spec fn file_name(p: Seq<u8>) -> Option<Seq<u8>> {
    let seg = final_segment(p);
    if seg.len() == 0 || seg == dot() || seg == dot_dot() {
        None
    } else {
        Some(seg)
    }
}

/// `Path::parent`: the path without its final component, with trailing
/// separators and `.` components trimmed; none for the empty path and the
/// root.
pub open spec fn parent(p: Seq<u8>) -> Option<Seq<u8>> {
    let t = trim_back(p);
    let k = after_last_slash(t);
    if k == t.len() {
        None
    } else {
        Some(trim_back(t.subrange(0, k)))
    }
}

/// The index of the last `.` of `s`, or -1 when it holds none.
pub open spec fn last_dot(s: Seq<u8>) -> int
    decreases s.len(),
{
    if s.len() == 0 {
        -1
    } else if s.last() == 0x2e {
        s.len() - 1
    } else {
        last_dot(s.drop_last())
    }
}

/// `Path::extension`: the part of the file name after its last `.`, when
/// that `.` is not the first byte of the name.
pub open spec fn extension(p: Seq<u8>) -> Option<Seq<u8>> {
    match file_name(p) {
        Some(f) => if last_dot(f) > 0 {
            Some(f.subrange(last_dot(f) + 1, f.len() as int))
        } else {
            None
        },
        None => None,
    }
}

/// What trimming keeps and drops.
pub proof fn lemma_trim_back(p: Seq<u8>)
    ensures
        trim_back(p).len() <= p.len(),
        trim_back(p) == p.subrange(0, trim_back(p).len() as int),
        p.len() > 0 ==> trim_back(p).len() > 0,
        forall|i: int|
            trim_back(p).len() <= i < p.len() ==> (#[trigger] p[i] == 0x2f || p[i] == 0x2e),
        trim_back(trim_back(p)) == trim_back(p),
    decreases p.len(),
{
    if p.len() > 1 && (p.last() == 0x2f || (p.last() == 0x2e && p[p.len() - 2] == 0x2f)) {
        let q = p.drop_last();
        lemma_trim_back(q);
        assert forall|i: int| trim_back(p).len() <= i < p.len() implies (#[trigger] p[i] == 0x2f
            || p[i] == 0x2e) by {
            if i < q.len() {
                assert(q[i] == p[i]);
            }
        }
        assert(trim_back(q) =~= p.subrange(0, trim_back(q).len() as int));
    } else {
        assert(p.subrange(0, p.len() as int) =~= p);
    }
}

/// Where the last separator stands.
pub proof fn lemma_after_last_slash(t: Seq<u8>)
    ensures
        0 <= after_last_slash(t) <= t.len(),
        after_last_slash(t) > 0 ==> t[after_last_slash(t) - 1] == 0x2f,
        forall|i: int| after_last_slash(t) <= i < t.len() ==> #[trigger] t[i] != 0x2f,
    decreases t.len(),
{
    if t.len() > 0 && t.last() != 0x2f {
        let q = t.drop_last();
        lemma_after_last_slash(q);
        assert forall|i: int| after_last_slash(t) <= i < t.len() implies #[trigger] t[i] != 0x2f by {
            if i < q.len() {
                assert(q[i] == t[i]);
            }
        }
    }
}

/// Where the last `.` stands.
pub proof fn lemma_last_dot(s: Seq<u8>)
    ensures
        -1 <= last_dot(s) < s.len(),
        last_dot(s) >= 0 ==> s[last_dot(s)] == 0x2e,
        forall|i: int| last_dot(s) < i < s.len() ==> #[trigger] s[i] != 0x2e,
    decreases s.len(),
{
    if s.len() > 0 && s.last() != 0x2e {
        let q = s.drop_last();
        lemma_last_dot(q);
        assert forall|i: int| last_dot(s) < i < s.len() implies #[trigger] s[i] != 0x2e by {
            if i < q.len() {
                assert(q[i] == s[i]);
            }
        }
    }
}

/// The length of the trimmed path.
fn trimmed_len(p: &[u8]) -> (n: usize)
    ensures
        n == trim_back(p@).len(),
        n <= p@.len(),
        trim_back(p@) == p@.subrange(0, n as int),
{
    let mut n = p.len();
    assert(p@.subrange(0, n as int) =~= p@);
    while n > 1 && (p[n - 1] == 0x2f || (p[n - 1] == 0x2e && p[n - 2] == 0x2f))
        invariant
            n <= p@.len(),
            trim_back(p@) == trim_back(p@.subrange(0, n as int)),
        decreases n,
    {
        assert(p@.subrange(0, n as int).drop_last() =~= p@.subrange(0, n - 1));
        n -= 1;
    }
    proof {
        lemma_trim_back(p@);
    }
    n
}

/// The index just past the last separator before `end`.
fn segment_start(p: &[u8], end: usize) -> (k: usize)
    requires
        end <= p@.len(),
    ensures
        k == after_last_slash(p@.subrange(0, end as int)),
{
    let mut k = end;
    while k > 0 && p[k - 1] != 0x2f
        invariant
            k <= end <= p@.len(),
            after_last_slash(p@.subrange(0, end as int)) == after_last_slash(
                p@.subrange(0, k as int),
            ),
        decreases k,
    {
        assert(p@.subrange(0, k as int).drop_last() =~= p@.subrange(0, k - 1));
        k -= 1;
    }
    k
}

/// The index of the last `.` of `p[start..end]`, counted from `start`.
pub(crate) fn dot_offset(p: &[u8], start: usize, end: usize) -> (d: Option<usize>)
    requires
        start <= end <= p@.len(),
    ensures
        match d {
            Some(i) => i == last_dot(p@.subrange(start as int, end as int)),
            None => last_dot(p@.subrange(start as int, end as int)) == -1,
        },
{
    let mut k = end;
    while k > start && p[k - 1] != 0x2e
        invariant
            start <= k <= end <= p@.len(),
            last_dot(p@.subrange(start as int, end as int)) == last_dot(
                p@.subrange(start as int, k as int),
            ),
        decreases k,
    {
        assert(p@.subrange(start as int, k as int).drop_last() =~= p@.subrange(
            start as int,
            k - 1,
        ));
        k -= 1;
    }
    if k == start {
        None
    } else {
        Some(k - 1 - start)
    }
}

/// The bounds of the final component inside the path: the component is
/// `p[k..n]` and `p[..n]` is the trimmed path.
fn final_segment_bounds(p: &[u8]) -> (bounds: (usize, usize))
    ensures
        bounds.0 <= bounds.1 <= p@.len(),
        trim_back(p@) == p@.subrange(0, bounds.1 as int),
        bounds.0 == after_last_slash(trim_back(p@)),
        final_segment(p@) == p@.subrange(bounds.0 as int, bounds.1 as int),
        ascii_cut(p@, bounds.0 as int),
        ascii_cut(p@, bounds.1 as int),
{
    let n = trimmed_len(p);
    let k = segment_start(p, n);
    proof {
        lemma_trim_back(p@);
        lemma_after_last_slash(p@.subrange(0, n as int));
        assert(p@.subrange(0, n as int).subrange(k as int, n as int) =~= p@.subrange(
            k as int,
            n as int,
        ));
        if k > 0 {
            assert(p@.subrange(0, n as int)[k - 1] == p@[k - 1]);
        }
        if n < p@.len() {
            assert(p@[n as int] == 0x2f || p@[n as int] == 0x2e);
        }
    }
    (k, n)
}

/// Whether a component is empty, `.` or `..`.
pub(crate) fn is_special_segment(seg: &[u8]) -> (res: bool)
    ensures
        res == (seg@.len() == 0 || seg@ == dot() || seg@ == dot_dot()),
{
    if seg.len() == 0 {
        return true;
    }
    if seg.len() == 1 {
        let d = seg[0] == 0x2e;
        assert(d ==> seg@ =~= dot());
        return d;
    }
    if seg.len() == 2 {
        let d = seg[0] == 0x2e && seg[1] == 0x2e;
        assert(d ==> seg@ =~= dot_dot());
        return d;
    }
    false
}

/// `Path::is_absolute` on Unix.
pub fn path_is_absolute(path: &str) -> (res: bool)
    ensures
        res == is_absolute(path.spec_bytes()),
{
    let bytes = path.as_bytes();
    bytes.len() > 0 && bytes[0] == 0x2f
}

/// `Path::join` on Unix.
pub fn join_path(base: &str, path: &str) -> (res: String)
    ensures
        res@ == decode_utf8(joined_path(base.spec_bytes(), path.spec_bytes())),
{
    let b = base.as_bytes();
    let p = path.as_bytes();
    let mut out: Vec<u8> = Vec::new();
    proof {
        encode_utf8_valid_utf8(base@);
        encode_utf8_valid_utf8(path@);
    }
    if p.len() > 0 && p[0] == 0x2f {
        out.extend_from_slice(p);
        assert(out@ =~= p@);
    } else {
        out.extend_from_slice(b);
        assert(out@ =~= b@);
        if b.len() > 0 && b[b.len() - 1] != 0x2f {
            out.push(0x2f);
            proof {
                let sep = seq![0x2fu8];
                assert(all_ascii(sep));
                lemma_ascii_valid(sep);
                lemma_valid_concat(b@, sep);
                assert(out@ =~= b@ + sep);
            }
        }
        proof {
            lemma_valid_concat(out@, p@);
        }
        let ghost before = out@;
        out.extend_from_slice(p);
        assert(out@ =~= before + p@);
    }
    text_of(out.as_slice())
}

/// `Path::file_name` on Unix.
pub fn path_file_name(path: &str) -> (res: Option<String>)
    ensures
        match file_name(path.spec_bytes()) {
            Some(f) => res matches Some(s) && s@ == decode_utf8(f),
            None => res is None,
        },
{
    let p = path.as_bytes();
    let (k, n) = final_segment_bounds(p);
    let seg = &p[k..n];
    if is_special_segment(seg) {
        return None;
    }
    proof {
        encode_utf8_valid_utf8(path@);
        lemma_ascii_cut_subrange_valid(p@, k as int, n as int);
    }
    Some(text_of(seg))
}

/// The bounds of the extension inside the path, as `Path::extension`
/// finds it.
fn extension_bounds(p: &[u8]) -> (res: Option<(usize, usize)>)
    ensures
        match extension(p@) {
            Some(e) => res matches Some(b) && b.0 <= b.1 <= p@.len() && e == p@.subrange(
                b.0 as int,
                b.1 as int,
            ) && ascii_cut(p@, b.0 as int) && ascii_cut(p@, b.1 as int),
            None => res is None,
        },
{
    let (k, n) = final_segment_bounds(p);
    let seg = &p[k..n];
    if is_special_segment(seg) {
        return None;
    }
    let ghost f = p@.subrange(k as int, n as int);
    assert(file_name(p@) == Some(f));
    match dot_offset(p, k, n) {
        Some(d) => {
            if d == 0 {
                return None;
            }
            proof {
                lemma_last_dot(f);
                assert(f.subrange(d + 1, f.len() as int) =~= p@.subrange(k + d + 1, n as int));
                assert(f[d as int] == p@[k + d]);
                assert(ascii_cut(p@, k + d + 1));
            }
            Some((k + d + 1, n))
        },
        None => None,
    }
}

/// `Path::extension` on Unix.
pub fn path_extension(path: &str) -> (res: Option<String>)
    ensures
        match extension(path.spec_bytes()) {
            Some(e) => res matches Some(s) && s@ == decode_utf8(e),
            None => res is None,
        },
{
    let p = path.as_bytes();
    match extension_bounds(p) {
        Some((s, e)) => {
            proof {
                encode_utf8_valid_utf8(path@);
                lemma_ascii_cut_subrange_valid(p@, s as int, e as int);
            }
            Some(text_of(&p[s..e]))
        },
        None => None,
    }
}

/// The bytes of the extension, as `Path::extension` finds it.
pub fn extension_bytes(p: &[u8]) -> (res: Option<&[u8]>)
    ensures
        match extension(p@) {
            Some(e) => res matches Some(b) && b@ == e,
            None => res is None,
        },
{
    match extension_bounds(p) {
        Some((s, e)) => Some(&p[s..e]),
        None => None,
    }
}

/// `Path::parent` on Unix.
pub fn path_parent(path: &str) -> (res: Option<String>)
    ensures
        match parent(path.spec_bytes()) {
            Some(d) => res matches Some(s) && s@ == decode_utf8(d),
            None => res is None,
        },
{
    let p = path.as_bytes();
    let (k, n) = final_segment_bounds(p);
    if k == n {
        return None;
    }
    let m = trimmed_len(&p[0..k]);
    proof {
        let t = p@.subrange(0, n as int);
        let head = p@.subrange(0, k as int);
        assert(t.subrange(0, k as int) =~= head);
        lemma_trim_back(head);
        assert(head.subrange(0, m as int) =~= p@.subrange(0, m as int));
        encode_utf8_valid_utf8(path@);
        if m > 0 && m < k {
            assert(head[m as int] == p@[m as int]);
        }
        if m > 0 && m == k {
            lemma_after_last_slash(t);
            assert(t[k - 1] == p@[k - 1]);
        }
        assert(ascii_cut(p@, m as int));
        lemma_ascii_cut_subrange_valid(p@, 0, m as int);
    }
    Some(text_of(&p[0..m]))
}

/// The length of the path without trailing separators and trailing `.`
/// components, as [`trim_back`] has it.
pub fn trimmed_prefix_len(p: &[u8]) -> (n: usize)
    ensures
        n == trim_back(p@).len(),
        n <= p@.len(),
        trim_back(p@) == p@.subrange(0, n as int),
{
    trimmed_len(p)
}

/// An extension stands at the very end of the trimmed path, right after a
/// `.`.
pub proof fn lemma_extension_at_end(p: Seq<u8>)
    ensures
        extension(p) matches Some(e) ==> {
            let t = trim_back(p);
            &&& e.len() < t.len() <= p.len()
            &&& t == p.subrange(0, t.len() as int)
            &&& p.subrange(t.len() - e.len(), t.len() as int) == e
            &&& p[t.len() - e.len() - 1] == 0x2e
            &&& ascii_cut(p, t.len() - e.len())
        },
{
    lemma_trim_back(p);
    let t = trim_back(p);
    lemma_after_last_slash(t);
    let k = after_last_slash(t);
    let f = t.subrange(k, t.len() as int);
    if let Some(e) = extension(p) {
        assert(file_name(p) == Some(f));
        lemma_last_dot(f);
        let d = last_dot(f);
        assert(e == f.subrange(d + 1, f.len() as int));
        assert(p.subrange(t.len() - e.len(), t.len() as int) =~= e);
        assert(f[d] == t[k + d]);
        assert(t[k + d] == p[k + d]);
    }
}

/// The last separator stands just before `k` when none follows.
pub proof fn lemma_after_last_slash_at(s: Seq<u8>, k: int)
    requires
        0 <= k <= s.len(),
        k == 0 || s[k - 1] == 0x2f,
        forall|i: int| k <= i < s.len() ==> s[i] != 0x2f,
    ensures
        after_last_slash(s) == k,
    decreases s.len(),
{
    if s.len() > k {
        let q = s.drop_last();
        assert(s.last() == s[s.len() - 1]);
        assert forall|i: int| k <= i < q.len() implies q[i] != 0x2f by {
            assert(q[i] == s[i]);
        }
        if k > 0 {
            assert(q[k - 1] == s[k - 1]);
        }
        lemma_after_last_slash_at(q, k);
    } else if k > 0 {
        assert(s.last() == s[k - 1]);
    }
}

/// The last `.` stands at `d` when none follows.
pub proof fn lemma_last_dot_at(s: Seq<u8>, d: int)
    requires
        0 <= d < s.len(),
        s[d] == 0x2e,
        forall|i: int| d < i < s.len() ==> s[i] != 0x2e,
    ensures
        last_dot(s) == d,
    decreases s.len(),
{
    if s.len() > d + 1 {
        let q = s.drop_last();
        assert(s.last() == s[s.len() - 1]);
        assert forall|i: int| d < i < q.len() implies q[i] != 0x2e by {
            assert(q[i] == s[i]);
        }
        assert(q[d] == s[d]);
        lemma_last_dot_at(q, d);
    } else {
        assert(s.last() == s[d]);
    }
}

/// What the final component of a path is made of: it follows the last
/// separator of the trimmed path and holds none.
pub proof fn lemma_final_segment(p: Seq<u8>)
    ensures
        ({
            let t = trim_back(p);
            let k = after_last_slash(t);
            &&& 0 <= k <= t.len() <= p.len()
            &&& t == p.subrange(0, t.len() as int)
            &&& (k == 0 || t[k - 1] == 0x2f)
            &&& forall|i: int| k <= i < t.len() ==> #[trigger] t[i] != 0x2f
            &&& final_segment(p) == t.subrange(k, t.len() as int)
        }),
{
    lemma_trim_back(p);
    lemma_after_last_slash(trim_back(p));
}

/// A path with a file name keeps its trimmed form behind any prefix.
pub proof fn lemma_trim_back_after_prefix(a: Seq<u8>, p: Seq<u8>)
    requires
        file_name(p) is Some,
    ensures
        trim_back(a + p) == a + trim_back(p),
    decreases p.len(),
{
    let ap = a + p;
    if p.len() > 1 && (p.last() == 0x2f || (p.last() == 0x2e && p[p.len() - 2] == 0x2f)) {
        let q = p.drop_last();
        assert(trim_back(p) == trim_back(q));
        assert(final_segment(q) == final_segment(p));
        assert(ap.last() == p.last());
        assert(ap[ap.len() - 2] == p[p.len() - 2]);
        assert(ap.drop_last() =~= a + q);
        lemma_trim_back_after_prefix(a, q);
    } else {
        assert(trim_back(p) == p);
        if p.len() == 1 {
            assert(final_segment(p) =~= p) by {
                lemma_after_last_slash(p);
                if p[0] == 0x2f {
                    assert(after_last_slash(p) == 1);
                }
            }
            assert(p != dot());
            assert(p[0] != 0x2e) by {
                if p[0] == 0x2e {
                    assert(p =~= dot());
                }
            }
        }
        if p.len() >= 2 {
            assert(ap[ap.len() - 2] == p[p.len() - 2]);
        }
        assert(ap.last() == p.last());
    }
}

/// Behind a prefix that ends in a separator, the components of a path
/// start where they did.
pub proof fn lemma_after_last_slash_after_prefix(a: Seq<u8>, t: Seq<u8>)
    requires
        a.len() > 0,
        a.last() == 0x2f,
    ensures
        after_last_slash(a + t) == a.len() + after_last_slash(t),
    decreases t.len(),
{
    if t.len() == 0 {
        assert(a + t =~= a);
    } else {
        assert((a + t).last() == t.last());
        if t.last() != 0x2f {
            assert((a + t).drop_last() =~= a + t.drop_last());
            lemma_after_last_slash_after_prefix(a, t.drop_last());
        }
    }
}

/// Behind a prefix that ends in a separator, a path with a file name keeps
/// its file name and its extension.
pub proof fn lemma_extension_after_prefix(a: Seq<u8>, p: Seq<u8>)
    requires
        a.len() > 0,
        a.last() == 0x2f,
        file_name(p) is Some,
    ensures
        file_name(a + p) == file_name(p),
        extension(a + p) == extension(p),
{
    lemma_trim_back_after_prefix(a, p);
    let t = trim_back(p);
    lemma_after_last_slash_after_prefix(a, t);
    let k = after_last_slash(t);
    lemma_after_last_slash(t);
    lemma_trim_back(p);
    assert((a + t).subrange(a.len() + k, (a + t).len() as int) =~= t.subrange(k, t.len() as int));
    assert(final_segment(a + p) == final_segment(p));
}

} // verus!
