//! The parent and extension of a path, and joining paths, as `std::path`
//! does on Windows: `/` and `\` both separate components, and a drive
//! (`C:`, `C:\`) or a UNC share (`\\server\share\`) is the root that no
//! parent goes above.

use vstd::prelude::*;
use vstd::utf8::*;
use vstd::string::StringSliceAdditionalSpecFns;
use crate::text::{
    is_alpha, is_alpha_byte, text_of, ascii_cut, all_ascii, lemma_ascii_cut_subrange_valid,
    lemma_ascii_valid, lemma_valid_concat,
};
use crate::unix_path::{dot, dot_dot, last_dot, lemma_last_dot, dot_offset, is_special_segment};

verus! {

broadcast use {vstd::seq::group_seq_axioms, vstd::seq_lib::group_seq_properties};

/// `/` or `\`.
pub open spec fn is_separator(b: u8) -> bool {
    b == 0x2f || b == 0x5c
}

/// The index of the first separator at or after `i`, or the length when
/// there is none.
pub open spec fn next_separator(p: Seq<u8>, i: int) -> int
    decreases p.len() - i,
{
    if i >= p.len() {
        p.len() as int
    } else if is_separator(p[i]) {
        i
    } else {
        next_separator(p, i + 1)
    }
}

/// The length of the prefix and root of a path: a drive letter and `:`
/// with the separator after it, `\\server\share` with the separator after
/// it, or a leading separator. Verbatim prefixes such as `\\?\UNC\` are
/// read as UNC shares of their own.
pub open spec fn root_len(p: Seq<u8>) -> int {
    if p.len() >= 2 && is_alpha(p[0]) && p[1] == 0x3a {
        if p.len() >= 3 && is_separator(p[2]) {
            3
        } else {
            2
        }
    } else if p.len() >= 2 && p[0] == 0x5c && p[1] == 0x5c {
        let share_end = next_separator(p, next_separator(p, 2) + 1);
        if share_end < p.len() {
            share_end + 1
        } else {
            p.len() as int
        }
    } else if p.len() >= 1 && is_separator(p[0]) {
        1
    } else {
        0
    }
}

/// The path without trailing separators and trailing `.` components,
/// never cut into its first `r` bytes.
pub open spec fn trimmed(p: Seq<u8>, r: int) -> Seq<u8>
    decreases p.len(),
{
    if p.len() > r && p.len() > 0 && (is_separator(p.last()) || (p.last() == 0x2e && p.len() >= 2
        && is_separator(p[p.len() - 2]))) {
        trimmed(p.drop_last(), r)
    } else {
        p
    }
}

/// The index just past the last separator of `t` that stands after its
/// first `r` bytes, or `r` when there is none.
pub open spec fn after_separator(t: Seq<u8>, r: int) -> int
    decreases t.len(),
{
    if t.len() <= r || t.len() == 0 {
        r
    } else if is_separator(t.last()) {
        t.len() as int
    } else {
        after_separator(t.drop_last(), r)
    }
}

/// `Path::parent` on Windows: the path without its final component and
/// the separators before it; none when the path ends in its root or is
/// empty.
pub open spec fn windows_parent(p: Seq<u8>) -> Option<Seq<u8>> {
    let r = root_len(p);
    let t = trimmed(p, r);
    if t.len() <= r {
        None
    } else {
        Some(trimmed(t.subrange(0, after_separator(t, r)), r))
    }
}

fn separator_byte(b: u8) -> (res: bool)
    ensures
        res == is_separator(b),
{
    b == 0x2f || b == 0x5c
}

/// The first separator at or after `i`.
fn next_separator_index(p: &[u8], i: usize) -> (k: usize)
    requires
        i <= p@.len(),
    ensures
        k == next_separator(p@, i as int),
        i <= k <= p@.len(),
        k < p@.len() ==> is_separator(p@[k as int]),
{
    let mut k = i;
    while k < p.len() && !separator_byte(p[k])
        invariant
            i <= k <= p@.len(),
            next_separator(p@, i as int) == next_separator(p@, k as int),
        decreases p@.len() - k,
    {
        k += 1;
    }
    k
}

/// The length of the prefix and root.
fn root_length(p: &[u8]) -> (r: usize)
    ensures
        r == root_len(p@),
        r <= p@.len(),
        r == 0 || r == p@.len() || p@[r - 1] < 0x80,
{
    let n = p.len();
    if n >= 2 && is_alpha_byte(p[0]) && p[1] == 0x3a {
        if n >= 3 && separator_byte(p[2]) {
            3
        } else {
            2
        }
    } else if n >= 2 && p[0] == 0x5c && p[1] == 0x5c {
        let server_end = next_separator_index(p, 2);
        let share_end = if server_end < n {
            next_separator_index(p, server_end + 1)
        } else {
            n
        };
        if share_end < n {
            share_end + 1
        } else {
            n
        }
    } else if n >= 1 && separator_byte(p[0]) {
        1
    } else {
        0
    }
}

/// The length of `p[..n]` trimmed, which is a prefix of it.
fn trimmed_length(p: &[u8], n: usize, r: usize) -> (m: usize)
    requires
        n <= p@.len(),
    ensures
        m <= n,
        trimmed(p@.subrange(0, n as int), r as int) == p@.subrange(0, m as int),
        m == n || is_separator(p@[m as int]) || p@[m as int] == 0x2e,
{
    let mut m = n;
    while m > r && m > 0 && (separator_byte(p[m - 1]) || (p[m - 1] == 0x2e && m >= 2
        && separator_byte(p[m - 2])))
        invariant
            m <= n <= p@.len(),
            trimmed(p@.subrange(0, n as int), r as int) == trimmed(p@.subrange(0, m as int), r as int),
            m == n || is_separator(p@[m as int]) || p@[m as int] == 0x2e,
        decreases m,
    {
        assert(p@.subrange(0, m as int).drop_last() =~= p@.subrange(0, m - 1));
        m -= 1;
    }
    m
}

/// The index past the last separator of `p[..m]` after the root.
fn after_separator_index(p: &[u8], m: usize, r: usize) -> (k: usize)
    requires
        r <= m <= p@.len(),
    ensures
        k == after_separator(p@.subrange(0, m as int), r as int),
        r <= k <= m,
        k == r || is_separator(p@[k - 1]),
{
    let mut k = m;
    while k > r && !separator_byte(p[k - 1])
        invariant
            r <= k <= m <= p@.len(),
            after_separator(p@.subrange(0, m as int), r as int) == after_separator(
                p@.subrange(0, k as int),
                r as int,
            ),
        decreases k,
    {
        assert(p@.subrange(0, k as int).drop_last() =~= p@.subrange(0, k - 1));
        k -= 1;
    }
    k
}

/// `Path::parent` on Windows.
pub fn windows_path_parent(path: &str) -> (res: Option<String>)
    ensures
        match windows_parent(path.spec_bytes()) {
            Some(q) => res matches Some(s) && s@ == decode_utf8(q),
            None => res is None,
        },
{
    let p = path.as_bytes();
    let r = root_length(p);
    let tl = trimmed_length(p, p.len(), r);
    assert(p@.subrange(0, p@.len() as int) =~= p@);
    if tl <= r {
        return None;
    }
    let k = after_separator_index(p, tl, r);
    let m = trimmed_length(p, k, r);
    proof {
        let t = p@.subrange(0, tl as int);
        assert(t.subrange(0, k as int) =~= p@.subrange(0, k as int));
        encode_utf8_valid_utf8(path@);
        assert(ascii_cut(p@, m as int)) by {
            if m < k {
                assert(p@[m as int] < 0x80);
            } else if k > r {
                assert(p@[m - 1] < 0x80);
            }
        }
        lemma_ascii_cut_subrange_valid(p@, 0, m as int);
    }
    Some(text_of(&p[0..m]))
}

/// The final component of a path, as it stands at the end of the trimmed
/// path; empty when the path ends in its root.
pub open spec fn windows_final_segment(p: Seq<u8>) -> Seq<u8> {
    let r = root_len(p);
    let t = trimmed(p, r);
    if t.len() <= r {
        Seq::empty()
    } else {
        t.subrange(after_separator(t, r), t.len() as int)
    }
}

/// `Path::file_name` on Windows: the final component, unless the path
/// ends in its root or in a `.` or `..` component.
pub open spec fn windows_file_name(p: Seq<u8>) -> Option<Seq<u8>> {
    let seg = windows_final_segment(p);
    if seg.len() == 0 || seg == dot() || seg == dot_dot() {
        None
    } else {
        Some(seg)
    }
}

/// `Path::extension` on Windows: the part of the file name after its last
/// `.`, when that `.` is not the first byte of the name.
pub open spec fn windows_extension(p: Seq<u8>) -> Option<Seq<u8>> {
    match windows_file_name(p) {
        Some(f) => if last_dot(f) > 0 {
            Some(f.subrange(last_dot(f) + 1, f.len() as int))
        } else {
            None
        },
        None => None,
    }
}

/// The bounds of the extension inside the path, as `Path::extension`
/// finds it on Windows: the extension is `p[s..n]`, right after a `.`, and
/// `p[..n]` is the trimmed path.
pub fn windows_extension_bounds(p: &[u8]) -> (res: Option<(usize, usize)>)
    ensures
        match windows_extension(p@) {
            Some(e) => res matches Some(b) && {
                &&& 1 <= b.0 <= b.1 <= p@.len()
                &&& e == p@.subrange(b.0 as int, b.1 as int)
                &&& trimmed(p@, root_len(p@)) == p@.subrange(0, b.1 as int)
                &&& p@[b.0 - 1] == 0x2e
            },
            None => res is None,
        },
{
    let r = root_length(p);
    let n = trimmed_length(p, p.len(), r);
    assert(p@.subrange(0, p@.len() as int) =~= p@);
    if n <= r {
        assert(windows_final_segment(p@) =~= Seq::<u8>::empty());
        return None;
    }
    let k = after_separator_index(p, n, r);
    let seg = &p[k..n];
    assert(windows_final_segment(p@) =~= p@.subrange(k as int, n as int));
    if is_special_segment(seg) {
        return None;
    }
    let ghost f = p@.subrange(k as int, n as int);
    match dot_offset(p, k, n) {
        Some(d) => {
            if d == 0 {
                return None;
            }
            proof {
                lemma_last_dot(f);
                assert(f[d as int] == p@[k + d]);
            }
            assert(f.subrange(d + 1, f.len() as int) =~= p@.subrange(k + d + 1, n as int));
            Some((k + d + 1, n))
        },
        None => None,
    }
}

/// The bytes of the extension, as `Path::extension` finds it on Windows.
pub fn windows_extension_bytes(p: &[u8]) -> (res: Option<&[u8]>)
    ensures
        match windows_extension(p@) {
            Some(e) => res matches Some(b) && b@ == e,
            None => res is None,
        },
{
    match windows_extension_bounds(p) {
        Some((s, e)) => Some(&p[s..e]),
        None => None,
    }
}

/// A path that starts with a drive letter and `:`.
pub open spec fn has_drive(p: Seq<u8>) -> bool {
    p.len() >= 2 && is_alpha(p[0]) && p[1] == 0x3a
}

/// A path that starts with `\\`: a UNC share (or a verbatim or device
/// path, which are not told apart here).
pub open spec fn is_unc(p: Seq<u8>) -> bool {
    p.len() >= 2 && p[0] == 0x5c && p[1] == 0x5c
}

/// The length of the prefix: `C:`, or `\\server\share`; zero without one.
pub open spec fn prefix_len(p: Seq<u8>) -> int {
    if has_drive(p) {
        2
    } else if is_unc(p) {
        next_separator(p, next_separator(p, 2) + 1)
    } else {
        0
    }
}

/// `Path::is_absolute` on Windows: a prefix and a root, as in `C:\` or
/// `\\server\share`.
pub open spec fn windows_absolute(p: Seq<u8>) -> bool {
    (has_drive(p) && p.len() >= 3 && is_separator(p[2])) || is_unc(p)
}

/// `base.join(p)` on Windows: a `p` with a prefix replaces `base`; a `p`
/// that starts at the root keeps only the prefix of `base`; any other `p`
/// is appended, after a `\` when `base` is not empty, does not end in a
/// separator and is not a bare drive.
pub open spec fn windows_joined(base: Seq<u8>, p: Seq<u8>) -> Seq<u8> {
    if has_drive(p) || is_unc(p) {
        p
    } else if p.len() > 0 && is_separator(p[0]) {
        base.subrange(0, prefix_len(base)) + p
    } else if base.len() > 0 && !is_separator(base.last()) && !(has_drive(base) && base.len() == 2) {
        base + seq![0x5cu8] + p
    } else {
        base + p
    }
}

/// `Path::is_absolute` on Windows.
pub fn windows_path_is_absolute(path: &str) -> (res: bool)
    ensures
        res == windows_absolute(path.spec_bytes()),
{
    let p = path.as_bytes();
    let n = p.len();
    (n >= 3 && is_alpha_byte(p[0]) && p[1] == 0x3a && separator_byte(p[2])) || (n >= 2 && p[0]
        == 0x5c && p[1] == 0x5c)
}

/// The length of the prefix.
fn prefix_length(p: &[u8]) -> (k: usize)
    ensures
        k == prefix_len(p@),
        k <= p@.len(),
        ascii_cut(p@, k as int),
{
    let n = p.len();
    if n >= 2 && is_alpha_byte(p[0]) && p[1] == 0x3a {
        2
    } else if n >= 2 && p[0] == 0x5c && p[1] == 0x5c {
        let server_end = next_separator_index(p, 2);
        if server_end < n {
            next_separator_index(p, server_end + 1)
        } else {
            assert(next_separator(p@, n + 1) == n);
            n
        }
    } else {
        0
    }
}

/// `Path::join` on Windows.
pub fn windows_join_path(base: &str, path: &str) -> (res: String)
    ensures
        res@ == decode_utf8(windows_joined(base.spec_bytes(), path.spec_bytes())),
{
    let b = base.as_bytes();
    let p = path.as_bytes();
    proof {
        encode_utf8_valid_utf8(base@);
        encode_utf8_valid_utf8(path@);
    }
    let n = p.len();
    if (n >= 2 && is_alpha_byte(p[0]) && p[1] == 0x3a) || (n >= 2 && p[0] == 0x5c && p[1] == 0x5c) {
        proof {
            encode_utf8_decode_utf8(path@);
        }
        return path.to_owned();
    }
    let mut out: Vec<u8> = Vec::new();
    if n > 0 && separator_byte(p[0]) {
        let k = prefix_length(b);
        out.extend_from_slice(&b[0..k]);
        proof {
            lemma_ascii_cut_subrange_valid(b@, 0, k as int);
            assert(out@ =~= b@.subrange(0, k as int));
        }
    } else {
        out.extend_from_slice(b);
        assert(out@ =~= b@);
        let m = b.len();
        if m > 0 && !separator_byte(b[m - 1]) && !(m == 2 && is_alpha_byte(b[0]) && b[1] == 0x3a) {
            out.push(0x5c);
            proof {
                let sep = seq![0x5cu8];
                assert(all_ascii(sep));
                lemma_ascii_valid(sep);
                lemma_valid_concat(b@, sep);
                assert(out@ =~= b@ + sep);
            }
        }
    }
    proof {
        lemma_valid_concat(out@, p@);
    }
    let ghost before = out@;
    out.extend_from_slice(p);
    assert(out@ =~= before + p@);
    text_of(out.as_slice())
}

/// Trimming keeps a prefix of the path, and never cuts below `r`.
pub proof fn lemma_trimmed(p: Seq<u8>, r: int)
    requires
        0 <= r,
    ensures
        trimmed(p, r).len() <= p.len(),
        trimmed(p, r) == p.subrange(0, trimmed(p, r).len() as int),
        p.len() > r ==> trimmed(p, r).len() >= r,
    decreases p.len(),
{
    if p.len() > r && p.len() > 0 && (is_separator(p.last()) || (p.last() == 0x2e && p.len() >= 2
        && is_separator(p[p.len() - 2]))) {
        lemma_trimmed(p.drop_last(), r);
        let t = trimmed(p.drop_last(), r);
        assert(p.drop_last().subrange(0, t.len() as int) =~= p.subrange(0, t.len() as int));
    } else {
        assert(p.subrange(0, p.len() as int) =~= p);
    }
}

/// Where the last separator after the root stands: no separator follows
/// it.
pub proof fn lemma_after_separator(t: Seq<u8>, r: int)
    requires
        0 <= r < t.len(),
    ensures
        r <= after_separator(t, r) <= t.len(),
        after_separator(t, r) == r || is_separator(t[after_separator(t, r) - 1]),
        forall|j: int| after_separator(t, r) <= j < t.len() ==> !is_separator(#[trigger] t[j]),
    decreases t.len(),
{
    if !is_separator(t.last()) && t.len() - 1 > r {
        lemma_after_separator(t.drop_last(), r);
        let k = after_separator(t.drop_last(), r);
        assert forall|j: int| k <= j < t.len() implies !is_separator(#[trigger] t[j]) by {
            if j < t.len() - 1 {
                assert(t[j] == t.drop_last()[j]);
            }
        }
        if k > r {
            assert(t[k - 1] == t.drop_last()[k - 1]);
        }
    } else if !is_separator(t.last()) {
        assert(t.drop_last().len() <= r);
        assert(after_separator(t.drop_last(), r) == r);
    }
}

/// A position that stands where [`after_separator`] says is the one it
/// finds.
pub proof fn lemma_after_separator_at(t: Seq<u8>, r: int, k: int)
    requires
        0 <= r <= k <= t.len(),
        r < t.len(),
        k == r || is_separator(t[k - 1]),
        forall|j: int| k <= j < t.len() ==> !is_separator(#[trigger] t[j]),
    ensures
        after_separator(t, r) == k,
    decreases t.len(),
{
    if is_separator(t.last()) {
        assert(k == t.len());
    } else if t.len() - 1 <= r {
        assert(k == r);
        assert(after_separator(t.drop_last(), r) == r);
    } else {
        let u = t.drop_last();
        assert(k < t.len());
        if k > r {
            assert(u[k - 1] == t[k - 1]);
        }
        assert forall|j: int| k <= j < u.len() implies !is_separator(#[trigger] u[j]) by {
            assert(u[j] == t[j]);
        }
        lemma_after_separator_at(u, r, k);
    }
}

/// The next separator is found alike in two paths that agree up to it.
proof fn lemma_next_separator_prefix(p: Seq<u8>, q: Seq<u8>, i: int, m: int)
    requires
        0 <= i,
        0 <= m,
        m <= p.len(),
        m <= q.len(),
        p.subrange(0, m) == q.subrange(0, m),
        next_separator(p, i) < m,
    ensures
        next_separator(q, i) == next_separator(p, i),
    decreases p.len() - i,
{
    lemma_next_separator_ge(p, i);
    assert(i < m);
    assert(p[i] == p.subrange(0, m)[i]);
    assert(q[i] == q.subrange(0, m)[i]);
    if i < p.len() && !is_separator(p[i]) {
        lemma_next_separator_prefix(p, q, i + 1, m);
    }
}

/// The root of a path is read from its first bytes alone.
pub proof fn lemma_root_len_prefix(p: Seq<u8>, q: Seq<u8>, m: int)
    requires
        2 <= m <= p.len(),
        m <= q.len(),
        p.subrange(0, m) == q.subrange(0, m),
        root_len(p) < m,
    ensures
        root_len(q) == root_len(p),
{
    assert(p[0] == p.subrange(0, m)[0] && q[0] == q.subrange(0, m)[0]);
    assert(p[1] == p.subrange(0, m)[1] && q[1] == q.subrange(0, m)[1]);
    if m > 2 {
        assert(p[2] == p.subrange(0, m)[2] && q[2] == q.subrange(0, m)[2]);
    }
    if !(p.len() >= 2 && is_alpha(p[0]) && p[1] == 0x3a) && p.len() >= 2 && p[0] == 0x5c && p[1]
        == 0x5c {
        lemma_next_separator_ge(p, 2);
        let a = next_separator(p, 2);
        lemma_next_separator_ge(p, a + 1);
        let b = next_separator(p, a + 1);
        assert(b < p.len());
        lemma_next_separator_prefix(p, q, 2, m);
        lemma_next_separator_prefix(p, q, a + 1, m);
    }
}

/// The next separator stands at or after `i`, and within the path.
proof fn lemma_next_separator_ge(p: Seq<u8>, i: int)
    requires
        0 <= i,
    ensures
        i <= next_separator(p, i) || next_separator(p, i) == p.len(),
        next_separator(p, i) <= p.len() || i > p.len(),
        i <= p.len() ==> i <= next_separator(p, i) <= p.len(),
    decreases p.len() - i,
{
    if i < p.len() && !is_separator(p[i]) {
        lemma_next_separator_ge(p, i + 1);
    }
}

/// The root lies within the path.
pub proof fn lemma_root_len_bounds(p: Seq<u8>)
    ensures
        0 <= root_len(p) <= p.len(),
{
    if p.len() >= 2 {
        lemma_next_separator_ge(p, 2);
        lemma_next_separator_ge(p, next_separator(p, 2) + 1);
    }
}

} // verus!
