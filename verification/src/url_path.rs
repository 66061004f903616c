//! The path of a `file:` URL: dot-segment normalization and the
//! percent-decoding that `fileURLToPath` performs.

use vstd::prelude::*;
use vstd::utf8::*;
use crate::text::{
    split_on, split_bytes, lemma_split_nonempty, is_alpha, is_alpha_byte, replaced, replace_byte,
    holds_byte,
};
use crate::percent::{escape_at, hex_byte, percent_decoded, percent_decode};

verus! {

broadcast use {vstd::seq::group_seq_axioms, vstd::seq_lib::group_seq_properties};

/// The number of dots a segment spells when it consists only of `.` and
/// `%2e`/`%2E` units; `None` when it holds anything else.
pub open spec fn dot_units(seg: Seq<u8>) -> Option<nat>
    decreases seg.len(),
{
    if seg.len() == 0 {
        Some(0)
    } else if seg[0] == 0x2e {
        match dot_units(seg.subrange(1, seg.len() as int)) {
            Some(n) => Some(n + 1),
            None => None,
        }
    } else if seg.len() >= 3 && seg[0] == 0x25 && seg[1] == 0x32 && (seg[2] == 0x65 || seg[2]
        == 0x45) {
        match dot_units(seg.subrange(3, seg.len() as int)) {
            Some(n) => Some(n + 1),
            None => None,
        }
    } else {
        None
    }
}

/// 1 for a single-dot segment, 2 for a double-dot segment (in any mix of
/// `.` and `%2e` spellings), 0 otherwise.
pub open spec fn dot_kind(seg: Seq<u8>) -> u8 {
    match dot_units(seg) {
        Some(n) => if n == 1 {
            1
        } else if n == 2 {
            2
        } else {
            0
        },
        None => 0,
    }
}

/// Classifies a path segment as a single-dot (1), double-dot (2) or
/// ordinary (0) segment.
pub fn dot_segment_kind(seg: &[u8]) -> (res: u8)
    ensures
        res == dot_kind(seg@),
{
    let len = seg.len();
    let mut dots: u8 = 0;
    let mut index: usize = 0;
    proof {
        assert(seg@.subrange(0, len as int) =~= seg@);
    }
    while index < len
        invariant
            len == seg@.len(),
            index <= len,
            dots <= 2,
            dot_units(seg@) == match dot_units(seg@.subrange(index as int, len as int)) {
                Some(n) => Some((n + dots) as nat),
                None => None,
            },
        decreases len - index,
    {
        let ghost rest = seg@.subrange(index as int, len as int);
        if seg[index] == 0x2e {
            proof {
                assert(rest.subrange(1, rest.len() as int) =~= seg@.subrange(index + 1, len as int));
            }
            dots += 1;
            index += 1;
        } else if len - index >= 3 && seg[index] == 0x25 && seg[index + 1] == 0x32 && (seg[index
            + 2] == 0x65 || seg[index + 2] == 0x45) {
            proof {
                assert(rest.subrange(3, rest.len() as int) =~= seg@.subrange(index + 3, len as int));
            }
            dots += 1;
            index += 3;
        } else {
            return 0;
        }
        if dots > 2 {
            return 0;
        }
    }
    proof {
        assert(seg@.subrange(len as int, len as int) =~= Seq::<u8>::empty());
    }
    dots
}

/// A drive-letter segment: a letter, then `:` or `|`.
pub open spec fn is_drive(seg: Seq<u8>) -> bool {
    seg.len() == 2 && is_alpha(seg[0]) && (seg[1] == 0x3a || seg[1] == 0x7c)
}

pub fn is_drive_prefix(seg: &[u8]) -> (res: bool)
    ensures
        res == is_drive(seg@),
{
    seg.len() == 2 && is_alpha_byte(seg[0]) && (seg[1] == 0x3a || seg[1] == 0x7c)
}

/// One step of dot-segment normalization over the kept segments: `.`
/// vanishes, `..` pops the last kept segment unless only a drive remains,
/// and a pipe-form drive kept first is written with `:`.
pub open spec fn normalize_step(out: Seq<Seq<u8>>, seg: Seq<u8>) -> Seq<Seq<u8>> {
    let k = dot_kind(seg);
    if k == 1 {
        out
    } else if k == 2 {
        if out.len() > 1 || (out.len() == 1 && !is_drive(out[0])) {
            out.drop_last()
        } else {
            out
        }
    } else if out.len() == 0 && seg.len() == 2 && is_alpha(seg[0]) && seg[1] == 0x7c {
        out.push(seq![seg[0], 0x3au8])
    } else {
        out.push(seg)
    }
}

/// The kept segments after normalizing `segs` in order.
pub open spec fn normalized_segments(segs: Seq<Seq<u8>>) -> Seq<Seq<u8>>
    decreases segs.len(),
{
    if segs.len() == 0 {
        seq![]
    } else {
        normalize_step(normalized_segments(segs.drop_last()), segs.last())
    }
}

/// Segments joined with `sep`.
pub open spec fn joined(segs: Seq<Seq<u8>>, sep: u8) -> Seq<u8>
    decreases segs.len(),
{
    if segs.len() == 0 {
        seq![]
    } else if segs.len() == 1 {
        segs[0]
    } else {
        joined(segs.drop_last(), sep) + seq![sep] + segs.last()
    }
}

/// WHATWG dot-segment normalization of a `/`-separated path: the
/// normalized segments joined back with `/`, plus a trailing `/` when the
/// last segment was a dot segment.
pub open spec fn normalized_path(path: Seq<u8>) -> Seq<u8> {
    let segs = split_on(path, 0x2f);
    joined(normalized_segments(segs), 0x2f) + if dot_kind(segs.last()) != 0 {
        seq![0x2fu8]
    } else {
        seq![]
    }
}

fn join_segments(segs: &Vec<Vec<u8>>, sep: u8) -> (res: Vec<u8>)
    ensures
        res@ == joined(Seq::new(segs@.len(), |i: int| segs@[i]@), sep),
{
    let ghost all = Seq::new(segs@.len(), |i: int| segs@[i]@);
    let mut out: Vec<u8> = Vec::new();
    let mut k: usize = 0;
    while k < segs.len()
        invariant
            k <= segs@.len(),
            all == Seq::new(segs@.len(), |i: int| segs@[i]@),
            out@ == joined(all.subrange(0, k as int), sep),
        decreases segs@.len() - k,
    {
        let ghost next = all.subrange(0, k + 1);
        proof {
            assert(next.drop_last() =~= all.subrange(0, k as int));
        }
        if k > 0 {
            out.push(sep);
        }
        out.extend_from_slice(segs[k].as_slice());
        proof {
            if k == 0 {
                assert(next =~= seq![all[0]]);
                assert(out@ =~= all[0]);
            }
        }
        k += 1;
    }
    proof {
        assert(all.subrange(0, segs@.len() as int) =~= all);
    }
    out
}

/// WHATWG URL path normalization, applied to the percent-encoded path: a
/// dot segment (`.`, `..`, and their `%2e` spellings) vanishes or pops the
/// previous segment, never crossing a drive prefix, and a trailing dot
/// segment leaves a trailing slash.
pub fn normalize_dot_segments(path: &[u8]) -> (res: Vec<u8>)
    ensures
        res@ == normalized_path(path@),
{
    let segs = split_bytes(path, 0x2f);
    let ghost ssegs = split_on(path@, 0x2f);
    proof {
        lemma_split_nonempty(path@, 0x2f);
    }
    let n = segs.len();
    let mut out: Vec<Vec<u8>> = Vec::new();
    let mut k: usize = 0;
    while k < n
        invariant
            n == segs@.len(),
            n == ssegs.len(),
            k <= n,
            forall|j: int| 0 <= j < n ==> (#[trigger] segs@[j])@ == ssegs[j],
            Seq::new(out@.len(), |i: int| out@[i]@) == normalized_segments(
                ssegs.subrange(0, k as int),
            ),
        decreases n - k,
    {
        let ghost before = Seq::new(out@.len(), |i: int| out@[i]@);
        let ghost next = ssegs.subrange(0, k + 1);
        proof {
            assert(next.drop_last() =~= ssegs.subrange(0, k as int));
            assert(next.last() == ssegs[k as int]);
        }
        let seg = segs[k].as_slice();
        let kind = dot_segment_kind(seg);
        if kind == 1 {
        } else if kind == 2 {
            let len = out.len();
            if len > 1 || (len == 1 && !is_drive_prefix(out[0].as_slice())) {
                out.pop();
                proof {
                    assert(Seq::new(out@.len(), |i: int| out@[i]@) =~= before.drop_last());
                }
            }
        } else if out.len() == 0 && seg.len() == 2 && is_alpha_byte(seg[0]) && seg[1] == 0x7c {
            let mut drive: Vec<u8> = Vec::new();
            drive.push(seg[0]);
            drive.push(0x3a);
            assert(drive@ =~= seq![seg@[0], 0x3au8]);
            out.push(drive);
            proof {
                assert(Seq::new(out@.len(), |i: int| out@[i]@) =~= before.push(
                    seq![seg@[0], 0x3au8],
                ));
            }
        } else {
            let mut copy: Vec<u8> = Vec::new();
            copy.extend_from_slice(seg);
            assert(copy@ =~= seg@);
            out.push(copy);
            proof {
                assert(Seq::new(out@.len(), |i: int| out@[i]@) =~= before.push(seg@));
            }
        }
        k += 1;
    }
    proof {
        assert(ssegs.subrange(0, n as int) =~= ssegs);
    }
    let mut result = join_segments(&out, 0x2f);
    let last_kind = dot_segment_kind(segs[n - 1].as_slice());
    if last_kind != 0 {
        result.push(0x2f);
    }
    proof {
        assert(ssegs.last() == segs@[n - 1]@);
    }
    result
}

/// Every `%` of the path starts a well-formed escape that does not decode
/// to `/` or `\`.
pub open spec fn escapes_acceptable(s: Seq<u8>) -> bool {
    forall|i: int| 0 <= i < s.len() ==> #[trigger] acceptable_at(s, i)
}

/// The byte at `i` is no `%`, or starts a well-formed escape that does not
/// decode to `/` or `\`.
pub open spec fn acceptable_at(s: Seq<u8>, i: int) -> bool {
    s[i] == 0x25 ==> escape_at(s, i) is Some && escape_at(s, i)->0 != 0x2f && escape_at(s, i)->0
        != 0x5c
}

/// What `fileURLToPath` makes of a URL path: `\` read as `/`, dot segments
/// normalized, then percent-decoded; rejected when an escape is malformed
/// or encodes a separator, when the decoded bytes are not UTF-8, and when
/// they hold a `?`.
pub open spec fn decoded_path(path: Seq<u8>) -> Option<Seq<u8>> {
    let cur = normalized_path(replaced(path, 0x5c, 0x2f));
    let decoded = percent_decoded(cur);
    if !escapes_acceptable(cur) {
        None
    } else if !valid_utf8(decoded) {
        None
    } else if decoded.contains(0x3f) {
        None
    } else {
        Some(decoded)
    }
}

/// Percent-decodes a URL path, refusing the escapes `fileURLToPath`
/// rejects: `%5C`/`%2F` would become real separators, and a malformed
/// escape makes Node's `decodeURIComponent` throw. A decoded `?` is refused
/// too: the resolver would read it as a query.
pub fn decode_path_string(path: &[u8]) -> (res: Option<String>)
    ensures
        match decoded_path(path@) {
            Some(d) => res matches Some(text) && text@ == decode_utf8(d),
            None => res is None,
        },
{
    let slashed = replace_byte(path, 0x5c, 0x2f);
    let cur = normalize_dot_segments(slashed.as_slice());
    let len = cur.len();
    let mut i: usize = 0;
    while i < len
        invariant
            len == cur@.len(),
            i <= len,
            cur@ == normalized_path(replaced(path@, 0x5c, 0x2f)),
            forall|j: int| 0 <= j < i ==> #[trigger] acceptable_at(cur@, j),
        decreases len - i,
    {
        if cur[i] == 0x25 {
            match hex_byte(cur.as_slice(), i) {
                Some(byte) => {
                    if byte == 0x2f || byte == 0x5c {
                        assert(!acceptable_at(cur@, i as int));
                        return None;
                    }
                },
                None => {
                    assert(!acceptable_at(cur@, i as int));
                    return None;
                },
            }
        }
        assert(acceptable_at(cur@, i as int));
        i += 1;
    }
    let text = match percent_decode(cur.as_slice()) {
        Some(text) => text,
        None => return None,
    };
    proof {
        encode_utf8_decode_utf8(text@);
        decode_utf8_encode_utf8(percent_decoded(cur@));
    }
    let bytes = text.as_str().as_bytes();
    if holds_byte(bytes, 0x3f) {
        return None;
    }
    Some(text)
}

} // verus!
