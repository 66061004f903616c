//! Round trips between paths and `file:` URLs, and the facts about
//! splitting, joining, encoding and decoding that they rest on.

use vstd::prelude::*;
use vstd::utf8::*;
use crate::text::{all_ascii, split_on, lemma_split_nonempty, replaced, without_tabs_and_newlines};
use crate::percent::{
    hex_value, escape_at, escape_of, upper_hex_digit, is_unreserved, percent_encoded,
    percent_decoded,
};
use crate::text::{eq_ignore_case, first_of, lemma_find_either, is_alpha, starts_with};
use crate::host::{
    canonical_host, is_bracketed, encoded_host, forbidden_escape_in, forbidden_char_in,
    is_ipv6_literal,
};
use crate::ipv4::{Ipv4Authority, ipv4_authority};
use crate::file_url::{
    windows_path_bytes, windows_url_bytes, unc_path_bytes, server_host,
    localhost, file_scheme, before_query, authority_and_path, host_after_ipv4, host_after_ipv6,
    is_drive_authority, verbatim_unc_prefix, verbatim_prefix, plain_path_bytes,
};
use crate::url_path::{
    dot_units, dot_kind, normalized_segments, joined, normalized_path,
    escapes_acceptable, acceptable_at, decoded_path,
};

verus! {

broadcast use {vstd::seq::group_seq_axioms, vstd::seq_lib::group_seq_properties};

/// Appending bytes without a separator extends the last piece.
proof fn lemma_split_append(a: Seq<u8>, y: Seq<u8>, sep: u8)
    requires
        !y.contains(sep),
    ensures
        split_on(a + y, sep) == split_on(a, sep).update(
            split_on(a, sep).len() - 1,
            split_on(a, sep).last() + y,
        ),
    decreases y.len(),
{
    lemma_split_nonempty(a, sep);
    if y.len() == 0 {
        assert(a + y =~= a);
        assert(split_on(a, sep).last() + y =~= split_on(a, sep).last());
        assert(split_on(a, sep).update(split_on(a, sep).len() - 1, split_on(a, sep).last())
            =~= split_on(a, sep));
    } else {
        let y0 = y.drop_last();
        assert(!y0.contains(sep)) by {
            if y0.contains(sep) {
                let k = choose|k: int| 0 <= k < y0.len() && y0[k] == sep;
                assert(y[k] == sep);
            }
        }
        lemma_split_append(a, y0, sep);
        assert((a + y).drop_last() =~= a + y0);
        assert((a + y).last() == y.last());
        assert(y.last() != sep) by {
            assert(y[y.len() - 1] == y.last());
        }
        lemma_split_nonempty(a + y0, sep);
        let s0 = split_on(a, sep);
        let s1 = split_on(a + y0, sep);
        assert(s1 == s0.update(s0.len() - 1, s0.last() + y0));
        assert(s1.len() == s0.len());
        assert(s1.last() == s0.last() + y0);
        assert(split_on(a + y, sep) == s1.update(s1.len() - 1, s1.last().push(y.last())));
        assert((s0.last() + y0).push(y.last()) =~= s0.last() + y);
        assert(split_on(a + y, sep) =~= s0.update(s0.len() - 1, s0.last() + y));
    }
}

/// Joining the pieces of a split gives the text back.
pub proof fn lemma_join_split(s: Seq<u8>, sep: u8)
    ensures
        joined(split_on(s, sep), sep) == s,
    decreases s.len(),
{
    if s.len() > 0 {
        let init = s.drop_last();
        lemma_join_split(init, sep);
        lemma_split_nonempty(init, sep);
        let p = split_on(init, sep);
        if s.last() == sep {
            let q = p.push(Seq::<u8>::empty());
            assert(q.drop_last() =~= p);
            assert(joined(q, sep) =~= init + seq![sep] + Seq::<u8>::empty());
            assert(s =~= init + seq![sep]);
        } else {
            let q = p.update(p.len() - 1, p.last().push(s.last()));
            if p.len() == 1 {
                assert(joined(p, sep) == p[0]);
                assert(s =~= init.push(s.last()));
            } else {
                assert(q.drop_last() =~= p.drop_last());
                assert(joined(q, sep) =~= joined(p.drop_last(), sep) + seq![sep] + p.last().push(
                    s.last(),
                ));
                assert(s =~= init.push(s.last()));
            }
        }
    }
}

/// A segment list without dot segments, whose first segment is no
/// pipe-form drive, is left as it is by normalization.
proof fn lemma_normalized_identity(segs: Seq<Seq<u8>>)
    requires
        forall|i: int| 0 <= i < segs.len() ==> dot_kind(#[trigger] segs[i]) == 0,
        segs.len() > 0 ==> !(segs[0].len() == 2 && crate::text::is_alpha(segs[0][0])
            && segs[0][1] == 0x7c),
    ensures
        normalized_segments(segs) == segs,
    decreases segs.len(),
{
    if segs.len() > 0 {
        let init = segs.drop_last();
        assert forall|i: int| 0 <= i < init.len() implies dot_kind(#[trigger] init[i]) == 0 by {
            assert(init[i] == segs[i]);
        }
        if init.len() > 0 {
            assert(init[0] == segs[0]);
        }
        lemma_normalized_identity(init);
        assert(dot_kind(segs.last()) == 0) by {
            assert(segs[segs.len() - 1] == segs.last());
        }
        if init.len() == 0 {
            assert(segs.last() == segs[0]);
        }
        assert(init.push(segs.last()) =~= segs);
    }
}

/// Normalization leaves a path without dot segments, whose first segment
/// is no pipe-form drive, as it is.
pub proof fn lemma_normalized_path_identity(s: Seq<u8>)
    requires
        forall|i: int|
            0 <= i < split_on(s, 0x2f).len() ==> dot_kind(#[trigger] split_on(s, 0x2f)[i]) == 0,
        !(split_on(s, 0x2f)[0].len() == 2 && crate::text::is_alpha(split_on(s, 0x2f)[0][0])
            && split_on(s, 0x2f)[0][1] == 0x7c),
    ensures
        normalized_path(s) == s,
{
    let segs = split_on(s, 0x2f);
    lemma_split_nonempty(s, 0x2f);
    lemma_normalized_identity(segs);
    lemma_join_split(s, 0x2f);
    assert(dot_kind(segs.last()) == 0) by {
        assert(segs[segs.len() - 1] == segs.last());
    }
    assert(normalized_path(s) =~= s);
}


/// The encoding of one byte.
pub open spec fn encoded_byte(c: u8, extra: Seq<u8>) -> Seq<u8> {
    if is_unreserved(c) || extra.contains(c) {
        seq![c]
    } else {
        escape_of(c)
    }
}

proof fn lemma_encoded_single(c: u8, extra: Seq<u8>)
    ensures
        percent_encoded(seq![c], extra) == encoded_byte(c, extra),
{
    let s = seq![c];
    assert(s.subrange(1, 1) =~= Seq::<u8>::empty());
    assert(percent_encoded(Seq::<u8>::empty(), extra) == Seq::<u8>::empty());
    assert(encoded_byte(c, extra) + Seq::<u8>::empty() =~= encoded_byte(c, extra));
}

/// Percent-encoding distributes over concatenation.
pub proof fn lemma_encoded_concat(a: Seq<u8>, b: Seq<u8>, extra: Seq<u8>)
    ensures
        percent_encoded(a + b, extra) == percent_encoded(a, extra) + percent_encoded(b, extra),
    decreases a.len(),
{
    if a.len() == 0 {
        assert(a + b =~= b);
        assert(percent_encoded(a, extra) + percent_encoded(b, extra) =~= percent_encoded(b, extra));
    } else {
        let rest = a.subrange(1, a.len() as int);
        lemma_encoded_concat(rest, b, extra);
        assert((a + b)[0] == a[0]);
        assert((a + b).subrange(1, (a + b).len() as int) =~= rest + b);
        assert(percent_encoded(a + b, extra) == encoded_byte(a[0], extra) + percent_encoded(
            rest + b,
            extra,
        ));
        assert(percent_encoded(a, extra) == encoded_byte(a[0], extra) + percent_encoded(
            rest,
            extra,
        ));
        assert(encoded_byte(a[0], extra) + (percent_encoded(rest, extra) + percent_encoded(
            b,
            extra,
        )) =~= encoded_byte(a[0], extra) + percent_encoded(rest, extra) + percent_encoded(
            b,
            extra,
        ));
    }
}

/// Splitting encoded text at `/` gives the encoded pieces, when `/` is
/// kept by the encoding.
proof fn lemma_split_encoded(t: Seq<u8>)
    ensures
        split_on(percent_encoded(t, seq![0x2fu8]), 0x2f) == split_on(t, 0x2f).map_values(
            |seg: Seq<u8>| percent_encoded(seg, seq![0x2fu8]),
        ),
    decreases t.len(),
{
    let slash = seq![0x2fu8];
    if t.len() == 0 {
        assert(percent_encoded(t, slash) == Seq::<u8>::empty());
        assert(split_on(t, 0x2f).map_values(|seg: Seq<u8>| percent_encoded(seg, slash)) =~= seq![
            percent_encoded(Seq::<u8>::empty(), slash),
        ]);
    } else {
        let init = t.drop_last();
        let c = t.last();
        lemma_split_encoded(init);
        lemma_split_nonempty(init, 0x2f);
        assert(init + seq![c] =~= t);
        lemma_encoded_concat(init, seq![c], slash);
        lemma_encoded_single(c, slash);
        let e0 = percent_encoded(init, slash);
        let ec = encoded_byte(c, slash);
        let p = split_on(init, 0x2f);
        let f = |seg: Seq<u8>| percent_encoded(seg, slash);
        if c == 0x2f {
            assert(slash.contains(0x2f)) by {
                assert(slash[0] == 0x2f);
            }
            assert(ec == seq![0x2fu8]);
            assert((e0 + ec).drop_last() =~= e0);
            assert((e0 + ec).last() == 0x2f);
            assert(percent_encoded(Seq::<u8>::empty(), slash) == Seq::<u8>::empty());
            assert(p.push(Seq::<u8>::empty()).map_values(f) =~= p.map_values(f).push(
                Seq::<u8>::empty(),
            ));
        } else {
            assert(!ec.contains(0x2f)) by {
                if ec.contains(0x2f) {
                    let k = choose|k: int| 0 <= k < ec.len() && ec[k] == 0x2f;
                    if !(is_unreserved(c) || slash.contains(c)) {
                        assert(ec == escape_of(c));
                    } else {
                        if slash.contains(c) {
                            let j = choose|j: int| 0 <= j < slash.len() && slash[j] == c;
                        }
                    }
                }
            }
            lemma_split_append(e0, ec, 0x2f);
            lemma_encoded_concat(p.last(), seq![c], slash);
            assert(p.last() + seq![c] =~= p.last().push(c));
            assert(p.update(p.len() - 1, p.last().push(c)).map_values(f) =~= p.map_values(
                f,
            ).update(p.len() - 1, p.map_values(f).last() + ec));
        }
    }
}

/// True when every byte is `.`.
pub open spec fn all_dots(s: Seq<u8>) -> bool {
    forall|i: int| 0 <= i < s.len() ==> #[trigger] s[i] == 0x2e
}

/// A component `.` or `..`.
pub open spec fn is_dot_component(seg: Seq<u8>) -> bool {
    seg == seq![0x2eu8] || seg == seq![0x2eu8, 0x2eu8]
}

/// Without `%`, only dots spell dot units.
proof fn lemma_dot_units_plain(s: Seq<u8>)
    requires
        !s.contains(0x25),
    ensures
        dot_units(s) == if all_dots(s) {
            Some(s.len())
        } else {
            None::<nat>
        },
    decreases s.len(),
{
    if s.len() > 0 {
        let rest = s.subrange(1, s.len() as int);
        assert(!rest.contains(0x25)) by {
            if rest.contains(0x25) {
                let k = choose|k: int| 0 <= k < rest.len() && rest[k] == 0x25;
                assert(s[k + 1] == 0x25);
            }
        }
        lemma_dot_units_plain(rest);
        assert(s[0] != 0x25) by {
            if s[0] == 0x25 {
                assert(s.contains(0x25));
            }
        }
        if all_dots(s) {
            assert(all_dots(rest)) by {
                assert forall|i: int| 0 <= i < rest.len() implies #[trigger] rest[i] == 0x2e by {
                    assert(rest[i] == s[i + 1]);
                }
            }
            assert(s[0] == 0x2e);
        } else if s[0] == 0x2e {
            assert(!all_dots(rest)) by {
                let k = choose|k: int| 0 <= k < s.len() && s[k] != 0x2e;
                assert(k > 0);
                assert(rest[k - 1] == s[k]);
            }
        }
    }
}

proof fn lemma_upper_hex_value(d: u8)
    requires
        d < 16,
    ensures
        hex_value(upper_hex_digit(d)) == Some(d),
        is_unreserved(upper_hex_digit(d)),
        upper_hex_digit(d) != 0x25,
        upper_hex_digit(d) != 0x2e,
        upper_hex_digit(d) != 0x2f,
{
}

/// In encoded text, only dots spell dot units: an escape never spells
/// `%2e`, because `.` is never escaped.
proof fn lemma_dot_units_encoded(seg: Seq<u8>, extra: Seq<u8>)
    requires
        !extra.contains(0x25),
    ensures
        dot_units(percent_encoded(seg, extra)) == if all_dots(seg) {
            Some(seg.len())
        } else {
            None::<nat>
        },
    decreases seg.len(),
{
    if seg.len() > 0 {
        let rest = seg.subrange(1, seg.len() as int);
        lemma_dot_units_encoded(rest, extra);
        let c = seg[0];
        let h = encoded_byte(c, extra);
        let e = percent_encoded(seg, extra);
        let er = percent_encoded(rest, extra);
        assert(e == h + er);
        if all_dots(seg) {
            assert(all_dots(rest)) by {
                assert forall|i: int| 0 <= i < rest.len() implies #[trigger] rest[i] == 0x2e by {
                    assert(rest[i] == seg[i + 1]);
                }
            }
            assert(c == 0x2e);
            assert(h == seq![0x2eu8]);
            assert(e.subrange(1, e.len() as int) =~= er);
        } else if c == 0x2e {
            assert(!all_dots(rest)) by {
                let k = choose|k: int| 0 <= k < seg.len() && seg[k] != 0x2e;
                assert(k > 0);
                assert(rest[k - 1] == seg[k]);
            }
            assert(h == seq![0x2eu8]);
            assert(e.subrange(1, e.len() as int) =~= er);
        } else if is_unreserved(c) || extra.contains(c) {
            assert(c != 0x25) by {
                if c == 0x25 {
                    assert(extra.contains(0x25));
                }
            }
            assert(e[0] == c);
        } else {
            lemma_upper_hex_value(c / 16);
            lemma_upper_hex_value(c % 16);
            assert(e[0] == 0x25);
            assert(e[1] == upper_hex_digit(c / 16));
            assert(e[2] == upper_hex_digit(c % 16));
            assert(!(e[1] == 0x32 && (e[2] == 0x65 || e[2] == 0x45)));
        }
    }
}

/// Decoding undoes encoding.
pub proof fn lemma_decode_encode(s: Seq<u8>, extra: Seq<u8>)
    requires
        !extra.contains(0x25),
    ensures
        percent_decoded(percent_encoded(s, extra)) == s,
    decreases s.len(),
{
    if s.len() > 0 {
        let rest = s.subrange(1, s.len() as int);
        lemma_decode_encode(rest, extra);
        let c = s[0];
        let h = encoded_byte(c, extra);
        let er = percent_encoded(rest, extra);
        let e = h + er;
        assert(percent_encoded(s, extra) == e);
        if is_unreserved(c) || extra.contains(c) {
            assert(c != 0x25) by {
                if c == 0x25 {
                    assert(extra.contains(0x25));
                }
            }
            assert(e[0] == c);
            assert(e.subrange(1, e.len() as int) =~= er);
            assert(seq![c] + rest =~= s);
        } else {
            lemma_upper_hex_value(c / 16);
            lemma_upper_hex_value(c % 16);
            assert(e[0] == 0x25);
            assert(escape_at(e, 0) == Some(c));
            assert(e.subrange(3, e.len() as int) =~= er);
            assert(seq![c] + rest =~= s);
        }
    }
}

/// Bytes that may appear in percent-encoded text whose kept extra is `/`.
pub open spec fn url_safe(b: u8) -> bool {
    is_unreserved(b) || b == 0x2f || b == 0x25
}

/// Every byte of encoded text is unreserved, `/` or `%`.
proof fn lemma_encoded_bytes(s: Seq<u8>)
    ensures
        forall|i: int|
            0 <= i < percent_encoded(s, seq![0x2fu8]).len() ==> url_safe(
                #[trigger] percent_encoded(s, seq![0x2fu8])[i],
            ),
    decreases s.len(),
{
    let slash = seq![0x2fu8];
    if s.len() > 0 {
        let rest = s.subrange(1, s.len() as int);
        lemma_encoded_bytes(rest);
        let c = s[0];
        let h = encoded_byte(c, slash);
        let er = percent_encoded(rest, slash);
        let e = h + er;
        assert(percent_encoded(s, slash) == e);
        if !(is_unreserved(c) || slash.contains(c)) {
            lemma_upper_hex_value(c / 16);
            lemma_upper_hex_value(c % 16);
        } else if slash.contains(c) {
            let j = choose|j: int| 0 <= j < slash.len() && slash[j] == c;
            assert(c == 0x2f);
        }
        assert forall|i: int| 0 <= i < e.len() implies url_safe(#[trigger] e[i]) by {
            if i >= h.len() {
                assert(e[i] == er[i - h.len()]);
            }
        }
    }
}

/// The escapes of encoded text are well formed, and none of them encodes a
/// separator when the text holds no `\`.
proof fn lemma_encoded_escapes(s: Seq<u8>)
    requires
        !s.contains(0x5c),
    ensures
        escapes_acceptable(percent_encoded(s, seq![0x2fu8])),
    decreases s.len(),
{
    let slash = seq![0x2fu8];
    if s.len() > 0 {
        let rest = s.subrange(1, s.len() as int);
        assert(!rest.contains(0x5c)) by {
            if rest.contains(0x5c) {
                let k = choose|k: int| 0 <= k < rest.len() && rest[k] == 0x5c;
                assert(s[k + 1] == 0x5c);
            }
        }
        lemma_encoded_escapes(rest);
        let c = s[0];
        let h = encoded_byte(c, slash);
        let er = percent_encoded(rest, slash);
        let e = h + er;
        assert(percent_encoded(s, slash) == e);
        assert(c != 0x5c) by {
            if c == 0x5c {
                assert(s.contains(0x5c));
            }
        }
        if !(is_unreserved(c) || slash.contains(c)) {
            lemma_upper_hex_value(c / 16);
            lemma_upper_hex_value(c % 16);
            assert(c != 0x2f) by {
                if c == 0x2f {
                    assert(slash[0] == 0x2f);
                }
            }
        } else if slash.contains(c) {
            let j = choose|j: int| 0 <= j < slash.len() && slash[j] == c;
        }
        assert forall|i: int| 0 <= i < e.len() implies #[trigger] acceptable_at(e, i) by {
            if i >= h.len() {
                assert(e[i] == er[i - h.len()]);
                assert(acceptable_at(er, i - h.len()));
                if e[i] == 0x25 {
                    assert(escape_at(e, i) == escape_at(er, i - h.len()));
                }
            } else if i == 0 {
                if e[0] == 0x25 {
                    assert(escape_at(e, 0) == Some(c));
                }
            }
        }
    }
}

/// Removing absent bytes changes nothing.
proof fn lemma_no_tabs_identity(s: Seq<u8>)
    requires
        !s.contains(0x09),
        !s.contains(0x0a),
        !s.contains(0x0d),
    ensures
        without_tabs_and_newlines(s) == s,
    decreases s.len(),
{
    if s.len() > 0 {
        let init = s.drop_last();
        assert(!init.contains(0x09) && !init.contains(0x0a) && !init.contains(0x0d)) by {
            if init.contains(0x09) || init.contains(0x0a) || init.contains(0x0d) {
                let k = choose|k: int| 0 <= k < init.len() && (init[k] == 0x09 || init[k] == 0x0a || init[k] == 0x0d);
                assert(s[k] == init[k]);
            }
        }
        lemma_no_tabs_identity(init);
        assert(s.last() == s[s.len() - 1]);
        assert(init.push(s.last()) =~= s);
    }
}

/// Splitting at a replaced separator gives the same pieces.
proof fn lemma_split_replaced(s: Seq<u8>, a: u8, b: u8)
    requires
        !s.contains(b),
        a != b,
    ensures
        split_on(replaced(s, a, b), b) == split_on(s, a),
    decreases s.len(),
{
    if s.len() > 0 {
        let init = s.drop_last();
        assert(!init.contains(b)) by {
            if init.contains(b) {
                let k = choose|k: int| 0 <= k < init.len() && init[k] == b;
                assert(s[k] == b);
            }
        }
        lemma_split_replaced(init, a, b);
        let r = replaced(s, a, b);
        assert(r.drop_last() =~= replaced(init, a, b));
        assert(s.last() != b) by {
            assert(s[s.len() - 1] == s.last());
        }
    }
}


proof fn lemma_first_none(s: Seq<u8>, a: u8, b: u8)
    requires
        !s.contains(a),
        !s.contains(b),
    ensures
        first_of(s, a, b) is None,
{
    lemma_find_either(s, a, b, 0);
    if let Some(k) = first_of(s, a, b) {
        assert(s[k] == a || s[k] == b);
        assert(s.contains(a) || s.contains(b));
    }
}

proof fn lemma_first_at(s: Seq<u8>, a: u8, b: u8, k: int)
    requires
        0 <= k < s.len(),
        s[k] == a || s[k] == b,
        forall|j: int| 0 <= j < k ==> s[j] != a && s[j] != b,
    ensures
        first_of(s, a, b) == Some(k),
{
    lemma_find_either(s, a, b, 0);
    match first_of(s, a, b) {
        Some(m) => {
            if m < k {
                assert(s[m] != a && s[m] != b);
            } else if m > k {
                assert(s[k] != a && s[k] != b);
            }
        },
        None => {
            assert(s[k] != a && s[k] != b);
        },
    }
}

/// The first piece of a split is a prefix, and a single piece is the whole.
proof fn lemma_split_first(s: Seq<u8>, sep: u8)
    ensures
        split_on(s, sep)[0] == s.subrange(0, split_on(s, sep)[0].len() as int),
        split_on(s, sep)[0].len() <= s.len(),
        split_on(s, sep).len() == 1 ==> split_on(s, sep)[0] == s,
    decreases s.len(),
{
    if s.len() == 0 {
        assert(s.subrange(0, 0) =~= s);
    } else {
        let init = s.drop_last();
        lemma_split_first(init, sep);
        lemma_split_nonempty(init, sep);
        let p = split_on(init, sep);
        if s.last() == sep {
            assert(split_on(s, sep)[0] == p[0]);
            assert(p[0] =~= s.subrange(0, p[0].len() as int));
        } else if p.len() == 1 {
            assert(split_on(s, sep)[0] == p[0].push(s.last()));
            assert(p[0].push(s.last()) =~= s);
            assert(s.subrange(0, s.len() as int) =~= s);
        } else {
            assert(split_on(s, sep)[0] == p[0]);
            assert(p[0] =~= s.subrange(0, p[0].len() as int));
        }
    }
}

/// The pieces of a split hold only bytes of the text.
proof fn lemma_split_bytes(s: Seq<u8>, sep: u8)
    ensures
        forall|k: int, j: int|
            0 <= k < split_on(s, sep).len() && 0 <= j < split_on(s, sep)[k].len() ==> s.contains(
                #[trigger] split_on(s, sep)[k][j],
            ),
    decreases s.len(),
{
    if s.len() > 0 {
        let init = s.drop_last();
        lemma_split_bytes(init, sep);
        lemma_split_nonempty(init, sep);
        let p = split_on(init, sep);
        let q = split_on(s, sep);
        assert forall|k: int, j: int| 0 <= k < q.len() && 0 <= j < q[k].len() implies s.contains(
            #[trigger] q[k][j],
        ) by {
            if k < p.len() && j < p[k].len() {
                assert(p[k][j] == q[k][j]);
                assert(init.contains(p[k][j]));
                let m = choose|m: int| 0 <= m < init.len() && init[m] == p[k][j];
                assert(s[m] == init[m]);
            } else {
                assert(q[k][j] == s.last());
                assert(s[s.len() - 1] == s.last());
            }
        }
    }
}

/// A component kind: a segment is a dot segment exactly when it is `.` or
/// `..`, for a segment without `%`.
proof fn lemma_dot_kind_plain(seg: Seq<u8>)
    requires
        !seg.contains(0x25),
    ensures
        (dot_kind(seg) != 0) == is_dot_component(seg),
{
    lemma_dot_units_plain(seg);
    if all_dots(seg) && seg.len() == 1 {
        assert(seg =~= seq![0x2eu8]);
    }
    if all_dots(seg) && seg.len() == 2 {
        assert(seg =~= seq![0x2eu8, 0x2eu8]);
    }
    if seg == seq![0x2eu8] || seg == seq![0x2eu8, 0x2eu8] {
        assert(all_dots(seg));
    }
}

/// The same for an encoded segment.
proof fn lemma_dot_kind_encoded(seg: Seq<u8>)
    ensures
        (dot_kind(percent_encoded(seg, seq![0x2fu8])) != 0) == is_dot_component(seg),
{
    let slash = seq![0x2fu8];
    assert(!slash.contains(0x25)) by {
        if slash.contains(0x25) {
            let j = choose|j: int| 0 <= j < slash.len() && slash[j] == 0x25;
        }
    }
    lemma_dot_units_encoded(seg, slash);
    if all_dots(seg) && seg.len() == 1 {
        assert(seg =~= seq![0x2eu8]);
    }
    if all_dots(seg) && seg.len() == 2 {
        assert(seg =~= seq![0x2eu8, 0x2eu8]);
    }
    if seg == seq![0x2eu8] || seg == seq![0x2eu8, 0x2eu8] {
        assert(all_dots(seg));
    }
}

/// Unreserved text encodes to itself.
proof fn lemma_encoded_unreserved(s: Seq<u8>)
    requires
        forall|i: int| 0 <= i < s.len() ==> is_unreserved(#[trigger] s[i]),
    ensures
        percent_encoded(s, seq![]) == s,
    decreases s.len(),
{
    if s.len() > 0 {
        let rest = s.subrange(1, s.len() as int);
        assert forall|i: int| 0 <= i < rest.len() implies is_unreserved(#[trigger] rest[i]) by {
            assert(rest[i] == s[i + 1]);
        }
        lemma_encoded_unreserved(rest);
        assert(is_unreserved(s[0]));
        assert(seq![s[0]] + rest =~= s);
    }
}

/// A UNC server name that survives a round trip: unreserved ASCII, its own
/// UTS #46 canonical form, not an IPv4 address and not `localhost`.
pub open spec fn plain_server(host: Seq<u8>) -> bool {
    &&& host.len() > 0
    &&& forall|i: int| 0 <= i < host.len() ==> is_unreserved(#[trigger] host[i])
    &&& canonical_host(host) == Some(host)
    &&& ipv4_authority(host) == Ipv4Authority::NotIpv4
    &&& !eq_ignore_case(host, localhost())
}

/// The path of a UNC path after its server: valid UTF-8 with `\`
/// separators only, no `?`, and no `.` or `..` component.
pub open spec fn plain_unc_rest(rest: Seq<u8>) -> bool {
    &&& valid_utf8(rest)
    &&& !rest.contains(0x2f)
    &&& !rest.contains(0x3f)
    &&& forall|k: int|
        0 <= k < split_on(rest, 0x5c).len() ==> !is_dot_component(#[trigger] split_on(rest, 0x5c)[k])
}

/// A UNC path `\\server\rest`.
pub open spec fn unc_path(host: Seq<u8>, rest: Seq<u8>) -> Seq<u8> {
    seq![0x5cu8, 0x5cu8] + host + seq![0x5cu8] + rest
}

/// A UNC path round trips through the URL authority:
/// `\\server\share\a.ts` becomes `file://server/share/a.ts`, and that URL
/// converts back to `\\server\share\a.ts`, for a server name that is
/// plain unreserved ASCII in canonical form, and a path without `/`, `?`
/// and `.`/`..` components.
pub proof fn law_unc_round_trip(host: Seq<u8>, rest: Seq<u8>)
    requires
        plain_server(host),
        plain_unc_rest(rest),
    ensures
        windows_path_bytes(windows_url_bytes(unc_path(host, rest))) == Some(unc_path(host, rest)),
{
    let e = percent_encoded(replaced(rest, 0x5c, 0x2f), seq![0x2fu8]);
    lemma_unc_url_form(host, rest);
    lemma_encoded_path_decodes(rest);
    lemma_unc_url_plain(host, e);
    let url = file_scheme() + host + seq![0x2fu8] + e;
    let after = url.subrange(7, url.len() as int);
    lemma_unc_url_parts(host, e);
    lemma_server_host_plain(host);
    assert(unc_path_bytes(after) == Some(unc_path(host, rest)));
}

/// The URL that a plain UNC path converts to.
proof fn lemma_unc_url_form(host: Seq<u8>, rest: Seq<u8>)
    requires
        plain_server(host),
    ensures
        windows_url_bytes(unc_path(host, rest)) == file_scheme() + host + seq![0x2fu8]
            + percent_encoded(replaced(rest, 0x5c, 0x2f), seq![0x2fu8]),
{
    let p = unc_path(host, rest);
    assert(p[2] == host[0]);
    assert(is_unreserved(host[0]));
    assert(!starts_with(p, verbatim_unc_prefix())) by {
        if p.len() >= 8 {
            assert(p.subrange(0, 8)[2] == p[2]);
        }
    }
    assert(!starts_with(p, verbatim_prefix())) by {
        if p.len() >= 4 {
            assert(p.subrange(0, 4)[2] == p[2]);
        }
    }
    assert(starts_with(p, seq![0x5cu8, 0x5cu8])) by {
        assert(p.subrange(0, 2) =~= seq![0x5cu8, 0x5cu8]);
    }
    let stripped = p.subrange(2, p.len() as int);
    assert(stripped =~= host + seq![0x5cu8] + rest);
    assert forall|j: int| 0 <= j < host.len() implies stripped[j] != 0x2f && stripped[j] != 0x5c by {
        assert(is_unreserved(host[j]));
    }
    lemma_first_at(stripped, 0x2f, 0x5c, host.len() as int);
    assert(stripped.subrange(0, host.len() as int) =~= host);
    assert(stripped.subrange(host.len() as int + 1, stripped.len() as int) =~= rest);
    assert(!is_bracketed(host));
    lemma_encoded_unreserved(host);
    assert(encoded_host(host) == host);
}

/// The URL of a plain UNC path holds no tab, newline, query or fragment,
/// and starts with the scheme and the server.
proof fn lemma_unc_url_plain(host: Seq<u8>, e: Seq<u8>)
    requires
        plain_server(host),
        forall|i: int| 0 <= i < e.len() ==> url_safe(#[trigger] e[i]),
    ensures
        ({
            let url = file_scheme() + host + seq![0x2fu8] + e;
            let after = url.subrange(7, url.len() as int);
            &&& without_tabs_and_newlines(url) == url
            &&& url.len() > 7
            &&& url.subrange(0, 7) == file_scheme()
            &&& after == host + seq![0x2fu8] + e
            &&& before_query(after) == after
            &&& !is_drive_authority(after)
            &&& !(after.len() > 0 && after[0] == 0x2f)
        }),
{
    let slash = seq![0x2fu8];
    let url = file_scheme() + host + slash + e;
    assert forall|i: int| 0 <= i < url.len() implies url_safe(#[trigger] url[i]) || url[i] == 0x3a by {
        if i < 7 {
        } else if i < 7 + host.len() {
            assert(url[i] == host[i - 7]);
        } else if i == 7 + host.len() {
        } else {
            assert(url[i] == e[i - 8 - host.len()]);
        }
    }
    assert(!url.contains(0x09) && !url.contains(0x0a) && !url.contains(0x0d)) by {
        if url.contains(0x09) || url.contains(0x0a) || url.contains(0x0d) {
            let k = choose|k: int| 0 <= k < url.len() && (url[k] == 0x09 || url[k] == 0x0a || url[k] == 0x0d);
            assert(url_safe(url[k]) || url[k] == 0x3a);
        }
    }
    lemma_no_tabs_identity(url);
    assert(url.subrange(0, 7) =~= file_scheme());
    let after = url.subrange(7, url.len() as int);
    assert(after =~= host + slash + e);
    assert(!after.contains(0x3f) && !after.contains(0x23)) by {
        if after.contains(0x3f) || after.contains(0x23) {
            let k = choose|k: int| 0 <= k < after.len() && (after[k] == 0x3f || after[k] == 0x23);
            assert(after[k] == url[k + 7]);
            assert(url_safe(url[k + 7]) || url[k + 7] == 0x3a);
        }
    }
    lemma_first_none(after, 0x3f, 0x23);
    assert(!is_drive_authority(after)) by {
        if host.len() >= 2 {
            assert(after[1] == host[1]);
            assert(is_unreserved(host[1]));
        } else {
            assert(after[1] == 0x2f);
        }
    }
    assert(after[0] == host[0]);
    assert(is_unreserved(host[0]));
}

/// The server and path of the URL of a plain UNC path.
proof fn lemma_unc_url_parts(host: Seq<u8>, e: Seq<u8>)
    requires
        plain_server(host),
    ensures
        authority_and_path(host + seq![0x2fu8] + e) == (host, e),
{
    let after = host + seq![0x2fu8] + e;
    assert forall|j: int| 0 <= j < host.len() implies after[j] != 0x2f && after[j] != 0x5c by {
        assert(after[j] == host[j]);
        assert(is_unreserved(host[j]));
    }
    lemma_first_at(after, 0x2f, 0x5c, host.len() as int);
    assert(after.subrange(0, host.len() as int) =~= host);
    assert(after.subrange(host.len() as int + 1, after.len() as int) =~= e);
}

/// The encoded path of a plain UNC path decodes to the path with `/`
/// separators, and every byte of it is plain.
proof fn lemma_encoded_path_decodes(rest: Seq<u8>)
    requires
        plain_unc_rest(rest),
    ensures
        ({
            let t = replaced(rest, 0x5c, 0x2f);
            let e = percent_encoded(t, seq![0x2fu8]);
            &&& decoded_path(e) == Some(t)
            &&& replaced(t, 0x2f, 0x5c) == rest
            &&& forall|i: int| 0 <= i < e.len() ==> url_safe(#[trigger] e[i])
        }),
{
    let slash = seq![0x2fu8];
    let t = replaced(rest, 0x5c, 0x2f);
    let e = percent_encoded(t, slash);
    assert(!t.contains(0x5c)) by {
        if t.contains(0x5c) {
            let k = choose|k: int| 0 <= k < t.len() && t[k] == 0x5c;
        }
    }
    lemma_encoded_bytes(t);
    lemma_encoded_escapes(t);
    assert(!slash.contains(0x25)) by {
        if slash.contains(0x25) {
            let j = choose|j: int| 0 <= j < slash.len() && slash[j] == 0x25;
        }
    }
    lemma_decode_encode(t, slash);
    lemma_split_replaced(rest, 0x5c, 0x2f);
    lemma_split_encoded(t);
    let segs = split_on(e, 0x2f);
    lemma_split_nonempty(t, 0x2f);
    assert forall|i: int| 0 <= i < segs.len() implies dot_kind(#[trigger] segs[i]) == 0 by {
        let seg = split_on(t, 0x2f)[i];
        assert(segs[i] == percent_encoded(seg, slash));
        lemma_dot_kind_encoded(seg);
        assert(seg == split_on(rest, 0x5c)[i]);
    }
    assert(!(segs[0].len() == 2 && is_alpha(segs[0][0]) && segs[0][1] == 0x7c)) by {
        let seg0 = split_on(t, 0x2f)[0];
        assert(segs[0] == percent_encoded(seg0, slash));
        lemma_encoded_bytes(seg0);
        if segs[0].len() == 2 {
            assert(url_safe(segs[0][1]));
        }
    }
    lemma_normalized_path_identity(e);
    assert(!e.contains(0x5c)) by {
        if e.contains(0x5c) {
            let k = choose|k: int| 0 <= k < e.len() && e[k] == 0x5c;
            assert(url_safe(e[k]));
        }
    }
    assert(replaced(e, 0x5c, 0x2f) =~= e);
    crate::text::lemma_replaced_valid(rest, 0x5c, 0x2f);
    assert(!t.contains(0x3f)) by {
        if t.contains(0x3f) {
            let k = choose|k: int| 0 <= k < t.len() && t[k] == 0x3f;
            assert(rest[k] == 0x3f);
        }
    }
    assert(decoded_path(e) == Some(t));
    assert(replaced(t, 0x2f, 0x5c) =~= rest) by {
        assert forall|i: int| 0 <= i < rest.len() implies rest[i] != 0x2f by {
            if rest[i] == 0x2f {
                assert(rest.contains(0x2f));
            }
        }
    }
}

/// The server of a plain UNC path is accepted as it is.
proof fn lemma_server_host_plain(host: Seq<u8>)
    requires
        plain_server(host),
    ensures
        server_host(host) == Some(host),
{
    reveal(server_host);
    assert(!forbidden_escape_in(host)) by {
        if forbidden_escape_in(host) {
            let i = choose|i: int| 0 <= i < host.len() && host[i] == 0x25 && (crate::percent::escape_at(host, i) is None
                || crate::host::is_forbidden_host_byte(crate::percent::escape_at(host, i)->0));
            assert(is_unreserved(host[i]));
        }
    }
    assert(!is_ipv6_literal(host)) by {
        assert(is_unreserved(host[0]));
    }
    assert(!forbidden_char_in(host, true) && !forbidden_char_in(host, false)) by {
        if forbidden_char_in(host, true) || forbidden_char_in(host, false) {
            let i = choose|i: int| 0 <= i < host.len() && crate::host::is_forbidden_host_byte(#[trigger] host[i]);
            assert(is_unreserved(host[i]));
        }
    }
    lemma_encoded_unreserved(host);
    assert(!Seq::<u8>::empty().contains(0x25));
    lemma_decode_encode(host, seq![]);
    assert(percent_decoded(host) == host);
    assert(all_ascii(host)) by {
        assert forall|i: int| 0 <= i < host.len() implies #[trigger] host[i] < 0x80 by {
            assert(is_unreserved(host[i]));
        }
    }
    crate::text::lemma_ascii_valid(host);
    assert(host_after_ipv4(host) == Some(host));
    assert(!is_bracketed(host)) by {
        assert(is_unreserved(host[0]));
    }
    assert(host_after_ipv6(host) == host);
}


/// No tab, line feed or carriage return.
pub open spec fn no_tabs_or_newlines(s: Seq<u8>) -> bool {
    !s.contains(0x09) && !s.contains(0x0a) && !s.contains(0x0d)
}

/// A drive path that survives a round trip: a drive letter and `:`, valid
/// UTF-8 without `%`, `?`, `#`, tabs or newlines, and no `.` or `..`
/// component (components split at `\` and `/`).
pub open spec fn plain_drive_path(p: Seq<u8>) -> bool {
    &&& p.len() >= 2
    &&& is_alpha(p[0])
    &&& p[1] == 0x3a
    &&& valid_utf8(p)
    &&& !p.contains(0x25)
    &&& !p.contains(0x3f)
    &&& !p.contains(0x23)
    &&& no_tabs_or_newlines(p)
    &&& forall|k: int|
        0 <= k < split_on(replaced(p, 0x5c, 0x2f), 0x2f).len() ==> !is_dot_component(
            #[trigger] split_on(replaced(p, 0x5c, 0x2f), 0x2f)[k],
        )
}

proof fn lemma_replaced_lacks(s: Seq<u8>, from: u8, to: u8, b: u8)
    requires
        !s.contains(b),
        b != to,
    ensures
        !replaced(s, from, to).contains(b),
{
    if replaced(s, from, to).contains(b) {
        let k = choose|k: int| 0 <= k < s.len() && replaced(s, from, to)[k] == b;
        assert(s[k] == b);
    }
}

/// A drive path keeps the `file:///C:/...` form: `C:\a\b.ts` becomes
/// `file:///C:/a/b.ts`, which converts back to `C:/a/b.ts`, for a path
/// without `%`, `?`, `#`, tabs, newlines and `.`/`..` components.
pub proof fn law_drive_round_trip(p: Seq<u8>)
    requires
        plain_drive_path(p),
    ensures
        windows_path_bytes(windows_url_bytes(p)) == Some(replaced(p, 0x5c, 0x2f)),
{
    let s = replaced(p, 0x5c, 0x2f);
    lemma_drive_url_form(p);
    lemma_drive_url_plain(p);
    lemma_drive_path_decodes(p);
    let url = file_scheme() + seq![0x2fu8] + s;
    let after = url.subrange(7, url.len() as int);
    assert(after.subrange(1, after.len() as int) =~= s);
}

proof fn lemma_replaced_removes(s: Seq<u8>, from: u8, to: u8)
    requires
        from != to,
    ensures
        !replaced(s, from, to).contains(from),
{
    if replaced(s, from, to).contains(from) {
        let k = choose|k: int| 0 <= k < s.len() && replaced(s, from, to)[k] == from;
    }
}

proof fn lemma_drive_url_form(p: Seq<u8>)
    requires
        plain_drive_path(p),
    ensures
        windows_url_bytes(p) == file_scheme() + seq![0x2fu8] + replaced(p, 0x5c, 0x2f),
{
    assert(!starts_with(p, verbatim_unc_prefix())) by {
        if p.len() >= 8 {
            assert(p.subrange(0, 8)[0] == p[0]);
        }
    }
    assert(!starts_with(p, verbatim_prefix())) by {
        if p.len() >= 4 {
            assert(p.subrange(0, 4)[0] == p[0]);
        }
    }
    assert(!starts_with(p, seq![0x5cu8, 0x5cu8])) by {
        assert(p.subrange(0, 2)[0] == p[0]);
    }
    assert(!starts_with(p, seq![0x2fu8, 0x2fu8])) by {
        assert(p.subrange(0, 2)[0] == p[0]);
    }
}

proof fn lemma_drive_url_plain(p: Seq<u8>)
    requires
        plain_drive_path(p),
    ensures
        ({
            let url = file_scheme() + seq![0x2fu8] + replaced(p, 0x5c, 0x2f);
            let after = url.subrange(7, url.len() as int);
            &&& without_tabs_and_newlines(url) == url
            &&& url.len() > 7
            &&& url.subrange(0, 7) == file_scheme()
            &&& after == seq![0x2fu8] + replaced(p, 0x5c, 0x2f)
            &&& before_query(after) == after
            &&& !is_drive_authority(after)
        }),
{
    let s = replaced(p, 0x5c, 0x2f);
    let slash = seq![0x2fu8];
    let url = file_scheme() + slash + s;
    lemma_replaced_lacks(p, 0x5c, 0x2f, 0x09);
    lemma_replaced_lacks(p, 0x5c, 0x2f, 0x0a);
    lemma_replaced_lacks(p, 0x5c, 0x2f, 0x0d);
    lemma_replaced_lacks(p, 0x5c, 0x2f, 0x3f);
    lemma_replaced_lacks(p, 0x5c, 0x2f, 0x23);
    assert(no_tabs_or_newlines(url)) by {
        if url.contains(0x09) || url.contains(0x0a) || url.contains(0x0d) {
            let k = choose|k: int| 0 <= k < url.len() && (url[k] == 0x09 || url[k] == 0x0a || url[k] == 0x0d);
            if k >= 8 {
                assert(url[k] == s[k - 8]);
            }
        }
    }
    lemma_no_tabs_identity(url);
    assert(url.subrange(0, 7) =~= file_scheme());
    let after = url.subrange(7, url.len() as int);
    assert(after =~= slash + s);
    assert(!after.contains(0x3f) && !after.contains(0x23)) by {
        if after.contains(0x3f) || after.contains(0x23) {
            let k = choose|k: int| 0 <= k < after.len() && (after[k] == 0x3f || after[k] == 0x23);
            assert(k > 0);
            assert(after[k] == s[k - 1]);
        }
    }
    lemma_first_none(after, 0x3f, 0x23);
}

proof fn lemma_drive_path_decodes(p: Seq<u8>)
    requires
        plain_drive_path(p),
    ensures
        decoded_path(replaced(p, 0x5c, 0x2f)) == Some(replaced(p, 0x5c, 0x2f)),
{
    let s = replaced(p, 0x5c, 0x2f);
    lemma_replaced_lacks(p, 0x5c, 0x2f, 0x25);
    lemma_replaced_lacks(p, 0x5c, 0x2f, 0x3f);
    lemma_replaced_removes(p, 0x5c, 0x2f);
    assert(replaced(s, 0x5c, 0x2f) =~= s);
    let segs = split_on(s, 0x2f);
    lemma_split_nonempty(s, 0x2f);
    lemma_split_bytes(s, 0x2f);
    assert forall|i: int| 0 <= i < segs.len() implies dot_kind(#[trigger] segs[i]) == 0 by {
        assert(!segs[i].contains(0x25)) by {
            if segs[i].contains(0x25) {
                let j = choose|j: int| 0 <= j < segs[i].len() && segs[i][j] == 0x25;
                assert(s.contains(segs[i][j]));
            }
        }
        lemma_dot_kind_plain(segs[i]);
    }
    lemma_split_first(s, 0x2f);
    assert(!(segs[0].len() == 2 && is_alpha(segs[0][0]) && segs[0][1] == 0x7c)) by {
        if segs[0].len() == 2 {
            assert(segs[0][1] == s[1]);
            assert(s[1] == p[1]);
        }
    }
    lemma_normalized_path_identity(s);
    crate::percent::lemma_decoded_prefix(s, s.len() as int);
    assert(s.subrange(0, s.len() as int) =~= s);
    assert(s.subrange(s.len() as int, s.len() as int) =~= Seq::<u8>::empty());
    assert(percent_decoded(s) =~= s);
    assert(escapes_acceptable(s)) by {
        assert forall|i: int| 0 <= i < s.len() implies #[trigger] acceptable_at(s, i) by {
            if s[i] == 0x25 {
                assert(s.contains(0x25));
            }
        }
    }
    crate::text::lemma_replaced_valid(p, 0x5c, 0x2f);
}

/// A path without `%`, `?`, `#`, tabs and newlines round trips through
/// the plain `file://` form: `file://` followed by the path converts back to
/// the path.
pub proof fn law_plain_round_trip(p: Seq<u8>)
    requires
        valid_utf8(p),
        !p.contains(0x25),
        !p.contains(0x3f),
        !p.contains(0x23),
        no_tabs_or_newlines(p),
    ensures
        plain_path_bytes(file_scheme() + p) == Some(p),
{
    let url = file_scheme() + p;
    assert(no_tabs_or_newlines(url)) by {
        if url.contains(0x09) || url.contains(0x0a) || url.contains(0x0d) {
            let k = choose|k: int| 0 <= k < url.len() && (url[k] == 0x09 || url[k] == 0x0a || url[k] == 0x0d);
            if k >= 7 {
                assert(url[k] == p[k - 7]);
            }
        }
    }
    lemma_no_tabs_identity(url);
    assert(url.subrange(0, 7) =~= file_scheme());
    assert(url.subrange(7, url.len() as int) =~= p);
    lemma_first_none(p, 0x3f, 0x23);
    crate::percent::lemma_decoded_prefix(p, p.len() as int);
    assert(p.subrange(0, p.len() as int) =~= p);
    assert(p.subrange(p.len() as int, p.len() as int) =~= Seq::<u8>::empty());
    assert(percent_decoded(p) =~= p);
}

/// Tabs and newlines are removed piece by piece.
proof fn lemma_no_tabs_concat(a: Seq<u8>, b: Seq<u8>)
    ensures
        without_tabs_and_newlines(a + b) == without_tabs_and_newlines(a) + without_tabs_and_newlines(b),
    decreases b.len(),
{
    if b.len() == 0 {
        assert(a + b =~= a);
        assert(without_tabs_and_newlines(a) + without_tabs_and_newlines(b) =~= without_tabs_and_newlines(a));
    } else {
        lemma_no_tabs_concat(a, b.drop_last());
        assert((a + b).drop_last() =~= a + b.drop_last());
        assert((a + b).last() == b.last());
        let wa = without_tabs_and_newlines(a);
        let wb = without_tabs_and_newlines(b.drop_last());
        assert((wa + wb).push(b.last()) =~= wa + wb.push(b.last()));
    }
}

/// A path without `%`, `?`, `#`, tabs and newlines, behind `file://` and
/// followed by a query or a fragment, converts back to the path: the
/// query and the fragment are no part of it.
pub proof fn law_plain_round_trip_with_suffix(p: Seq<u8>, suffix: Seq<u8>)
    requires
        valid_utf8(p),
        !p.contains(0x25),
        !p.contains(0x3f),
        !p.contains(0x23),
        no_tabs_or_newlines(p),
        suffix.len() == 0 || suffix[0] == 0x3f || suffix[0] == 0x23,
    ensures
        plain_path_bytes(file_scheme() + p + suffix) == Some(p),
{
    let head = file_scheme() + p;
    assert(no_tabs_or_newlines(head)) by {
        if head.contains(0x09) || head.contains(0x0a) || head.contains(0x0d) {
            let k = choose|k: int|
                0 <= k < head.len() && (head[k] == 0x09 || head[k] == 0x0a || head[k] == 0x0d);
            if k >= 7 {
                assert(head[k] == p[k - 7]);
            }
        }
    }
    lemma_no_tabs_identity(head);
    lemma_no_tabs_concat(head, suffix);
    let s2 = without_tabs_and_newlines(suffix);
    if suffix.len() > 0 {
        let first = seq![suffix[0]];
        assert(first + suffix.drop_first() =~= suffix);
        lemma_no_tabs_concat(first, suffix.drop_first());
        assert(first.drop_last() =~= Seq::<u8>::empty());
        assert(without_tabs_and_newlines(Seq::<u8>::empty()) =~= Seq::<u8>::empty());
        assert(first.last() == suffix[0]);
        assert(Seq::<u8>::empty().push(suffix[0]) =~= first);
        assert(without_tabs_and_newlines(first) =~= first);
        assert(s2[0] == suffix[0]);
    }
    let u = head + s2;
    assert(u.subrange(0, 7) =~= file_scheme());
    let rest = u.subrange(7, u.len() as int);
    assert(rest =~= p + s2);
    assert(forall|j: int| 0 <= j < p.len() ==> #[trigger] rest[j] == p[j]);
    assert(forall|j: int| 0 <= j < p.len() ==> rest[j] != 0x3f && rest[j] != 0x23) by {
        assert forall|j: int| 0 <= j < p.len() implies rest[j] != 0x3f && rest[j] != 0x23 by {
            assert(rest[j] == p[j]);
            assert(!p.contains(p[j]) ==> false);
        }
    }
    if s2.len() > 0 {
        lemma_first_at(rest, 0x3f, 0x23, p.len() as int);
        assert(rest.subrange(0, p.len() as int) =~= p);
    } else {
        assert(rest =~= p);
        lemma_first_none(p, 0x3f, 0x23);
    }
    crate::percent::lemma_decoded_prefix(p, p.len() as int);
    assert(p.subrange(0, p.len() as int) =~= p);
    assert(p.subrange(p.len() as int, p.len() as int) =~= Seq::<u8>::empty());
    assert(percent_decoded(p) =~= p);
}

/// A query or fragment behind a URL leaves the path that the Windows
/// rules convert it to alone, where the URL holds no tab, newline, `?` or
/// `#` after its scheme.
proof fn lemma_windows_suffix(url: Seq<u8>, suffix: Seq<u8>)
    requires
        without_tabs_and_newlines(url) == url,
        url.len() > 7,
        before_query(url.subrange(7, url.len() as int)) == url.subrange(7, url.len() as int),
        suffix.len() == 0 || suffix[0] == 0x3f || suffix[0] == 0x23,
    ensures
        windows_path_bytes(url + suffix) == windows_path_bytes(url),
{
    lemma_no_tabs_concat(url, suffix);
    let s2 = without_tabs_and_newlines(suffix);
    if suffix.len() > 0 {
        let first = seq![suffix[0]];
        assert(first + suffix.drop_first() =~= suffix);
        lemma_no_tabs_concat(first, suffix.drop_first());
        assert(first.drop_last() =~= Seq::<u8>::empty());
        assert(without_tabs_and_newlines(Seq::<u8>::empty()) =~= Seq::<u8>::empty());
        assert(first.last() == suffix[0]);
        assert(Seq::<u8>::empty().push(suffix[0]) =~= first);
        assert(without_tabs_and_newlines(first) =~= first);
        assert(s2[0] == suffix[0]);
    }
    let u = url + s2;
    let a = url.subrange(7, url.len() as int);
    assert(u.subrange(0, 7) =~= url.subrange(0, 7));
    assert(u.subrange(7, u.len() as int) =~= a + s2);
    lemma_find_either(a, 0x3f, 0x23, 0);
    if let Some(i) = first_of(a, 0x3f, 0x23) {
        assert(a.subrange(0, i).len() == i);
        assert(false);
    }
    if s2.len() > 0 {
        let x = a + s2;
        assert forall|j: int| 0 <= j < a.len() implies x[j] != 0x3f && x[j] != 0x23 by {
            assert(x[j] == a[j]);
        }
        lemma_first_at(x, 0x3f, 0x23, a.len() as int);
        assert(x.subrange(0, a.len() as int) =~= a);
    } else {
        assert(a + s2 =~= a);
    }
}

/// A drive path keeps the `file:///C:/...` form behind a query or a
/// fragment too: `file:///C:/a/b.ts?v=1` converts back to `C:/a/b.ts`.
pub proof fn law_drive_round_trip_with_suffix(p: Seq<u8>, suffix: Seq<u8>)
    requires
        plain_drive_path(p),
        suffix.len() == 0 || suffix[0] == 0x3f || suffix[0] == 0x23,
    ensures
        windows_path_bytes(windows_url_bytes(p) + suffix) == Some(replaced(p, 0x5c, 0x2f)),
{
    lemma_drive_url_form(p);
    lemma_drive_url_plain(p);
    lemma_windows_suffix(windows_url_bytes(p), suffix);
    law_drive_round_trip(p);
}

/// A UNC path round trips through the URL authority behind a query or a
/// fragment too: `file://server/share/a.ts#x` converts back to
/// `\\server\share\a.ts`.
pub proof fn law_unc_round_trip_with_suffix(host: Seq<u8>, rest: Seq<u8>, suffix: Seq<u8>)
    requires
        plain_server(host),
        plain_unc_rest(rest),
        suffix.len() == 0 || suffix[0] == 0x3f || suffix[0] == 0x23,
    ensures
        windows_path_bytes(windows_url_bytes(unc_path(host, rest)) + suffix) == Some(
            unc_path(host, rest),
        ),
{
    let e = percent_encoded(replaced(rest, 0x5c, 0x2f), seq![0x2fu8]);
    lemma_unc_url_form(host, rest);
    lemma_encoded_path_decodes(rest);
    lemma_unc_url_plain(host, e);
    lemma_windows_suffix(windows_url_bytes(unc_path(host, rest)), suffix);
    law_unc_round_trip(host, rest);
}

} // verus!
