//! Conversions between `file:` URLs and filesystem paths.
//!
//! The Windows rules: a UNC path round trips through the URL authority
//! (`\\server\share\a.ts` and `file://server/share/a.ts`), while a
//! drive-letter path keeps the `file:///C:/...` form. The plain rules used
//! elsewhere only add or strip `file://`.

use vstd::prelude::*;
use vstd::utf8::*;
use vstd::string::StringSliceAdditionalSpecFns;
use crate::text::{
    text_from_utf8, all_ascii, lemma_ascii_valid, lemma_ascii_cut_subrange_valid,
    lemma_replaced_valid, lemma_valid_concat, is_alpha, is_alpha_byte, eq_ignore_case,
    eq_ignore_ascii_case, first_of, find_either_byte, replaced, replace_byte,
    without_tabs_and_newlines, strip_tabs_and_newlines, starts_with, has_prefix,
};
use crate::percent::{percent_decoded, percent_decode, percent_encoded, percent_encode, lemma_encoded_ascii};
use crate::host::{
    forbidden_escape_in, forbidden_char_in, has_forbidden_host_escape, has_forbidden_host_char,
    canonical_host, canonicalize_host, is_bracketed, bracket_inner, before_first, encoded_host,
    encode_host,
};
use crate::ipv4::{Ipv4Authority, ipv4_authority, parse_ipv4_authority, dotted_quad, format_ipv4};
use crate::ipv6::{ipv6_parse, parse_ipv6, ipv6_text, format_ipv6, lemma_ipv6_text_ascii};
use crate::url_path::{decoded_path, decode_path_string};

verus! {

broadcast use {vstd::seq::group_seq_axioms, vstd::seq_lib::group_seq_properties};

/// `file://`.
pub open spec fn file_scheme() -> Seq<u8> {
    seq![0x66u8, 0x69u8, 0x6cu8, 0x65u8, 0x3au8, 0x2fu8, 0x2fu8]
}

/// `localhost`.
pub open spec fn localhost() -> Seq<u8> {
    seq![0x6cu8, 0x6fu8, 0x63u8, 0x61u8, 0x6cu8, 0x68u8, 0x6fu8, 0x73u8, 0x74u8]
}

/// The part of a URL before its query or fragment.
pub open spec fn before_query(s: Seq<u8>) -> Seq<u8> {
    match first_of(s, 0x3f, 0x23) {
        Some(i) => s.subrange(0, i),
        None => s,
    }
}

/// A drive letter right after `file://` (`C:` or `c|`), followed by a
/// separator or nothing.
pub open spec fn is_drive_authority(b: Seq<u8>) -> bool {
    &&& b.len() >= 2
    &&& is_alpha(b[0])
    &&& (b[1] == 0x3a || b[1] == 0x7c)
    &&& (b.len() == 2 || b[2] == 0x2f || b[2] == 0x5c)
}

/// The authority of a UNC-form URL (up to the first `/` or `\`) and the
/// path after that separator.
pub open spec fn authority_and_path(rest: Seq<u8>) -> (Seq<u8>, Seq<u8>) {
    match first_of(rest, 0x2f, 0x5c) {
        Some(i) => (rest.subrange(0, i), rest.subrange(i + 1, rest.len() as int)),
        None => (rest, seq![]),
    }
}

/// An IPv4 authority in dotted-quad form; `None` when the authority ends in
/// a number but is not a valid address.
pub open spec fn host_after_ipv4(host: Seq<u8>) -> Option<Seq<u8>> {
    match ipv4_authority(host) {
        Ipv4Authority::Address(a) => Some(dotted_quad(a)),
        Ipv4Authority::Invalid => None,
        Ipv4Authority::NotIpv4 => Some(host),
    }
}

/// A bracketed IPv6 authority in canonical form, its `%` zone kept; any
/// other authority unchanged.
pub open spec fn host_after_ipv6(host: Seq<u8>) -> Seq<u8> {
    if is_bracketed(host) {
        let inner = bracket_inner(host);
        let address = before_first(inner, 0x25);
        match ipv6_parse(address) {
            Some(groups) => match first_of(inner, 0x25, 0x25) {
                Some(i) => seq![0x5bu8] + ipv6_text(groups) + seq![0x25u8] + inner.subrange(
                    i + 1,
                    inner.len() as int,
                ) + seq![0x5du8],
                None => seq![0x5bu8] + ipv6_text(groups) + seq![0x5du8],
            },
            None => host,
        }
    } else {
        host
    }
}

/// The path of a `file://localhost/` URL: a drive path, with a raw `c|`
/// spelling folded to `c:` before decoding; anything that does not decode
/// to a drive path is rejected.
pub open spec fn localhost_path(path: Seq<u8>) -> Option<Seq<u8>> {
    let raw = if path.len() >= 2 && is_alpha(path[0]) && path[1] == 0x7c && (path.len() == 2
        || path[2] == 0x2f || path[2] == 0x5c) {
        seq![path[0], 0x3au8] + path.subrange(2, path.len() as int)
    } else {
        path
    };
    match decoded_path(raw) {
        Some(d) => if d.len() >= 2 && is_alpha(d[0]) && d[1] == 0x3a {
            Some(d)
        } else {
            None
        },
        None => None,
    }
}

/// The path that `file:` URL text denotes on Windows, as bytes; `None` for
/// anything that is not a `file:` URL or that the URL parser or
/// `fileURLToPath` rejects.
///
/// Tabs and newlines are removed first and the scheme is matched in any
/// case; the query and fragment are dropped. A drive letter right after
/// `file://`, or a path after `file:///`, is a drive path. Otherwise the
/// text up to the first separator is a UNC server: it is checked for
/// forbidden characters and escapes, percent-decoded, canonicalized per
/// UTS #46, checked again, and read as IPv4 and IPv6 where it is one;
/// `localhost` names the local drive form, and any other server gives
/// `\\server\` followed by the decoded path with `\` separators.
pub open spec fn windows_path_bytes(url: Seq<u8>) -> Option<Seq<u8>> {
    let u = without_tabs_and_newlines(url);
    if !(u.len() >= 7 && eq_ignore_case(u.subrange(0, 7), file_scheme())) {
        None
    } else if u.len() == 7 {
        None
    } else {
        let rest = before_query(u.subrange(7, u.len() as int));
        if is_drive_authority(rest) {
            decoded_path(seq![rest[0], 0x3au8] + rest.subrange(2, rest.len() as int))
        } else if rest.len() > 0 && rest[0] == 0x2f {
            decoded_path(rest.subrange(1, rest.len() as int))
        } else {
            unc_path_bytes(rest)
        }
    }
}

/// The UNC server an authority names: rejected when it holds a forbidden
/// character or escape, then percent-decoded (as UTF-8), canonicalized per
/// UTS #46, checked again, and written in canonical form when it is an IPv4
/// or bracketed IPv6 address.
#[verifier::opaque]
pub open spec fn server_host(raw_host: Seq<u8>) -> Option<Seq<u8>> {
    if forbidden_escape_in(raw_host) || forbidden_char_in(raw_host, true) {
        None
    } else if !valid_utf8(percent_decoded(raw_host)) {
        None
    } else {
        match canonical_host(percent_decoded(raw_host)) {
            None => None,
            Some(mapped) => if forbidden_char_in(mapped, false) {
                None
            } else {
                match host_after_ipv4(mapped) {
                    None => None,
                    Some(h) => Some(host_after_ipv6(h)),
                }
            },
        }
    }
}

/// The path of a UNC-form URL (what follows `file://`, query dropped):
/// `localhost` names the local drive form, any other server gives
/// `\\server\` and the decoded path with `\` separators.
pub open spec fn unc_path_bytes(rest: Seq<u8>) -> Option<Seq<u8>> {
    let (raw_host, path) = authority_and_path(rest);
    match server_host(raw_host) {
        None => None,
        Some(host) => if eq_ignore_case(host, localhost()) {
            localhost_path(path)
        } else {
            match decoded_path(path) {
                Some(p) => Some(seq![0x5cu8, 0x5cu8] + host + seq![0x5cu8] + replaced(p, 0x2f, 0x5c)),
                None => None,
            }
        },
    }
}

fn bracket_ipv6(host: &[u8]) -> (res: Vec<u8>)
    ensures
        res@ == host_after_ipv6(host@),
{
    let len = host.len();
    if !(len > 2 && host[0] == 0x5b && host[len - 1] == 0x5d) {
        let mut out: Vec<u8> = Vec::new();
        out.extend_from_slice(host);
        return out;
    }
    let inner = &host[1..len - 1];
    let zone_at = find_either_byte(inner, 0x25, 0x25);
    let address: &[u8] = match zone_at {
        Some(i) => &inner[0..i],
        None => inner,
    };
    match parse_ipv6(address) {
        Some(groups) => {
            let mut out: Vec<u8> = Vec::new();
            out.push(0x5b);
            let text = format_ipv6(&groups);
            out.extend_from_slice(text.as_slice());
            match zone_at {
                Some(i) => {
                    out.push(0x25);
                    out.extend_from_slice(&inner[i + 1..inner.len()]);
                },
                None => {},
            }
            out.push(0x5d);
            out
        },
        None => {
            let mut out: Vec<u8> = Vec::new();
            out.extend_from_slice(host);
            out
        },
    }
}

fn localhost_drive_path(path: &[u8]) -> (res: Option<String>)
    ensures
        match localhost_path(path@) {
            Some(d) => res matches Some(text) && text@ == decode_utf8(d),
            None => res is None,
        },
{
    let len = path.len();
    let ghost raw_spec = if path@.len() >= 2 && is_alpha(path@[0]) && path@[1] == 0x7c && (
    path@.len() == 2 || path@[2] == 0x2f || path@[2] == 0x5c) {
        seq![path@[0], 0x3au8] + path@.subrange(2, path@.len() as int)
    } else {
        path@
    };
    let decoded = if len >= 2 && is_alpha_byte(path[0]) && path[1] == 0x7c && (len == 2 || path[2]
        == 0x2f || path[2] == 0x5c) {
        let mut raw: Vec<u8> = Vec::new();
        raw.push(path[0]);
        raw.push(0x3a);
        raw.extend_from_slice(&path[2..len]);
        assert(raw@ =~= seq![path@[0], 0x3au8] + path@.subrange(2, len as int));
        decode_path_string(raw.as_slice())
    } else {
        decode_path_string(path)
    };
    let text = match decoded {
        Some(text) => text,
        None => return None,
    };
    proof {
        let d = decoded_path(raw_spec)->0;
        decode_utf8_encode_utf8(d);
    }
    let bytes = text.as_str().as_bytes();
    if bytes.len() < 2 || !is_alpha_byte(bytes[0]) || bytes[1] != 0x3a {
        return None;
    }
    Some(text)
}

/// Converts a `file://` URL into a filesystem path the way `fileURLToPath`
/// does on Windows: `file:///C:/...` keeps the drive form, and
/// `file://server/share/...` maps its authority back to a leading
/// `\\server\`. Returns `None` for non-`file:` URLs and for whatever the
/// URL parser or `fileURLToPath` rejects.
pub fn url_to_path(url: &str) -> (res: Option<String>)
    ensures
        match windows_path_bytes(url.spec_bytes()) {
            Some(b) => res matches Some(path) && path@ == decode_utf8(b),
            None => res is None,
        },
{
    proof {
        lemma_windows_path_valid(url.spec_bytes());
    }
    let u = strip_tabs_and_newlines(url.as_bytes());
    let len = u.len();
    let scheme: [u8; 7] = [0x66, 0x69, 0x6c, 0x65, 0x3a, 0x2f, 0x2f];
    assert(scheme@ =~= file_scheme());
    if !(len >= 7 && eq_ignore_ascii_case(&u.as_slice()[0..7], &scheme)) {
        return None;
    }
    if len == 7 {
        return None;
    }
    let after = &u.as_slice()[7..len];
    let rest: &[u8] = match find_either_byte(after, 0x3f, 0x23) {
        Some(i) => &after[0..i],
        None => after,
    };
    assert(rest@ == before_query(u@.subrange(7, len as int)));
    let rlen = rest.len();
    if rlen >= 2 && is_alpha_byte(rest[0]) && (rest[1] == 0x3a || rest[1] == 0x7c) && (rlen == 2
        || rest[2] == 0x2f || rest[2] == 0x5c) {
        let mut path: Vec<u8> = Vec::new();
        path.push(rest[0]);
        path.push(0x3a);
        path.extend_from_slice(&rest[2..rlen]);
        assert(path@ =~= seq![rest@[0], 0x3au8] + rest@.subrange(2, rlen as int));
        let res = decode_path_string(path.as_slice());
        proof {
            if let Some(d) = decoded_path(path@) {
                assert(valid_utf8(d));
            }
        }
        return res;
    }
    if rlen > 0 && rest[0] == 0x2f {
        let res = decode_path_string(&rest[1..rlen]);
        proof {
            if let Some(d) = decoded_path(rest@.subrange(1, rlen as int)) {
                assert(valid_utf8(d));
            }
        }
        return res;
    }
    unc_url_to_path(rest)
}

fn server_name(raw_host: &[u8]) -> (res: Option<Vec<u8>>)
    ensures
        match server_host(raw_host@) {
            Some(h) => res matches Some(r) && r@ == h,
            None => res is None,
        },
{
    reveal(server_host);
    if has_forbidden_host_escape(raw_host) || has_forbidden_host_char(raw_host, true) {
        return None;
    }
    let decoded_host = match percent_decode(raw_host) {
        Some(text) => text,
        None => return None,
    };
    proof {
        decode_utf8_encode_utf8(percent_decoded(raw_host@));
    }
    let mapped = match canonicalize_host(decoded_host.as_str().as_bytes()) {
        Some(mapped) => mapped,
        None => return None,
    };
    if has_forbidden_host_char(mapped.as_slice(), false) {
        return None;
    }
    let h = match parse_ipv4_authority(mapped.as_slice()) {
        Ipv4Authority::Address(a) => format_ipv4(a),
        Ipv4Authority::Invalid => return None,
        Ipv4Authority::NotIpv4 => mapped,
    };
    Some(bracket_ipv6(h.as_slice()))
}

fn unc_url_to_path(rest: &[u8]) -> (res: Option<String>)
    ensures
        match unc_path_bytes(rest@) {
            Some(b) => res matches Some(path) && path@ == decode_utf8(b),
            None => res is None,
        },
{
    proof {
        lemma_unc_path_valid(rest@);
    }
    let rlen = rest.len();
    let (raw_host, path): (&[u8], &[u8]) = match find_either_byte(rest, 0x2f, 0x5c) {
        Some(i) => (&rest[0..i], &rest[i + 1..rlen]),
        None => (rest, &rest[rlen..rlen]),
    };
    assert(path@ =~= authority_and_path(rest@).1);
    let host = match server_name(raw_host) {
        Some(host) => host,
        None => return None,
    };
    let name: [u8; 9] = [0x6c, 0x6f, 0x63, 0x61, 0x6c, 0x68, 0x6f, 0x73, 0x74];
    assert(name@ =~= localhost());
    if eq_ignore_ascii_case(host.as_slice(), &name) {
        let res = localhost_drive_path(path);
        proof {
            if let Some(d) = localhost_path(path@) {
                assert(valid_utf8(d));
            }
        }
        return res;
    }
    let decoded_path_text = match decode_path_string(path) {
        Some(text) => text,
        None => return None,
    };
    proof {
        decode_utf8_encode_utf8(decoded_path(path@)->0);
    }
    let separated = replace_byte(decoded_path_text.as_str().as_bytes(), 0x2f, 0x5c);
    let mut out: Vec<u8> = Vec::new();
    out.push(0x5c);
    out.push(0x5c);
    out.extend_from_slice(host.as_slice());
    out.push(0x5c);
    out.extend_from_slice(separated.as_slice());
    proof {
        assert(out@ =~= seq![0x5cu8, 0x5cu8] + host@ + seq![0x5cu8] + separated@);
    }
    text_from_utf8(out.as_slice())
}


/// `\\?\UNC\`.
pub open spec fn verbatim_unc_prefix() -> Seq<u8> {
    seq![0x5cu8, 0x5cu8, 0x3fu8, 0x5cu8, 0x55u8, 0x4eu8, 0x43u8, 0x5cu8]
}

/// `\\?\`.
pub open spec fn verbatim_prefix() -> Seq<u8> {
    seq![0x5cu8, 0x5cu8, 0x3fu8, 0x5cu8]
}

/// The URL of a UNC path whose leading `\\` is already removed: the server
/// becomes the percent-encoded authority, and the rest is percent-encoded
/// with `/` separators kept.
pub open spec fn unc_url_bytes(stripped: Seq<u8>) -> Seq<u8> {
    let (host, rest) = authority_and_path(stripped);
    file_scheme() + encoded_host(host) + seq![0x2fu8] + percent_encoded(
        replaced(rest, 0x5c, 0x2f),
        seq![0x2fu8],
    )
}

/// The `pathToFileURL` mapping on Windows: the extended-length prefix is
/// ignored, a `\\` or `//` prefix makes the first component the UNC
/// authority, and anything else becomes `file:///` followed by the path
/// with `/` separators.
pub open spec fn windows_url_bytes(path: Seq<u8>) -> Seq<u8> {
    if starts_with(path, verbatim_unc_prefix()) {
        unc_url_bytes(path.subrange(8, path.len() as int))
    } else {
        let p = if starts_with(path, verbatim_prefix()) {
            path.subrange(4, path.len() as int)
        } else {
            path
        };
        if starts_with(p, seq![0x5cu8, 0x5cu8]) || starts_with(p, seq![0x2fu8, 0x2fu8]) {
            unc_url_bytes(p.subrange(2, p.len() as int))
        } else {
            file_scheme() + seq![0x2fu8] + replaced(p, 0x5c, 0x2f)
        }
    }
}

/// A UNC URL of valid UTF-8 is valid UTF-8.
proof fn lemma_unc_url_valid(stripped: Seq<u8>)
    requires
        valid_utf8(stripped),
    ensures
        valid_utf8(unc_url_bytes(stripped)),
{
    let (host, rest) = authority_and_path(stripped);
    crate::text::lemma_find_either(stripped, 0x2f, 0x5c, 0);
    let slash = seq![0x2fu8];
    assert(slash[0] < 0x80);
    lemma_encoded_ascii(replaced(rest, 0x5c, 0x2f), slash);
    lemma_ascii_valid(percent_encoded(replaced(rest, 0x5c, 0x2f), slash));
    let scheme = file_scheme();
    assert(all_ascii(scheme));
    lemma_ascii_valid(scheme);
    assert(all_ascii(slash));
    lemma_ascii_valid(slash);
    match first_of(stripped, 0x2f, 0x5c) {
        Some(i) => {
            lemma_ascii_cut_subrange_valid(stripped, 0, i);
        },
        None => {
            assert(host == stripped);
        },
    }
    assert(valid_utf8(host));
    if is_bracketed(host) {
        match ipv6_parse(bracket_inner(host)) {
            Some(groups) => {
                lemma_ipv6_text_ascii(groups);
                let e = seq![0x5bu8] + ipv6_text(groups) + seq![0x5du8];
                assert(all_ascii(e));
                lemma_ascii_valid(e);
            },
            None => {},
        }
    } else {
        lemma_encoded_ascii(host, seq![]);
        lemma_ascii_valid(percent_encoded(host, seq![]));
    }
    lemma_valid_concat(scheme, encoded_host(host));
    lemma_valid_concat(scheme + encoded_host(host), slash);
    lemma_valid_concat(
        scheme + encoded_host(host) + slash,
        percent_encoded(replaced(rest, 0x5c, 0x2f), slash),
    );
}

/// The URL of a valid UTF-8 path is valid UTF-8.
pub proof fn lemma_windows_url_valid(path: Seq<u8>)
    requires
        valid_utf8(path),
    ensures
        valid_utf8(windows_url_bytes(path)),
{
    if starts_with(path, verbatim_unc_prefix()) {
        assert(path[7] == 0x5c);
        lemma_ascii_cut_subrange_valid(path, 8, path.len() as int);
        lemma_unc_url_valid(path.subrange(8, path.len() as int));
    } else {
        let p = if starts_with(path, verbatim_prefix()) {
            assert(path[3] == 0x5c);
            lemma_ascii_cut_subrange_valid(path, 4, path.len() as int);
            path.subrange(4, path.len() as int)
        } else {
            assert(path.subrange(0, path.len() as int) =~= path);
            path
        };
        assert(valid_utf8(p));
        if starts_with(p, seq![0x5cu8, 0x5cu8]) || starts_with(p, seq![0x2fu8, 0x2fu8]) {
            assert(p[1] == 0x5c || p[1] == 0x2f);
            lemma_ascii_cut_subrange_valid(p, 2, p.len() as int);
            lemma_unc_url_valid(p.subrange(2, p.len() as int));
        } else {
            let head = file_scheme() + seq![0x2fu8];
            assert(all_ascii(head));
            lemma_ascii_valid(head);
            lemma_replaced_valid(p, 0x5c, 0x2f);
            lemma_valid_concat(head, replaced(p, 0x5c, 0x2f));
        }
    }
}

fn unc_url(stripped: &[u8]) -> (res: Vec<u8>)
    ensures
        res@ == unc_url_bytes(stripped@),
{
    let len = stripped.len();
    let (host, rest): (&[u8], &[u8]) = match find_either_byte(stripped, 0x2f, 0x5c) {
        Some(i) => (&stripped[0..i], &stripped[i + 1..len]),
        None => (stripped, &stripped[len..len]),
    };
    assert(rest@ =~= authority_and_path(stripped@).1);
    let slashed = replace_byte(rest, 0x5c, 0x2f);
    let keep: [u8; 1] = [0x2f];
    assert(keep@ =~= seq![0x2fu8]);
    let encoded_rest = percent_encode(slashed.as_slice(), &keep);
    let mut out: Vec<u8> = Vec::new();
    let scheme: [u8; 7] = [0x66, 0x69, 0x6c, 0x65, 0x3a, 0x2f, 0x2f];
    out.extend_from_slice(&scheme);
    let encoded = encode_host(host);
    out.extend_from_slice(encoded.as_slice());
    out.push(0x2f);
    out.extend_from_slice(encoded_rest.as_slice());
    assert(out@ =~= unc_url_bytes(stripped@));
    out
}

fn windows_url(bytes: &[u8]) -> (res: Vec<u8>)
    ensures
        res@ == windows_url_bytes(bytes@),
{
    let len = bytes.len();
    let unc_verbatim: [u8; 8] = [0x5c, 0x5c, 0x3f, 0x5c, 0x55, 0x4e, 0x43, 0x5c];
    assert(unc_verbatim@ =~= verbatim_unc_prefix());
    let verbatim: [u8; 4] = [0x5c, 0x5c, 0x3f, 0x5c];
    assert(verbatim@ =~= verbatim_prefix());
    let out = if has_prefix(bytes, &unc_verbatim) {
        unc_url(&bytes[8..len])
    } else {
        let p: &[u8] = if has_prefix(bytes, &verbatim) {
            &bytes[4..len]
        } else {
            bytes
        };
        let plen = p.len();
        let backslashes: [u8; 2] = [0x5c, 0x5c];
        let slashes: [u8; 2] = [0x2f, 0x2f];
        assert(backslashes@ =~= seq![0x5cu8, 0x5cu8]);
        assert(slashes@ =~= seq![0x2fu8, 0x2fu8]);
        if has_prefix(p, &backslashes) || has_prefix(p, &slashes) {
            unc_url(&p[2..plen])
        } else {
            let mut out: Vec<u8> = Vec::new();
            let head: [u8; 8] = [0x66, 0x69, 0x6c, 0x65, 0x3a, 0x2f, 0x2f, 0x2f];
            out.extend_from_slice(&head);
            let slashed = replace_byte(p, 0x5c, 0x2f);
            out.extend_from_slice(slashed.as_slice());
            assert(out@ =~= file_scheme() + seq![0x2fu8] + replaced(p@, 0x5c, 0x2f));
            out
        }
    };
    out
}

/// The `pathToFileURL` mapping on Windows: a `\\` or `//` prefix makes the
/// first component the UNC authority (percent-encoded), the extended-length
/// prefix `\\?\` is ignored, and everything else keeps the
/// `file:///<drive>:/...` form.
pub fn path_to_url(path: &str) -> (res: String)
    ensures
        res@ == decode_utf8(windows_url_bytes(path.spec_bytes())),
{
    let bytes = path.as_bytes();
    proof {
        encode_utf8_valid_utf8(path@);
        lemma_windows_url_valid(bytes@);
    }
    let out = windows_url(bytes);
    match text_from_utf8(out.as_slice()) {
        Some(text) => text,
        None => {
            proof {
                assert(false);
            }
            String::new()
        },
    }
}

/// The path of a `file://` URL with the plain rules: tabs and newlines
/// removed, `file://` (in this case) stripped, the query and fragment
/// dropped, and the rest percent-decoded as UTF-8.
pub open spec fn plain_path_bytes(url: Seq<u8>) -> Option<Seq<u8>> {
    let u = without_tabs_and_newlines(url);
    if starts_with(u, file_scheme()) {
        let d = percent_decoded(before_query(u.subrange(7, u.len() as int)));
        if valid_utf8(d) {
            Some(d)
        } else {
            None
        }
    } else {
        None
    }
}

/// Converts a `file://` URL into a filesystem path: the scheme is
/// stripped, the query and fragment are dropped, and escapes such as
/// `%20` are decoded. `None` when `url` is not a `file://` URL or its
/// escapes do not decode to valid UTF-8.
pub fn file_url_to_path(url: &str) -> (res: Option<String>)
    ensures
        match plain_path_bytes(url.spec_bytes()) {
            Some(d) => res matches Some(path) && path@ == decode_utf8(d),
            None => res is None,
        },
{
    let u = strip_tabs_and_newlines(url.as_bytes());
    let scheme: [u8; 7] = [0x66, 0x69, 0x6c, 0x65, 0x3a, 0x2f, 0x2f];
    assert(scheme@ =~= file_scheme());
    if !has_prefix(u.as_slice(), &scheme) {
        return None;
    }
    let len = u.len();
    let after = &u.as_slice()[7..len];
    let rest: &[u8] = match find_either_byte(after, 0x3f, 0x23) {
        Some(i) => &after[0..i],
        None => after,
    };
    percent_decode(rest)
}

/// Generates a `file:` URL from an absolute path by prefixing `file://`.
pub fn path_to_file_url(path: &str) -> (res: String)
    ensures
        res@ == seq!['f', 'i', 'l', 'e', ':', '/', '/'] + path@,
{
    let mut out: Vec<u8> = Vec::new();
    let scheme: [u8; 7] = [0x66, 0x69, 0x6c, 0x65, 0x3a, 0x2f, 0x2f];
    out.extend_from_slice(&scheme);
    out.extend_from_slice(path.as_bytes());
    let ghost prefix = seq!['f', 'i', 'l', 'e', ':', '/', '/'];
    proof {
        assert(is_ascii_chars(prefix));
        is_ascii_chars_encode_utf8(prefix);
        assert(encode_utf8(prefix) =~= scheme@);
        crate::text::lemma_encode_concat(prefix, path@);
        encode_utf8_valid_utf8(prefix + path@);
        encode_utf8_decode_utf8(prefix + path@);
        assert(out@ =~= scheme@ + path.spec_bytes());
    }
    match text_from_utf8(out.as_slice()) {
        Some(text) => text,
        None => {
            proof {
                assert(false);
            }
            String::new()
        },
    }
}


proof fn lemma_decimal_ascii(n: nat)
    ensures
        all_ascii(crate::ipv4::decimal(n)),
    decreases n,
{
    if n >= 10 {
        lemma_decimal_ascii(n / 10);
    }
}

proof fn lemma_canonical_labels_valid(labels: Seq<Seq<u8>>)
    ensures
        crate::host::canonical_labels(labels) matches Some(c) ==> valid_utf8(c),
    decreases labels.len(),
{
    if labels.len() == 1 {
        lemma_canonical_label_valid(labels[0]);
    } else if labels.len() > 1 {
        lemma_canonical_labels_valid(labels.drop_last());
        lemma_canonical_label_valid(labels.last());
        if let Some(c) = crate::host::canonical_labels(labels) {
            let init = crate::host::canonical_labels(labels.drop_last())->0;
            let last = crate::host::canonical_label(labels.last())->0;
            let dot = seq![0x2eu8];
            assert(all_ascii(dot));
            lemma_ascii_valid(dot);
            lemma_valid_concat(init, dot);
            lemma_valid_concat(init + dot, last);
        }
    }
}

proof fn lemma_canonical_label_valid(label: Seq<u8>)
    ensures
        crate::host::canonical_label(label) matches Some(c) ==> valid_utf8(c),
{
    if label.len() > 0 && valid_utf8(label) {
        if let Some(ascii) = crate::host::domain_to_ascii_result(decode_utf8(label)) {
            encode_utf8_valid_utf8(crate::host::domain_to_unicode_text(ascii));
        }
    }
}

/// A server name that is accepted is valid UTF-8.
proof fn lemma_server_host_valid(raw_host: Seq<u8>)
    ensures
        server_host(raw_host) matches Some(h) ==> valid_utf8(h),
{
    reveal(server_host);
    if let Some(host) = server_host(raw_host) {
        let mapped = canonical_host(percent_decoded(raw_host))->0;
        lemma_canonical_labels_valid(crate::text::split_on(percent_decoded(raw_host), 0x2e));
        assert(valid_utf8(mapped));
        let h = host_after_ipv4(mapped)->0;
        match ipv4_authority(mapped) {
            Ipv4Authority::Address(a) => {
                let d = dotted_quad(a);
                lemma_decimal_ascii((a / 16777216) as nat);
                lemma_decimal_ascii(((a / 65536) % 256) as nat);
                lemma_decimal_ascii(((a / 256) % 256) as nat);
                lemma_decimal_ascii((a % 256) as nat);
                assert(all_ascii(d));
                lemma_ascii_valid(d);
            },
            _ => {},
        }
        assert(valid_utf8(h));
        lemma_host_after_ipv6_valid(h);
    }
}

proof fn lemma_host_after_ipv6_valid(h: Seq<u8>)
    requires
        valid_utf8(h),
    ensures
        valid_utf8(host_after_ipv6(h)),
{
    if is_bracketed(h) {
        let inner = bracket_inner(h);
        let address = before_first(inner, 0x25);
        if let Some(groups) = ipv6_parse(address) {
            lemma_ipv6_text_ascii(groups);
            let open = seq![0x5bu8] + ipv6_text(groups);
            assert(all_ascii(open));
            lemma_ascii_valid(open);
            let close = seq![0x5du8];
            assert(all_ascii(close));
            lemma_ascii_valid(close);
            match first_of(inner, 0x25, 0x25) {
                Some(i) => {
                    crate::text::lemma_find_either(inner, 0x25, 0x25, 0);
                    let pct = seq![0x25u8];
                    assert(all_ascii(pct));
                    lemma_ascii_valid(pct);
                    assert(h[i + 1] == inner[i]);
                    lemma_ascii_cut_subrange_valid(h, i + 2, h.len() - 1);
                    let zone = inner.subrange(i + 1, inner.len() as int);
                    assert(zone =~= h.subrange(i + 2, h.len() - 1));
                    lemma_valid_concat(open, pct);
                    lemma_valid_concat(open + pct, zone);
                    lemma_valid_concat(open + pct + zone, close);
                },
                None => {
                    lemma_valid_concat(open, close);
                },
            }
        }
    }
}

/// Every path that a `file:` URL is converted to is valid UTF-8.
pub proof fn lemma_windows_path_valid(url: Seq<u8>)
    ensures
        windows_path_bytes(url) matches Some(b) ==> valid_utf8(b),
{
    let u = without_tabs_and_newlines(url);
    if u.len() > 7 && eq_ignore_case(u.subrange(0, 7), file_scheme()) {
        let rest = before_query(u.subrange(7, u.len() as int));
        if !is_drive_authority(rest) && !(rest.len() > 0 && rest[0] == 0x2f) {
            lemma_unc_path_valid(rest);
        }
    }
}

proof fn lemma_unc_path_valid(rest: Seq<u8>)
    ensures
        unc_path_bytes(rest) matches Some(b) ==> valid_utf8(b),
{
    let (raw_host, path) = authority_and_path(rest);
    lemma_server_host_valid(raw_host);
    if let Some(host) = server_host(raw_host) {
        if !eq_ignore_case(host, localhost()) {
            if let Some(p) = decoded_path(path) {
                let lead = seq![0x5cu8, 0x5cu8];
                let sep = seq![0x5cu8];
                assert(all_ascii(lead));
                assert(all_ascii(sep));
                lemma_ascii_valid(lead);
                lemma_ascii_valid(sep);
                lemma_replaced_valid(p, 0x2f, 0x5c);
                lemma_valid_concat(lead, host);
                lemma_valid_concat(lead + host, sep);
                lemma_valid_concat(lead + host + sep, replaced(p, 0x2f, 0x5c));
            }
        }
    }
}

} // verus!
