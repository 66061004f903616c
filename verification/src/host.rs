//! Authorities of `file:` URLs: the characters a special-scheme host may
//! not hold, UTS #46 canonicalization through `idna`, and the encoding of a
//! UNC server name for a URL.

use vstd::prelude::*;
use vstd::utf8::*;
use crate::text::{
    text_from_utf8, split_on, split_bytes, lemma_split_nonempty, first_of, find_either_byte,
    eq_ignore_case, eq_ignore_ascii_case,
};
use crate::percent::{escape_at, hex_byte, percent_encoded, percent_encode};
use crate::ipv6::{ipv6_parse, parse_ipv6, ipv6_text, format_ipv6};

verus! {

broadcast use {vstd::seq::group_seq_axioms, vstd::seq_lib::group_seq_properties};

/// The bytes the URL parser forbids in a `file:` authority: controls,
/// space, `#` `%` `/` `:` `<` `>` `?` `@` `[` `\` `]` `^` `|` DEL. A `"` is
/// accepted.
pub open spec fn is_forbidden_host_byte(b: u8) -> bool {
    ||| b <= 0x20
    ||| b == 0x23
    ||| b == 0x25
    ||| b == 0x2f
    ||| b == 0x3a
    ||| b == 0x3c
    ||| b == 0x3e
    ||| b == 0x3f
    ||| b == 0x40
    ||| (0x5b <= b <= 0x5d)
    ||| b == 0x5e
    ||| b == 0x7c
    ||| b == 0x7f
}

pub fn forbidden_host_byte(b: u8) -> (res: bool)
    ensures
        res == is_forbidden_host_byte(b),
{
    b <= 0x20 || b == 0x23 || b == 0x25 || b == 0x2f || b == 0x3a || b == 0x3c || b == 0x3e || b
        == 0x3f || b == 0x40 || (0x5b <= b && b <= 0x5d) || b == 0x5e || b == 0x7c || b == 0x7f
}

/// Some `%` of the authority is not a valid escape, or is one that decodes
/// to a forbidden host byte.
pub open spec fn forbidden_escape_in(host: Seq<u8>) -> bool {
    exists|i: int|
        0 <= i < host.len() && host[i] == 0x25 && (escape_at(host, i) is None
            || is_forbidden_host_byte(escape_at(host, i)->0))
}

/// True when an authority escape is malformed or decodes to a byte the URL
/// parser forbids in a special-scheme host.
pub fn has_forbidden_host_escape(host: &[u8]) -> (res: bool)
    ensures
        res == forbidden_escape_in(host@),
{
    let mut i: usize = 0;
    while i < host.len()
        invariant
            i <= host@.len(),
            forall|j: int|
                0 <= j < i && host@[j] == 0x25 ==> !(escape_at(host@, j) is None
                    || is_forbidden_host_byte(escape_at(host@, j)->0)),
        decreases host@.len() - i,
    {
        if host[i] == 0x25 {
            match hex_byte(host, i) {
                Some(byte) => {
                    if forbidden_host_byte(byte) {
                        return true;
                    }
                },
                None => return true,
            }
        }
        i += 1;
    }
    false
}

/// `[`, something, `]`.
pub open spec fn is_bracketed(host: Seq<u8>) -> bool {
    host.len() > 2 && host[0] == 0x5b && host.last() == 0x5d
}

/// Between the brackets.
pub open spec fn bracket_inner(host: Seq<u8>) -> Seq<u8> {
    host.subrange(1, host.len() - 1)
}

/// The part of `s` before the first `b` (all of it when there is none).
pub open spec fn before_first(s: Seq<u8>, b: u8) -> Seq<u8> {
    match first_of(s, b, b) {
        Some(i) => s.subrange(0, i),
        None => s,
    }
}

/// A bracketed authority whose address (before any `%` zone) is IPv6.
pub open spec fn is_ipv6_literal(host: Seq<u8>) -> bool {
    is_bracketed(host) && ipv6_parse(before_first(bracket_inner(host), 0x25)) is Some
}

/// The authority holds a raw byte the URL parser forbids; bracketed IPv6
/// literals are exempt, and with `escapes_allowed` a `%` is left to the
/// escape check.
pub open spec fn forbidden_char_in(host: Seq<u8>, escapes_allowed: bool) -> bool {
    !is_ipv6_literal(host) && exists|i: int|
        0 <= i < host.len() && !(escapes_allowed && host[i] == 0x25) && is_forbidden_host_byte(
            #[trigger] host[i],
        )
}

fn is_bracketed_host(host: &[u8]) -> (res: bool)
    ensures
        res == is_bracketed(host@),
{
    host.len() > 2 && host[0] == 0x5b && host[host.len() - 1] == 0x5d
}

fn prefix_before(s: &[u8], b: u8) -> (res: &[u8])
    ensures
        res@ == before_first(s@, b),
{
    match find_either_byte(s, b, b) {
        Some(i) => &s[0..i],
        None => s,
    }
}

/// Whether a bracketed authority is an IPv6 literal.
fn ipv6_literal(host: &[u8]) -> (res: bool)
    ensures
        res == is_ipv6_literal(host@),
{
    if !is_bracketed_host(host) {
        return false;
    }
    let inner = &host[1..host.len() - 1];
    parse_ipv6(prefix_before(inner, 0x25)).is_some()
}

/// True when the authority carries a raw character the URL parser forbids
/// in a special-scheme host.
pub fn has_forbidden_host_char(host: &[u8], escapes_allowed: bool) -> (res: bool)
    ensures
        res == forbidden_char_in(host@, escapes_allowed),
{
    if ipv6_literal(host) {
        return false;
    }
    let mut i: usize = 0;
    while i < host.len()
        invariant
            i <= host@.len(),
            !is_ipv6_literal(host@),
            forall|j: int|
                0 <= j < i ==> !(!(escapes_allowed && host@[j] == 0x25) && is_forbidden_host_byte(
                    #[trigger] host@[j],
                )),
        decreases host@.len() - i,
    {
        let b = host[i];
        if !(escapes_allowed && b == 0x25) && forbidden_host_byte(b) {
            assert(is_forbidden_host_byte(host@[i as int]));
            return true;
        }
        i += 1;
    }
    false
}

/// Name for what `idna::domain_to_ascii` returns for a text: the ASCII
/// form when it succeeds, `None` when it reports errors.
pub uninterp spec fn domain_to_ascii_result(domain: Seq<char>) -> Option<Seq<char>>;

/// Name for the text that `idna::domain_to_unicode` returns for a text.
pub uninterp spec fn domain_to_unicode_text(domain: Seq<char>) -> Seq<char>;

/// UTS #46 to-ASCII of a domain through `idna::domain_to_ascii`. The
/// contract only names the result: it is a function of the text alone.
#[verifier::external_body]
fn domain_to_ascii(domain: &str) -> (res: Option<String>)
    ensures
        domain_to_ascii_result(domain@) == match res {
            Some(text) => Some(text@),
            None => None,
        },
{
    match idna::domain_to_ascii(domain) {
        Ok(ascii) => Some(ascii),
        Err(_) => None,
    }
}

/// UTS #46 to-Unicode of a domain through `idna::domain_to_unicode`, of
/// which only the text is kept (its error report is not). The contract only
/// names the result: it is a function of the text alone.
#[verifier::external_body]
fn domain_to_unicode(domain: &str) -> (res: String)
    ensures
        res@ == domain_to_unicode_text(domain@),
{
    idna::domain_to_unicode(domain).0
}

/// The label starts with the `xn--` A-label prefix, in any case.
pub open spec fn is_ace(label: Seq<u8>) -> bool {
    label.len() >= 4 && eq_ignore_case(label.subrange(0, 4), seq![0x78u8, 0x6eu8, 0x2du8, 0x2du8])
}

fn is_ace_label(label: &[u8]) -> (res: bool)
    ensures
        res == is_ace(label@),
{
    let prefix: [u8; 4] = [0x78, 0x6e, 0x2d, 0x2d];
    assert(prefix@ =~= seq![0x78u8, 0x6eu8, 0x2du8, 0x2du8]);
    label.len() >= 4 && eq_ignore_ascii_case(&label[0..4], &prefix)
}

/// One label after UTS #46 canonicalization: an empty label is kept; a
/// label whose to-ASCII form is non-empty becomes the to-Unicode form of
/// it; an `xn--` label that fails to-ASCII is kept literally; any other
/// failure, or an empty mapping, rejects the host.
pub open spec fn canonical_label(label: Seq<u8>) -> Option<Seq<u8>> {
    if label.len() == 0 {
        Some(label)
    } else if !valid_utf8(label) {
        None
    } else {
        match domain_to_ascii_result(decode_utf8(label)) {
            Some(ascii) => if ascii.len() > 0 {
                Some(encode_utf8(domain_to_unicode_text(ascii)))
            } else {
                None
            },
            None => if is_ace(label) {
                Some(label)
            } else {
                None
            },
        }
    }
}

/// The labels canonicalized one by one and joined with dots; `None` when
/// one of them is rejected.
pub open spec fn canonical_labels(labels: Seq<Seq<u8>>) -> Option<Seq<u8>>
    decreases labels.len(),
{
    if labels.len() == 0 {
        Some(seq![])
    } else if labels.len() == 1 {
        canonical_label(labels[0])
    } else {
        match (canonical_labels(labels.drop_last()), canonical_label(labels.last())) {
            (Some(init), Some(last)) => Some(init + seq![0x2eu8] + last),
            _ => None,
        }
    }
}

/// UTS #46 canonicalization of an authority, label by label.
pub open spec fn canonical_host(host: Seq<u8>) -> Option<Seq<u8>> {
    canonical_labels(split_on(host, 0x2e))
}

fn canonicalize_label(label: &[u8]) -> (res: Option<Vec<u8>>)
    ensures
        match canonical_label(label@) {
            Some(c) => res matches Some(r) && r@ == c,
            None => res is None,
        },
{
    if label.len() == 0 {
        return Some(Vec::new());
    }
    let text = match text_from_utf8(label) {
        Some(text) => text,
        None => return None,
    };
    proof {
        decode_utf8_encode_utf8(label@);
    }
    match domain_to_ascii(text.as_str()) {
        Some(ascii) => {
            if ascii.as_str().is_empty() {
                return None;
            }
            let unicode = domain_to_unicode(ascii.as_str());
            let bytes = unicode.as_str().as_bytes();
            let mut out: Vec<u8> = Vec::new();
            out.extend_from_slice(bytes);
            Some(out)
        },
        None => {
            if is_ace_label(label) {
                let mut out: Vec<u8> = Vec::new();
                out.extend_from_slice(label);
                Some(out)
            } else {
                None
            }
        },
    }
}

/// UTS #46 host canonicalization for a UNC authority, label by label:
/// fullwidth and compatibility characters fold to their ASCII forms and
/// valid `xn--` labels decode to Unicode; undecodable `xn--` labels keep
/// their spelling, and any other failing label rejects the host.
pub fn canonicalize_host(host: &[u8]) -> (res: Option<Vec<u8>>)
    ensures
        match canonical_host(host@) {
            Some(c) => res matches Some(r) && r@ == c,
            None => res is None,
        },
{
    let labels = split_bytes(host, 0x2e);
    let ghost spec_labels = split_on(host@, 0x2e);
    proof {
        lemma_split_nonempty(host@, 0x2e);
    }
    let n = labels.len();
    let mut out: Vec<u8> = Vec::new();
    let mut k: usize = 0;
    while k < n
        invariant
            n == labels@.len(),
            n == spec_labels.len(),
            n >= 1,
            k <= n,
            spec_labels == split_on(host@, 0x2e),
            k == 0 ==> out@ == Seq::<u8>::empty(),
            forall|j: int| 0 <= j < n ==> (#[trigger] labels@[j])@ == spec_labels[j],
            k > 0 ==> canonical_labels(spec_labels.subrange(0, k as int)) == Some(out@),
        decreases n - k,
    {
        let ghost done = spec_labels.subrange(0, k as int);
        let ghost next = spec_labels.subrange(0, k + 1);
        proof {
            assert(next.drop_last() =~= done);
            assert(next.last() == spec_labels[k as int]);
        }
        let label = match canonicalize_label(labels[k].as_slice()) {
            Some(label) => label,
            None => {
                proof {
                    lemma_labels_fail(spec_labels, k as int);
                }
                return None;
            },
        };
        if k > 0 {
            out.push(0x2e);
        }
        out.extend_from_slice(label.as_slice());
        proof {
            if k == 0 {
                assert(next =~= seq![spec_labels[0]]);
                assert(out@ =~= label@);
            }
        }
        k += 1;
    }
    proof {
        assert(spec_labels.subrange(0, n as int) =~= spec_labels);
    }
    Some(out)
}

/// A failing label fails the whole host.
proof fn lemma_labels_fail(labels: Seq<Seq<u8>>, k: int)
    requires
        0 <= k < labels.len(),
        canonical_label(labels[k]) is None,
    ensures
        canonical_labels(labels) is None,
    decreases labels.len(),
{
    if labels.len() > 1 && k < labels.len() - 1 {
        assert(labels.drop_last()[k] == labels[k]);
        lemma_labels_fail(labels.drop_last(), k);
    }
}

/// A UNC server name as a URL authority: a bracketed IPv6 literal is
/// rewritten in its canonical form, other bracketed names are kept, and
/// anything else is percent-encoded.
pub open spec fn encoded_host(host: Seq<u8>) -> Seq<u8> {
    if is_bracketed(host) {
        match ipv6_parse(bracket_inner(host)) {
            Some(groups) => seq![0x5bu8] + ipv6_text(groups) + seq![0x5du8],
            None => host,
        }
    } else {
        percent_encoded(host, seq![])
    }
}

/// Percent-encodes a UNC server name for the URL authority; bracketed IPv6
/// literals keep their authority syntax, canonicalized.
pub fn encode_host(host: &[u8]) -> (res: Vec<u8>)
    ensures
        res@ == encoded_host(host@),
{
    if is_bracketed_host(host) {
        match parse_ipv6(&host[1..host.len() - 1]) {
            Some(groups) => {
                let mut out: Vec<u8> = Vec::new();
                out.push(0x5b);
                let text = format_ipv6(&groups);
                out.extend_from_slice(text.as_slice());
                out.push(0x5d);
                out
            },
            None => {
                let mut out: Vec<u8> = Vec::new();
                out.extend_from_slice(host);
                out
            },
        }
    } else {
        let none: [u8; 0] = [];
        assert(none@ =~= Seq::<u8>::empty());
        percent_encode(host, &none)
    }
}

} // verus!
