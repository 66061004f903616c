//! IPv6 addresses: the textual grammar that `std` accepts (`Ipv6Addr`'s
//! `FromStr`), and the WHATWG serialization of an address.

use vstd::prelude::*;
use crate::ipv4::{digit_in_radix, digits_value};

verus! {

broadcast use {vstd::seq::group_seq_axioms, vstd::seq_lib::group_seq_properties};

/// Number of consecutive digits of `radix` starting at `pos`.
pub open spec fn digit_run(s: Seq<u8>, pos: int, radix: nat) -> nat
    decreases s.len() - pos,
{
    if 0 <= pos < s.len() && digit_in_radix(s[pos], radix) is Some {
        1 + digit_run(s, pos + 1, radix)
    } else {
        0
    }
}

/// A number read at `pos` the way `std`'s address parser reads one: the
/// digits of `radix` that follow, at least one and at most `max_digits`, and
/// with `allow_zero_prefix` false no leading zero before another digit. The
/// result is the value and the position after the digits.
pub open spec fn number_at(s: Seq<u8>, pos: int, radix: nat, max_digits: nat, allow_zero_prefix: bool) -> Option<(nat, int)> {
    let n = digit_run(s, pos, radix);
    if n == 0 || n > max_digits {
        None
    } else if !allow_zero_prefix && s[pos] == 0x30 && n > 1 {
        None
    } else {
        Some((digits_value(s.subrange(pos, pos + n), radix)->0, pos + n))
    }
}

/// `16^n` for the digit counts that occur here.
pub open spec fn pow16(n: nat) -> nat {
    if n == 0 {
        1
    } else if n == 1 {
        16
    } else if n == 2 {
        256
    } else if n == 3 {
        4096
    } else if n == 4 {
        65536
    } else {
        1048576
    }
}

proof fn lemma_run_at_least(s: Seq<u8>, pos: int, radix: nat, k: int)
    requires
        0 <= pos,
        0 <= k,
        pos + k <= s.len(),
        forall|j: int| pos <= j < pos + k ==> digit_in_radix(#[trigger] s[j], radix) is Some,
    ensures
        digit_run(s, pos, radix) >= k,
        (pos + k == s.len() || digit_in_radix(s[pos + k], radix) is None) ==> digit_run(
            s,
            pos,
            radix,
        ) == k,
    decreases k,
{
    if k > 0 {
        lemma_run_at_least(s, pos + 1, radix, k - 1);
    }
}

proof fn lemma_run_bound(s: Seq<u8>, pos: int, radix: nat)
    requires
        0 <= pos <= s.len(),
    ensures
        pos + digit_run(s, pos, radix) <= s.len(),
    decreases s.len() - pos,
{
    if pos < s.len() {
        lemma_run_bound(s, pos + 1, radix);
    }
}

/// A number that is read lies inside the text, after its start.
proof fn lemma_number_at_bounds(s: Seq<u8>, pos: int, radix: nat, max_digits: nat, allow_zero_prefix: bool)
    requires
        0 <= pos <= s.len(),
    ensures
        number_at(s, pos, radix, max_digits, allow_zero_prefix) matches Some((v, e)) ==> pos < e <= s.len(),
{
    lemma_run_bound(s, pos, radix);
}

/// A dotted IPv4 address that is read lies inside the text, after its start.
proof fn lemma_ipv4_text_bounds(s: Seq<u8>, pos: int)
    requires
        0 <= pos <= s.len(),
    ensures
        ipv4_text_at(s, pos) matches Some((o, e)) ==> pos < e <= s.len() && o.len() == 4,
{
    lemma_number_at_bounds(s, pos, 10, 3, false);
    if let Some((a, p1)) = octet_at(s, pos) {
        if let Some(q1) = separated(s, p1, 1, 0x2e) {
            lemma_number_at_bounds(s, q1, 10, 3, false);
            if let Some((b, p2)) = octet_at(s, q1) {
                if let Some(q2) = separated(s, p2, 1, 0x2e) {
                    lemma_number_at_bounds(s, q2, 10, 3, false);
                    if let Some((c, p3)) = octet_at(s, q2) {
                        if let Some(q3) = separated(s, p3, 1, 0x2e) {
                            lemma_number_at_bounds(s, q3, 10, 3, false);
                        }
                    }
                }
            }
        }
    }
}

proof fn lemma_digits_some(s: Seq<u8>, radix: nat)
    requires
        forall|j: int| 0 <= j < s.len() ==> digit_in_radix(#[trigger] s[j], radix) is Some,
    ensures
        digits_value(s, radix) is Some,
    decreases s.len(),
{
    if s.len() > 0 {
        lemma_digits_some(s.drop_last(), radix);
        assert(digit_in_radix(s[s.len() - 1], radix) is Some);
    }
}

fn digit_of(b: u8, radix: u32) -> (res: Option<u32>)
    requires
        radix == 10 || radix == 16,
    ensures
        match digit_in_radix(b, radix as nat) {
            Some(d) => res == Some(d as u32),
            None => res is None,
        },
{
    let d: u32 = if 0x30 <= b && b <= 0x39 {
        (b - 0x30) as u32
    } else if 0x61 <= b && b <= 0x7a {
        (b - 0x61 + 10) as u32
    } else if 0x41 <= b && b <= 0x5a {
        (b - 0x41 + 10) as u32
    } else {
        radix
    };
    if d < radix {
        Some(d)
    } else {
        None
    }
}

/// Reads a number at `pos` the way `std`'s address parser does.
fn read_number(s: &[u8], pos: usize, radix: u32, max_digits: usize, allow_zero_prefix: bool) -> (res: Option<(u32, usize)>)
    requires
        pos <= s@.len(),
        radix == 10 || radix == 16,
        1 <= max_digits <= 4,
    ensures
        match number_at(s@, pos as int, radix as nat, max_digits as nat, allow_zero_prefix) {
            Some((v, e)) => res matches Some((x, f)) && x == v && f == e && v < pow16(max_digits as nat) && pos < e <= s@.len(),
            None => res is None,
        },
{
    let len = s.len();
    let mut n: usize = 0;
    let mut value: u32 = 0;
    while pos + n < len && n <= max_digits
        invariant
            len == s@.len(),
            pos + n <= len,
            n <= max_digits + 1,
            radix == 10 || radix == 16,
            1 <= max_digits <= 4,
            forall|j: int| pos <= j < pos + n ==> digit_in_radix(#[trigger] s@[j], radix as nat) is Some,
            digits_value(s@.subrange(pos as int, pos + n), radix as nat) == Some(value as nat),
            (value as nat) < pow16(n as nat),
        ensures
            pos + n <= len,
            n <= max_digits + 1,
            forall|j: int| pos <= j < pos + n ==> digit_in_radix(#[trigger] s@[j], radix as nat) is Some,
            digits_value(s@.subrange(pos as int, pos + n), radix as nat) == Some(value as nat),
            (value as nat) < pow16(n as nat),
            pos + n == len || n > max_digits || digit_in_radix(s@[pos + n], radix as nat) is None,
        decreases len - n,
    {
        let d = match digit_of(s[pos + n], radix) {
            Some(d) => d,
            None => break,
        };
        proof {
            let next = s@.subrange(pos as int, pos + n + 1);
            assert(next.drop_last() =~= s@.subrange(pos as int, pos + n as int));
            assert(next.last() == s@[pos + n]);
            assert(value * radix + d < pow16((n + 1) as nat)) by (nonlinear_arith)
                requires
                    value < pow16(n as nat),
                    radix <= 16,
                    d < radix,
                    pow16((n + 1) as nat) == pow16(n as nat) * 16,
            ;
        }
        value = value * radix + d;
        n += 1;
    }
    proof {
        lemma_run_at_least(s@, pos as int, radix as nat, n as int);
    }
    if n == 0 || n > max_digits {
        return None;
    }
    if !allow_zero_prefix && s[pos] == 0x30 && n > 1 {
        return None;
    }
    proof {
        assert(pow16(n as nat) <= pow16(max_digits as nat));
        lemma_run_bound(s@, pos as int, radix as nat);
    }
    Some((value, pos + n))
}

/// A decimal octet of a dotted IPv4 address: one to three digits, no
/// leading zero, below 256.
pub open spec fn octet_at(s: Seq<u8>, pos: int) -> Option<(u8, int)> {
    match number_at(s, pos, 10, 3, false) {
        Some((v, e)) => if v < 256 {
            Some((v as u8, e))
        } else {
            None
        },
        None => None,
    }
}

/// `sep` at `pos` for every item but the first: the position after it.
pub open spec fn separated(s: Seq<u8>, pos: int, index: int, sep: u8) -> Option<int> {
    if index == 0 {
        Some(pos)
    } else if 0 <= pos < s.len() && s[pos] == sep {
        Some(pos + 1)
    } else {
        None
    }
}

/// A dotted-quad IPv4 address at `pos`: its four octets and the position
/// after it.
pub open spec fn ipv4_text_at(s: Seq<u8>, pos: int) -> Option<(Seq<u8>, int)> {
    match octet_at(s, pos) {
        Some((a, p1)) => match separated(s, p1, 1, 0x2e) {
            Some(q1) => match octet_at(s, q1) {
                Some((b, p2)) => match separated(s, p2, 1, 0x2e) {
                    Some(q2) => match octet_at(s, q2) {
                        Some((c, p3)) => match separated(s, p3, 1, 0x2e) {
                            Some(q3) => match octet_at(s, q3) {
                                Some((d, p4)) => Some((seq![a, b, c, d], p4)),
                                None => None,
                            },
                            None => None,
                        },
                        None => None,
                    },
                    None => None,
                },
                None => None,
            },
            None => None,
        },
        None => None,
    }
}

fn read_octet(s: &[u8], pos: usize) -> (res: Option<(u8, usize)>)
    requires
        pos <= s@.len(),
    ensures
        match octet_at(s@, pos as int) {
            Some((v, e)) => res matches Some((x, f)) && x == v && f == e && pos < e <= s@.len(),
            None => res is None,
        },
{
    proof {
        lemma_number_at_bounds(s@, pos as int, 10, 3, false);
    }
    match read_number(s, pos, 10, 3, false) {
        Some((v, e)) => if v < 256 {
            Some((v as u8, e))
        } else {
            None
        },
        None => None,
    }
}

fn read_separator(s: &[u8], pos: usize, index: usize, sep: u8) -> (res: Option<usize>)
    requires
        pos <= s@.len(),
    ensures
        match separated(s@, pos as int, index as int, sep) {
            Some(e) => res matches Some(f) && f == e && pos <= e <= s@.len(),
            None => res is None,
        },
{
    if index == 0 {
        Some(pos)
    } else if pos < s.len() && s[pos] == sep {
        Some(pos + 1)
    } else {
        None
    }
}

fn read_ipv4_text(s: &[u8], pos: usize) -> (res: Option<([u8; 4], usize)>)
    requires
        pos <= s@.len(),
    ensures
        match ipv4_text_at(s@, pos as int) {
            Some((octets, e)) => res matches Some((o, f)) && o@ == octets && f == e,
            None => res is None,
        },
{
    let (a, p1) = match read_octet(s, pos) {
        Some(r) => r,
        None => {
            assert(ipv4_text_at(s@, pos as int) is None);
            return None;
        },
    };
    assert(octet_at(s@, pos as int) == Some((a, p1 as int)));
    let q1 = match read_separator(s, p1, 1, 0x2e) {
        Some(q) => q,
        None => {
            assert(ipv4_text_at(s@, pos as int) is None);
            return None;
        },
    };
    assert(separated(s@, p1 as int, 1, 0x2e) == Some(q1 as int));
    let (b, p2) = match read_octet(s, q1) {
        Some(r) => r,
        None => {
            assert(ipv4_text_at(s@, pos as int) is None);
            return None;
        },
    };
    assert(octet_at(s@, q1 as int) == Some((b, p2 as int)));
    let q2 = match read_separator(s, p2, 1, 0x2e) {
        Some(q) => q,
        None => {
            assert(ipv4_text_at(s@, pos as int) is None);
            return None;
        },
    };
    assert(separated(s@, p2 as int, 1, 0x2e) == Some(q2 as int));
    let (c, p3) = match read_octet(s, q2) {
        Some(r) => r,
        None => {
            assert(ipv4_text_at(s@, pos as int) is None);
            return None;
        },
    };
    assert(octet_at(s@, q2 as int) == Some((c, p3 as int)));
    let q3 = match read_separator(s, p3, 1, 0x2e) {
        Some(q) => q,
        None => {
            assert(ipv4_text_at(s@, pos as int) is None);
            return None;
        },
    };
    assert(separated(s@, p3 as int, 1, 0x2e) == Some(q3 as int));
    let (d, p4) = match read_octet(s, q3) {
        Some(r) => r,
        None => {
            assert(ipv4_text_at(s@, pos as int) is None);
            return None;
        },
    };
    assert(octet_at(s@, q3 as int) == Some((d, p4 as int)));
    let octets = [a, b, c, d];
    assert(octets@ =~= seq![a, b, c, d]);
    Some((octets, p4))
}

/// Groups of an IPv6 address read from item `index` on (of `limit`), at
/// `pos`: the groups, whether they ended in an embedded IPv4 address, and
/// the position after them. Reading stops at the first item that does not
/// parse; an embedded IPv4 address needs two free items and ends the run.
pub open spec fn groups_at(s: Seq<u8>, pos: int, index: int, limit: int) -> (Seq<u16>, bool, int)
    decreases limit - index,
{
    if index >= limit {
        (seq![], false, pos)
    } else {
        let v4 = if index < limit - 1 {
            match separated(s, pos, index, 0x3a) {
                Some(p) => ipv4_text_at(s, p),
                None => None,
            }
        } else {
            None
        };
        match v4 {
            Some((o, e)) => (
                seq![(o[0] as nat * 256 + o[1] as nat) as u16, (o[2] as nat * 256 + o[3] as nat) as u16],
                true,
                e,
            ),
            None => {
                let g = match separated(s, pos, index, 0x3a) {
                    Some(p) => number_at(s, p, 16, 4, true),
                    None => None,
                };
                match g {
                    Some((v, e)) => {
                        let rest = groups_at(s, e, index + 1, limit);
                        (seq![v as u16] + rest.0, rest.1, rest.2)
                    },
                    None => (seq![], false, pos),
                }
            },
        }
    }
}

proof fn lemma_groups_bounds(s: Seq<u8>, pos: int, index: int, limit: int)
    requires
        0 <= pos <= s.len(),
        0 <= index <= limit,
    ensures
        ({
            let r = groups_at(s, pos, index, limit);
            &&& index + r.0.len() <= limit
            &&& pos <= r.2 <= s.len()
        }),
    decreases limit - index,
{
    if index < limit {
        if index > 0 && 0 <= pos < s.len() && s[pos] == 0x3a {
            lemma_ipv4_text_bounds(s, pos + 1);
            lemma_number_at_bounds(s, pos + 1, 16, 4, true);
        }
        if index == 0 {
            lemma_ipv4_text_bounds(s, pos);
            lemma_number_at_bounds(s, pos, 16, 4, true);
        }
        let v4 = if index < limit - 1 {
            match separated(s, pos, index, 0x3a) {
                Some(p) => ipv4_text_at(s, p),
                None => None,
            }
        } else {
            None
        };
        if v4 is None {
            let g = match separated(s, pos, index, 0x3a) {
                Some(p) => number_at(s, p, 16, 4, true),
                None => None,
            };
            if let Some((v, e)) = g {
                lemma_groups_bounds(s, e, index + 1, limit);
            }
        }
    }
}

/// The address that `Ipv6Addr`'s `FromStr` reads from `s`, as its eight
/// groups: leading groups, then optionally `::` and trailing groups, the
/// last two groups of either run possibly written as a dotted IPv4
/// address, and nothing left over.
pub open spec fn ipv6_parse(s: Seq<u8>) -> Option<Seq<u16>> {
    let head = groups_at(s, 0, 0, 8);
    if head.0.len() == 8 {
        if head.2 == s.len() {
            Some(head.0)
        } else {
            None
        }
    } else if head.1 {
        None
    } else if !(head.2 + 1 < s.len() && s[head.2] == 0x3a && s[head.2 + 1] == 0x3a) {
        None
    } else {
        let tail = groups_at(s, head.2 + 2, 0, 8 - (head.0.len() + 1));
        if tail.2 == s.len() {
            Some(head.0 + Seq::new((8 - head.0.len() - tail.0.len()) as nat, |i: int| 0u16) + tail.0)
        } else {
            None
        }
    }
}

fn read_groups(s: &[u8], pos: usize, index: usize, limit: usize) -> (res: (Vec<u16>, bool, usize))
    requires
        pos <= s@.len(),
        index <= limit <= 8,
    ensures
        ({
            let r = groups_at(s@, pos as int, index as int, limit as int);
            &&& res.0@ == r.0
            &&& res.1 == r.1
            &&& res.2 == r.2
        }),
    decreases limit - index,
{
    proof {
        lemma_groups_bounds(s@, pos as int, index as int, limit as int);
    }
    if index >= limit {
        return (Vec::new(), false, pos);
    }
    if index < limit - 1 {
        if let Some(p) = read_separator(s, pos, index, 0x3a) {
            if let Some((o, e)) = read_ipv4_text(s, p) {
                let mut groups: Vec<u16> = Vec::new();
                groups.push((o[0] as u16) * 256 + (o[1] as u16));
                groups.push((o[2] as u16) * 256 + (o[3] as u16));
                proof {
                    assert(groups@ =~= seq![
                        (o@[0] as nat * 256 + o@[1] as nat) as u16,
                        (o@[2] as nat * 256 + o@[3] as nat) as u16,
                    ]);
                }
                return (groups, true, e);
            }
        }
    }
    let g = match read_separator(s, pos, index, 0x3a) {
        Some(p) => read_number(s, p, 16, 4, true),
        None => None,
    };
    match g {
        Some((v, e)) => {
            proof {
                lemma_groups_bounds(s@, e as int, index + 1, limit as int);
            }
            let (rest, v4, end) = read_groups(s, e, index + 1, limit);
            let mut groups: Vec<u16> = Vec::new();
            groups.push(v as u16);
            let mut k: usize = 0;
            while k < rest.len()
                invariant
                    groups@ == seq![v as u16] + rest@.subrange(0, k as int),
                    k <= rest@.len(),
                decreases rest@.len() - k,
            {
                groups.push(rest[k]);
                k += 1;
                proof {
                    assert(groups@ =~= seq![v as u16] + rest@.subrange(0, k as int));
                }
            }
            proof {
                assert(rest@.subrange(0, rest@.len() as int) =~= rest@);
            }
            (groups, v4, end)
        },
        None => (Vec::new(), false, pos),
    }
}

/// Parses an IPv6 address the way `Ipv6Addr`'s `FromStr` does.
pub fn parse_ipv6(s: &[u8]) -> (res: Option<Vec<u16>>)
    ensures
        match ipv6_parse(s@) {
            Some(groups) => res is Some && res->0@ == groups,
            None => res is None,
        },
        res matches Some(groups) ==> groups@.len() == 8,
{
    proof {
        lemma_groups_bounds(s@, 0, 0, 8);
    }
    let (head, head_v4, p) = read_groups(s, 0, 0, 8);
    if head.len() == 8 {
        if p == s.len() {
            return Some(head);
        }
        return None;
    }
    if head_v4 {
        return None;
    }
    if !(p < s.len() && s.len() - p >= 2 && s[p] == 0x3a && s[p + 1] == 0x3a) {
        return None;
    }
    let limit = 8 - (head.len() + 1);
    proof {
        lemma_groups_bounds(s@, p + 2, 0, limit as int);
    }
    let (tail, _, end) = read_groups(s, p + 2, 0, limit);
    if end != s.len() {
        return None;
    }
    let mut groups: Vec<u16> = Vec::new();
    let mut k: usize = 0;
    while k < head.len()
        invariant
            groups@ == head@.subrange(0, k as int),
            k <= head@.len(),
        decreases head@.len() - k,
    {
        groups.push(head[k]);
        k += 1;
        proof {
            assert(groups@ =~= head@.subrange(0, k as int));
        }
    }
    let zeros = 8 - head.len() - tail.len();
    let mut z: usize = 0;
    while z < zeros
        invariant
            groups@ == head@ + Seq::new(z as nat, |i: int| 0u16),
            z <= zeros,
        decreases zeros - z,
    {
        groups.push(0);
        z += 1;
        proof {
            assert(groups@ =~= head@ + Seq::new(z as nat, |i: int| 0u16));
        }
    }
    let ghost mid = groups@;
    let mut t: usize = 0;
    while t < tail.len()
        invariant
            groups@ == mid + tail@.subrange(0, t as int),
            t <= tail@.len(),
        decreases tail@.len() - t,
    {
        groups.push(tail[t]);
        t += 1;
        proof {
            assert(groups@ =~= mid + tail@.subrange(0, t as int));
        }
    }
    proof {
        assert(head@.subrange(0, head@.len() as int) =~= head@);
        assert(tail@.subrange(0, tail@.len() as int) =~= tail@);
    }
    Some(groups)
}


/// Number of zero groups starting at `i`.
pub open spec fn zero_run(g: Seq<u16>, i: int) -> nat
    decreases g.len() - i,
{
    if 0 <= i < g.len() && g[i] == 0 {
        1 + zero_run(g, i + 1)
    } else {
        0
    }
}

/// The leftmost longest run of zero groups starting at or after `i`:
/// its start and length (length 0 when there is none).
pub open spec fn longest_zero_run(g: Seq<u16>, i: int) -> (int, nat)
    decreases g.len() - i,
{
    if i < 0 || i >= g.len() {
        (g.len() as int, 0)
    } else {
        let later = longest_zero_run(g, i + 1);
        let here = zero_run(g, i);
        if here > 0 && here >= later.1 {
            (i, here)
        } else {
            later
        }
    }
}

/// Lowercase hexadecimal digits of a number, without leading zeros.
pub open spec fn lower_hex(n: nat) -> Seq<u8>
    decreases n,
{
    if n < 16 {
        seq![lower_hex_digit(n)]
    } else {
        lower_hex(n / 16) + seq![lower_hex_digit(n % 16)]
    }
}

pub open spec fn lower_hex_digit(d: nat) -> u8 {
    if d < 10 {
        (0x30 + d) as u8
    } else {
        (0x61 + d - 10) as u8
    }
}

/// Groups in lowercase hex, joined with `:`.
pub open spec fn joined_groups(g: Seq<u16>) -> Seq<u8>
    decreases g.len(),
{
    if g.len() == 0 {
        seq![]
    } else if g.len() == 1 {
        lower_hex(g[0] as nat)
    } else {
        joined_groups(g.drop_last()) + seq![0x3au8] + lower_hex(g.last() as nat)
    }
}

/// WHATWG IPv6 serialization: eight lowercase hex groups, the leftmost
/// longest run of at least two zero groups written as `::`.
pub open spec fn ipv6_text(g: Seq<u16>) -> Seq<u8> {
    let (start, len) = longest_zero_run(g, 0);
    if len < 2 {
        joined_groups(g)
    } else {
        joined_groups(g.subrange(0, start)) + seq![0x3au8, 0x3au8] + joined_groups(
            g.subrange(start + len, g.len() as int),
        )
    }
}

proof fn lemma_zero_run_bound(g: Seq<u16>, i: int)
    requires
        0 <= i <= g.len(),
    ensures
        i + zero_run(g, i) <= g.len(),
    decreases g.len() - i,
{
    if i < g.len() {
        lemma_zero_run_bound(g, i + 1);
    }
}

proof fn lemma_longest_bound(g: Seq<u16>, i: int)
    requires
        0 <= i <= g.len(),
    ensures
        ({
            let r = longest_zero_run(g, i);
            &&& 0 <= r.0 <= g.len()
            &&& r.0 + r.1 <= g.len()
        }),
    decreases g.len() - i,
{
    if i < g.len() {
        lemma_longest_bound(g, i + 1);
        lemma_zero_run_bound(g, i);
    }
}

fn zero_run_at(g: &Vec<u16>, i: usize) -> (res: usize)
    requires
        i <= g@.len(),
    ensures
        res == zero_run(g@, i as int),
        i + res <= g@.len(),
{
    let mut j = i;
    while j < g.len() && g[j] == 0
        invariant
            i <= j <= g@.len(),
            forall|k: int| i <= k < j ==> g@[k] == 0,
        decreases g@.len() - j,
    {
        j += 1;
    }
    proof {
        lemma_zero_run_count(g@, i as int, j as int);
    }
    j - i
}

proof fn lemma_zero_run_count(g: Seq<u16>, i: int, j: int)
    requires
        0 <= i <= j <= g.len(),
        forall|k: int| i <= k < j ==> g[k] == 0,
        j == g.len() || g[j] != 0,
    ensures
        zero_run(g, i) == j - i,
    decreases j - i,
{
    if i < j {
        lemma_zero_run_count(g, i + 1, j);
    }
}

fn push_lower_hex(out: &mut Vec<u8>, v: u16)
    ensures
        final(out)@ == old(out)@ + lower_hex(v as nat),
{
    proof {
        reveal_with_fuel(lower_hex, 4);
    }
    let d0 = (v / 4096) as u8;
    let d1 = ((v / 256) % 16) as u8;
    let d2 = ((v / 16) % 16) as u8;
    let d3 = (v % 16) as u8;
    let ghost before = out@;
    if v >= 4096 {
        out.push(hex_digit_lower(d0));
        out.push(hex_digit_lower(d1));
        out.push(hex_digit_lower(d2));
        out.push(hex_digit_lower(d3));
        assert(lower_hex(v as nat) =~= seq![lower_hex_digit(d0 as nat), lower_hex_digit(d1 as nat), lower_hex_digit(d2 as nat), lower_hex_digit(d3 as nat)]);
    } else if v >= 256 {
        out.push(hex_digit_lower(d1));
        out.push(hex_digit_lower(d2));
        out.push(hex_digit_lower(d3));
        assert(lower_hex(v as nat) =~= seq![lower_hex_digit(d1 as nat), lower_hex_digit(d2 as nat), lower_hex_digit(d3 as nat)]);
    } else if v >= 16 {
        out.push(hex_digit_lower(d2));
        out.push(hex_digit_lower(d3));
        assert(lower_hex(v as nat) =~= seq![lower_hex_digit(d2 as nat), lower_hex_digit(d3 as nat)]);
    } else {
        out.push(hex_digit_lower(d3));
        assert(lower_hex(v as nat) =~= seq![lower_hex_digit(d3 as nat)]);
    }
    assert(out@ =~= before + lower_hex(v as nat));
}

fn hex_digit_lower(d: u8) -> (res: u8)
    requires
        d < 16,
    ensures
        res == lower_hex_digit(d as nat),
{
    if d < 10 {
        0x30 + d
    } else {
        0x61 + d - 10
    }
}

/// Appends the groups `g[from..to]`, joined with `:`.
fn push_joined(out: &mut Vec<u8>, g: &Vec<u16>, from: usize, to: usize)
    requires
        from <= to <= g@.len(),
    ensures
        final(out)@ == old(out)@ + joined_groups(g@.subrange(from as int, to as int)),
{
    let ghost before = out@;
    let mut k = from;
    proof {
        assert(g@.subrange(from as int, from as int) =~= Seq::<u16>::empty());
    }
    while k < to
        invariant
            from <= k <= to <= g@.len(),
            out@ == before + joined_groups(g@.subrange(from as int, k as int)),
        decreases to - k,
    {
        let ghost prev = g@.subrange(from as int, k as int);
        let ghost next = g@.subrange(from as int, k + 1);
        assert(next.drop_last() =~= prev);
        if k > from {
            out.push(0x3a);
        }
        push_lower_hex(out, g[k]);
        proof {
            if k == from {
                assert(next =~= seq![g@[k as int]]);
            }
            assert(out@ =~= before + joined_groups(next));
        }
        k += 1;
    }
}

/// Writes an address the way the WHATWG URL serializer does.
pub fn format_ipv6(g: &Vec<u16>) -> (res: Vec<u8>)
    requires
        g@.len() == 8,
    ensures
        res@ == ipv6_text(g@),
{
    let mut best_start: usize = 8;
    let mut best_len: usize = 0;
    let mut i: usize = 8;
    proof {
        lemma_longest_bound(g@, 8);
    }
    while i > 0
        invariant
            i <= 8,
            g@.len() == 8,
            (best_start as int, best_len as nat) == longest_zero_run(g@, i as int),
        decreases i,
    {
        i -= 1;
        let here = zero_run_at(g, i);
        if here > 0 && here >= best_len {
            best_start = i;
            best_len = here;
        }
    }
    proof {
        lemma_longest_bound(g@, 0);
    }
    let mut out: Vec<u8> = Vec::new();
    if best_len < 2 {
        push_joined(&mut out, g, 0, 8);
        assert(g@.subrange(0, 8) =~= g@);
    } else {
        push_joined(&mut out, g, 0, best_start);
        out.push(0x3a);
        out.push(0x3a);
        push_joined(&mut out, g, best_start + best_len, 8);
    }
    out
}


proof fn lemma_lower_hex_ascii(n: nat)
    ensures
        crate::text::all_ascii(lower_hex(n)),
    decreases n,
{
    if n >= 16 {
        lemma_lower_hex_ascii(n / 16);
    }
}

proof fn lemma_joined_groups_ascii(g: Seq<u16>)
    ensures
        crate::text::all_ascii(joined_groups(g)),
    decreases g.len(),
{
    if g.len() == 1 {
        lemma_lower_hex_ascii(g[0] as nat);
    } else if g.len() > 1 {
        lemma_joined_groups_ascii(g.drop_last());
        lemma_lower_hex_ascii(g.last() as nat);
    }
}

/// The serialization of an address is ASCII.
pub proof fn lemma_ipv6_text_ascii(g: Seq<u16>)
    ensures
        crate::text::all_ascii(ipv6_text(g)),
{
    let (start, len) = longest_zero_run(g, 0);
    lemma_joined_groups_ascii(g);
    lemma_joined_groups_ascii(g.subrange(0, start));
    lemma_joined_groups_ascii(g.subrange(start + len, g.len() as int));
}

/// With no two adjacent zero groups, no run of zero groups is longer than
/// one.
proof fn lemma_short_zero_runs(g: Seq<u16>, i: int)
    requires
        0 <= i <= g.len(),
        forall|j: int| 0 <= j < g.len() - 1 ==> !(g[j] == 0 && #[trigger] g[j + 1] == 0),
    ensures
        longest_zero_run(g, i).1 <= 1,
    decreases g.len() - i,
{
    if i < g.len() {
        lemma_short_zero_runs(g, i + 1);
        if g[i] == 0 && i + 1 < g.len() {
            assert(!(g[i] == 0 && g[i + 1] == 0));
            assert(zero_run(g, i + 1) == 0);
        }
        if g[i] == 0 && i + 1 >= g.len() {
            assert(zero_run(g, i + 1) == 0);
        }
    }
}

/// The longest run found from `i` on is at least as long as any run that
/// starts there or later.
proof fn lemma_longest_at_least(g: Seq<u16>, i: int, j: int)
    requires
        0 <= i <= j < g.len(),
    ensures
        longest_zero_run(g, i).1 >= zero_run(g, j),
    decreases j - i,
{
    if i < j {
        lemma_longest_at_least(g, i + 1, j);
    }
}

/// The eight groups in lowercase hex, joined by `:`.
pub open spec fn eight_groups(g: Seq<u16>) -> Seq<u8> {
    lower_hex(g[0] as nat) + seq![0x3au8] + lower_hex(g[1] as nat) + seq![0x3au8] + lower_hex(
        g[2] as nat,
    ) + seq![0x3au8] + lower_hex(g[3] as nat) + seq![0x3au8] + lower_hex(g[4] as nat) + seq![0x3au8]
        + lower_hex(g[5] as nat) + seq![0x3au8] + lower_hex(g[6] as nat) + seq![0x3au8] + lower_hex(
        g[7] as nat,
    )
}

/// An address whose zero groups stand alone is written out in full: a
/// single zero group is never shortened to `::`, and the text is the eight
/// groups in lowercase hex joined by `:`.
pub proof fn law_lone_zero_groups_written_out(g: Seq<u16>)
    requires
        g.len() == 8,
        forall|j: int| 0 <= j < 7 ==> !(g[j] == 0 && #[trigger] g[j + 1] == 0),
    ensures
        ipv6_text(g) == eight_groups(g),
{
    lemma_short_zero_runs(g, 0);
    let g7 = g.drop_last();
    let g6 = g7.drop_last();
    let g5 = g6.drop_last();
    let g4 = g5.drop_last();
    let g3 = g4.drop_last();
    let g2 = g3.drop_last();
    let g1 = g2.drop_last();
    assert(joined_groups(g1) == lower_hex(g[0] as nat));
    assert(joined_groups(g2) == joined_groups(g1) + seq![0x3au8] + lower_hex(g[1] as nat));
    assert(joined_groups(g3) == joined_groups(g2) + seq![0x3au8] + lower_hex(g[2] as nat));
    assert(joined_groups(g4) == joined_groups(g3) + seq![0x3au8] + lower_hex(g[3] as nat));
    assert(joined_groups(g5) == joined_groups(g4) + seq![0x3au8] + lower_hex(g[4] as nat));
    assert(joined_groups(g6) == joined_groups(g5) + seq![0x3au8] + lower_hex(g[5] as nat));
    assert(joined_groups(g7) == joined_groups(g6) + seq![0x3au8] + lower_hex(g[6] as nat));
    assert(joined_groups(g) == joined_groups(g7) + seq![0x3au8] + lower_hex(g[7] as nat));
}

/// An address with two adjacent zero groups is shortened: its text holds
/// `::`.
pub proof fn law_zero_runs_compressed(g: Seq<u16>, j: int)
    requires
        g.len() == 8,
        0 <= j < 7,
        g[j] == 0,
        g[j + 1] == 0,
    ensures
        exists|k: int|
            0 <= k < ipv6_text(g).len() - 1 && #[trigger] ipv6_text(g)[k] == 0x3a && ipv6_text(g)[k + 1]
                == 0x3a,
{
    lemma_longest_at_least(g, 0, j);
    assert(zero_run(g, j + 1) >= 1);
    assert(zero_run(g, j) >= 2);
    let (start, len) = longest_zero_run(g, 0);
    let a = joined_groups(g.subrange(0, start));
    let t = ipv6_text(g);
    assert(t[a.len() as int] == 0x3a);
    assert(t[a.len() as int + 1] == 0x3a);
    assert(0 <= a.len() < t.len() - 1);
}

} // verus!
