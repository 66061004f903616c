//! WHATWG IPv4 host parsing for special-scheme authorities, and the
//! dotted-quad form of an address.

use vstd::prelude::*;
use crate::text::{
    split_on, split_bytes, lemma_split_nonempty, is_digit, is_hex, is_digit_byte, is_hex_byte,
};

verus! {

broadcast use {vstd::seq::group_seq_axioms, vstd::seq_lib::group_seq_properties};

/// WHATWG ends-in-a-number: the label is non-empty and all ASCII digits, or
/// `0x`/`0X` followed by hexadecimal digits (a bare `0x` counts).
pub open spec fn ends_in_number_spec(label: Seq<u8>) -> bool {
    &&& label.len() > 0
    &&& {
        ||| forall|i: int| 0 <= i < label.len() ==> is_digit(#[trigger] label[i])
        ||| (label.len() >= 2 && label[0] == 0x30 && (label[1] == 0x78 || label[1] == 0x58)
            && forall|i: int| 2 <= i < label.len() ==> is_hex(#[trigger] label[i]))
    }
}

/// WHATWG ends-in-a-number check.
pub fn ends_in_number(label: &[u8]) -> (res: bool)
    ensures
        res == ends_in_number_spec(label@),
{
    let len = label.len();
    if len == 0 {
        return false;
    }
    let mut all_digits = true;
    let mut i: usize = 0;
    while i < len
        invariant
            len == label@.len(),
            i <= len,
            all_digits == forall|j: int| 0 <= j < i ==> is_digit(#[trigger] label@[j]),
        decreases len - i,
    {
        all_digits = all_digits && is_digit_byte(label[i]);
        i += 1;
    }
    if all_digits {
        return true;
    }
    if len < 2 || label[0] != 0x30 || (label[1] != 0x78 && label[1] != 0x58) {
        return false;
    }
    let mut j: usize = 2;
    while j < len
        invariant
            len == label@.len(),
            2 <= j <= len,
            forall|k: int| 2 <= k < j ==> is_hex(#[trigger] label@[k]),
        decreases len - j,
    {
        if !is_hex_byte(label[j]) {
            return false;
        }
        j += 1;
    }
    true
}

/// The value of an ASCII digit in `radix` (letters count from 10 on).
pub open spec fn digit_in_radix(b: u8, radix: nat) -> Option<nat> {
    let d: int = if 0x30 <= b <= 0x39 {
        b - 0x30
    } else if 0x61 <= b <= 0x7a {
        b - 0x61 + 10
    } else if 0x41 <= b <= 0x5a {
        b - 0x41 + 10
    } else {
        radix as int
    };
    if d < radix {
        Some(d as nat)
    } else {
        None
    }
}

/// The number that a string of digits denotes in `radix`; `None` when one
/// of them is not a digit of that radix.
pub open spec fn digits_value(s: Seq<u8>, radix: nat) -> Option<nat>
    decreases s.len(),
{
    if s.len() == 0 {
        Some(0)
    } else {
        match (digits_value(s.drop_last(), radix), digit_in_radix(s.last(), radix)) {
            (Some(v), Some(d)) => Some(v * radix + d),
            _ => None,
        }
    }
}

/// What `u64::from_str_radix` returns: an optional leading `+`, then at
/// least one digit, the value fitting in 64 bits.
pub open spec fn from_str_radix_u64(src: Seq<u8>, radix: nat) -> Option<u64> {
    if src.len() == 0 {
        None
    } else if src.len() == 1 && (src[0] == 0x2b || src[0] == 0x2d) {
        None
    } else {
        let digits = if src[0] == 0x2b {
            src.drop_first()
        } else {
            src
        };
        match digits_value(digits, radix) {
            Some(v) => if v <= u64::MAX {
                Some(v as u64)
            } else {
                None
            },
            None => None,
        }
    }
}

fn digit_value(b: u8, radix: u64) -> (res: Option<u64>)
    requires
        2 <= radix <= 36,
    ensures
        match digit_in_radix(b, radix as nat) {
            Some(d) => res == Some(d as u64),
            None => res is None,
        },
{
    let d: u64 = if 0x30 <= b && b <= 0x39 {
        (b - 0x30) as u64
    } else if 0x61 <= b && b <= 0x7a {
        (b - 0x61 + 10) as u64
    } else if 0x41 <= b && b <= 0x5a {
        (b - 0x41 + 10) as u64
    } else {
        radix
    };
    if d < radix {
        Some(d)
    } else {
        None
    }
}

proof fn lemma_mul_grows(v: nat, radix: nat, d: nat)
    requires
        radix >= 1,
    ensures
        v * radix + d >= v,
{
    assert(v * radix >= v) by (nonlinear_arith)
        requires
            radix >= 1,
    ;
}

/// `u64::from_str_radix` for the radixes the IPv4 parser uses.
pub fn parse_u64_radix(src: &[u8], radix: u64) -> (res: Option<u64>)
    requires
        2 <= radix <= 36,
    ensures
        res == from_str_radix_u64(src@, radix as nat),
{
    let len = src.len();
    if len == 0 {
        return None;
    }
    if len == 1 && (src[0] == 0x2b || src[0] == 0x2d) {
        return None;
    }
    let start: usize = if src[0] == 0x2b {
        1
    } else {
        0
    };
    let ghost digits = if src@[0] == 0x2b {
        src@.drop_first()
    } else {
        src@
    };
    assert(digits =~= src@.subrange(start as int, len as int));
    let ghost expected = match digits_value(digits, radix as nat) {
        Some(v) => if v <= u64::MAX {
            Some(v as u64)
        } else {
            None
        },
        None => None,
    };
    assert(from_str_radix_u64(src@, radix as nat) == expected);
    // `None` once the value has passed `u64::MAX`.
    let mut acc: Option<u64> = Some(0);
    let mut i: usize = start;
    while i < len
        invariant
            len == src@.len(),
            start <= i <= len,
            2 <= radix <= 36,
            digits == src@.subrange(start as int, len as int),
            from_str_radix_u64(src@, radix as nat) == expected,
            expected == match digits_value(digits, radix as nat) {
                Some(v) => if v <= u64::MAX {
                    Some(v as u64)
                } else {
                    None
                },
                None => None,
            },
            digits_value(src@.subrange(start as int, i as int), radix as nat) is Some,
            ({
                let v = digits_value(src@.subrange(start as int, i as int), radix as nat)->0;
                match acc {
                    Some(a) => a == v,
                    None => v > u64::MAX,
                }
            }),
        decreases len - i,
    {
        let ghost prefix = src@.subrange(start as int, i as int);
        let ghost next = src@.subrange(start as int, i + 1);
        assert(next.drop_last() =~= prefix);
        assert(next.last() == src@[i as int]);
        let d = match digit_value(src[i], radix) {
            Some(d) => d,
            None => {
                proof {
                    assert(digits.subrange(0, (i - start) + 1) =~= next);
                    assert(digits_value(next, radix as nat) is None);
                    lemma_invalid_digit_spreads(digits, radix as nat, (i - start) as int);
                }
                return None;
            },
        };
        proof {
            let v = digits_value(prefix, radix as nat)->0;
            lemma_mul_grows(v, radix as nat, d as nat);
        }
        acc = match acc {
            Some(a) => match a.checked_mul(radix) {
                Some(m) => m.checked_add(d),
                None => None,
            },
            None => None,
        };
        i += 1;
    }
    proof {
        assert(src@.subrange(start as int, len as int) =~= digits);
    }
    acc
}

/// A digit string with one invalid digit has no value.
proof fn lemma_invalid_digit_spreads(s: Seq<u8>, radix: nat, k: int)
    requires
        0 <= k < s.len(),
        digits_value(s.subrange(0, k + 1), radix) is None,
    ensures
        digits_value(s, radix) is None,
    decreases s.len(),
{
    if k + 1 == s.len() {
        assert(s.subrange(0, k + 1) =~= s);
    } else {
        assert(s.drop_last().subrange(0, k + 1) =~= s.subrange(0, k + 1));
        lemma_invalid_digit_spreads(s.drop_last(), radix, k);
    }
}

/// WHATWG IPv4 number: `0x` hex, leading-zero octal, decimal; a bare prefix
/// (`0x`, `0`-led empty rest) is zero.
pub open spec fn ipv4_number_spec(part: Seq<u8>) -> Option<u64> {
    if part.len() >= 2 && part[0] == 0x30 && (part[1] == 0x78 || part[1] == 0x58) {
        if part.len() == 2 {
            Some(0)
        } else {
            from_str_radix_u64(part.subrange(2, part.len() as int), 16)
        }
    } else if part.len() > 1 && part[0] == 0x30 {
        from_str_radix_u64(part.subrange(1, part.len() as int), 8)
    } else if part.len() == 0 {
        Some(0)
    } else {
        from_str_radix_u64(part, 10)
    }
}

/// WHATWG IPv4 number parser.
pub fn ipv4_number(part: &[u8]) -> (res: Option<u64>)
    ensures
        res == ipv4_number_spec(part@),
{
    let len = part.len();
    if len >= 2 && part[0] == 0x30 && (part[1] == 0x78 || part[1] == 0x58) {
        if len == 2 {
            return Some(0);
        }
        parse_u64_radix(&part[2..len], 16)
    } else if len > 1 && part[0] == 0x30 {
        parse_u64_radix(&part[1..len], 8)
    } else if len == 0 {
        Some(0)
    } else {
        parse_u64_radix(part, 10)
    }
}

/// How an authority reads as IPv4.
#[derive(PartialEq, Eq, Structural, Debug)]
pub enum Ipv4Authority {
    /// The authority is not IPv4; host handling continues normally.
    NotIpv4,
    /// The address the authority denotes, most significant octet first.
    Address(u32),
    /// Ends in a number but is not a valid IPv4 address.
    Invalid,
}

/// Weight of the `i`-th leading part of an IPv4 authority.
pub open spec fn part_weight(i: int) -> nat {
    if i == 0 {
        16777216
    } else if i == 1 {
        65536
    } else {
        256
    }
}

/// Bound on the last part of an authority with `n` parts: it fills the
/// remaining `5 - n` bytes.
pub open spec fn last_part_bound(n: int) -> nat {
    if n == 1 {
        4294967296
    } else if n == 2 {
        16777216
    } else if n == 3 {
        65536
    } else {
        256
    }
}

/// Sum of the first `k` parts at their weights.
pub open spec fn leading_value(nums: Seq<u64>, k: int) -> nat
    decreases k,
{
    if k <= 0 {
        0
    } else {
        leading_value(nums, k - 1) + (nums[k - 1] as nat) * part_weight(k - 1)
    }
}

/// The authority with one trailing dot dropped.
pub open spec fn ipv4_candidate(host: Seq<u8>) -> Seq<u8> {
    if host.len() > 0 && host.last() == 0x2e {
        host.drop_last()
    } else {
        host
    }
}

/// Whether every part parses as an IPv4 number within its bound.
pub open spec fn parts_in_range(parts: Seq<Seq<u8>>) -> bool {
    forall|i: int|
        0 <= i < parts.len() ==> #[trigger] ipv4_number_spec(parts[i]) is Some && ipv4_number_spec(
            parts[i],
        )->0 < (if i == parts.len() - 1 {
            last_part_bound(parts.len() as int)
        } else {
            256
        })
}

/// The part values of an authority whose parts all parse.
pub open spec fn part_values(parts: Seq<Seq<u8>>) -> Seq<u64> {
    Seq::new(parts.len(), |i: int| ipv4_number_spec(parts[i])->0)
}

/// WHATWG IPv4 classification of an authority: when the last label
/// (after dropping one trailing dot) ends in a number, the whole authority
/// must be one to four dot-separated numbers, every one but the last below
/// 256 and the last filling the remaining bytes; the address is the leading
/// parts as the high bytes plus the last part.
pub open spec fn ipv4_authority(host: Seq<u8>) -> Ipv4Authority {
    let parts = split_on(ipv4_candidate(host), 0x2e);
    if !ends_in_number_spec(parts.last()) {
        Ipv4Authority::NotIpv4
    } else if parts.len() > 4 || exists|i: int| 0 <= i < parts.len() && (#[trigger] parts[i]).len()
        == 0 {
        Ipv4Authority::Invalid
    } else if !parts_in_range(parts) {
        Ipv4Authority::Invalid
    } else {
        let nums = part_values(parts);
        Ipv4Authority::Address(
            (leading_value(nums, parts.len() - 1) + nums[parts.len() - 1]) as u32,
        )
    }
}

proof fn lemma_leading_bound(nums: Seq<u64>, k: int)
    requires
        0 <= k <= 3,
        k <= nums.len(),
        forall|i: int| 0 <= i < k ==> #[trigger] nums[i] < 256,
    ensures
        leading_value(nums, k) + last_part_bound(k + 1) <= 4294967296,
    decreases k,
{
    if k > 0 {
        lemma_leading_bound(nums, k - 1);
        let x = nums[k - 1] as nat;
        let w = part_weight(k - 1);
        assert(x < 256);
        assert(w == last_part_bound(k + 1));
        assert(last_part_bound(k) == 256 * w);
        assert(x * w <= 255 * w) by (nonlinear_arith)
            requires
                x < 256,
        ;
    }
}

/// WHATWG IPv4 parsing for special-scheme authorities.
pub fn parse_ipv4_authority(host: &[u8]) -> (res: Ipv4Authority)
    ensures
        res == ipv4_authority(host@),
{
    let hlen = host.len();
    let candidate: &[u8] = if hlen > 0 && host[hlen - 1] == 0x2e {
        &host[0..hlen - 1]
    } else {
        host
    };
    assert(candidate@ == ipv4_candidate(host@));
    let parts = split_bytes(candidate, 0x2e);
    let ghost sparts = split_on(candidate@, 0x2e);
    proof {
        lemma_split_nonempty(candidate@, 0x2e);
    }
    let n = parts.len();
    assert(parts@[n - 1]@ == sparts.last());
    if !ends_in_number(parts[n - 1].as_slice()) {
        return Ipv4Authority::NotIpv4;
    }
    if n > 4 {
        return Ipv4Authority::Invalid;
    }
    let mut k: usize = 0;
    while k < n
        invariant
            n == parts@.len(),
            n == sparts.len(),
            sparts == split_on(ipv4_candidate(host@), 0x2e),
            k <= n,
            n <= 4,
            ends_in_number_spec(sparts.last()),
            forall|j: int| 0 <= j < n ==> (#[trigger] parts@[j])@ == sparts[j],
            forall|j: int| 0 <= j < k ==> (#[trigger] sparts[j]).len() != 0,
        decreases n - k,
    {
        if parts[k].len() == 0 {
            assert(sparts[k as int].len() == 0);
            return Ipv4Authority::Invalid;
        }
        k += 1;
    }
    let mut address: u64 = 0;
    let mut nums: Vec<u64> = Vec::new();
    let mut i: usize = 0;
    while i < n
        invariant
            n == parts@.len(),
            n == sparts.len(),
            sparts == split_on(ipv4_candidate(host@), 0x2e),
            1 <= n <= 4,
            i < n,
            ends_in_number_spec(sparts.last()),
            forall|j: int| 0 <= j < n ==> (#[trigger] sparts[j]).len() != 0,
            forall|j: int| 0 <= j < n ==> (#[trigger] parts@[j])@ == sparts[j],
            nums@.len() == i,
            forall|j: int|
                0 <= j < i ==> ipv4_number_spec(#[trigger] sparts[j]) == Some(nums@[j]) && nums@[j]
                    < (if j == n - 1 {
                    last_part_bound(n as int)
                } else {
                    256
                }),
            i < n ==> address == leading_value(nums@, i as int),
            i <= 3,
        decreases n - i,
    {
        let value = match ipv4_number(parts[i].as_slice()) {
            Some(v) => v,
            None => {
                assert(ipv4_number_spec(sparts[i as int]) is None);
                assert(!parts_in_range(sparts));
                return Ipv4Authority::Invalid;
            },
        };
        let max: u64 = if i == n - 1 {
            if n == 1 {
                4294967296
            } else if n == 2 {
                16777216
            } else if n == 3 {
                65536
            } else {
                256
            }
        } else {
            256
        };
        if value >= max {
            assert(ipv4_number_spec(sparts[i as int]) == Some(value));
            assert(!parts_in_range(sparts));
            return Ipv4Authority::Invalid;
        }
        let ghost old_nums = nums@;
        nums.push(value);
        proof {
            assert forall|j: int| 0 <= j < i implies #[trigger] nums@[j] < 256 by {
                assert(ipv4_number_spec(sparts[j]) is Some);
                assert(j != n - 1);
            }
            lemma_leading_bound(nums@, i as int);
            lemma_leading_stable(nums@, i as int);
            lemma_leading_stable(old_nums, i as int);
            assert(nums@.subrange(0, i as int) =~= old_nums.subrange(0, i as int));
        }
        if i == n - 1 {
            proof {
                assert(leading_value(nums@, i as int) == address);
                assert forall|j: int| 0 <= j < n implies #[trigger] ipv4_number_spec(sparts[j])
                    is Some && ipv4_number_spec(sparts[j])->0 < (if j == sparts.len() - 1 {
                    last_part_bound(sparts.len() as int)
                } else {
                    256
                }) by {}
                assert(part_values(sparts) =~= nums@);
                lemma_leading_stable(nums@, i as int);
            }
            return Ipv4Authority::Address((address + value) as u32);
        }
        let weight: u64 = if i == 0 {
            16777216
        } else if i == 1 {
            65536
        } else {
            256
        };
        proof {
            lemma_leading_stable(nums@, i as int);
            assert(value * weight <= 255 * 16777216) by (nonlinear_arith)
                requires
                    value < 256,
                    weight <= 16777216,
            ;
        }
        address = address + value * weight;
        i += 1;
    }
    Ipv4Authority::Invalid
}

/// `leading_value` reads only the parts before `k`.
proof fn lemma_leading_stable(nums: Seq<u64>, k: int)
    requires
        0 <= k <= nums.len(),
    ensures
        leading_value(nums, k) == leading_value(nums.subrange(0, k), k),
    decreases k,
{
    if k > 0 {
        lemma_leading_stable(nums, k - 1);
        lemma_leading_stable(nums.subrange(0, k), k - 1);
        assert(nums.subrange(0, k).subrange(0, k - 1) =~= nums.subrange(0, k - 1));
    }
}

/// Decimal digits of a number, without leading zeros.
pub open spec fn decimal(n: nat) -> Seq<u8>
    decreases n,
{
    if n < 10 {
        seq![(0x30 + n) as u8]
    } else {
        decimal(n / 10) + seq![(0x30 + n % 10) as u8]
    }
}

/// Dotted-quad form of an IPv4 address.
pub open spec fn dotted_quad(a: u32) -> Seq<u8> {
    decimal((a / 16777216) as nat) + seq![0x2eu8] + decimal(((a / 65536) % 256) as nat) + seq![
        0x2eu8,
    ] + decimal(((a / 256) % 256) as nat) + seq![0x2eu8] + decimal((a % 256) as nat)
}

fn push_decimal(out: &mut Vec<u8>, v: u8)
    ensures
        final(out)@ == old(out)@ + decimal(v as nat),
{
    proof {
        reveal_with_fuel(decimal, 3);
    }
    if v >= 100 {
        out.push(0x30 + v / 100);
        out.push(0x30 + (v / 10) % 10);
        out.push(0x30 + v % 10);
        assert(decimal(v as nat) =~= seq![(0x30 + v / 100) as u8, (0x30 + (v / 10) % 10) as u8, (0x30 + v % 10) as u8]);
    } else if v >= 10 {
        out.push(0x30 + v / 10);
        out.push(0x30 + v % 10);
        assert(decimal(v as nat) =~= seq![(0x30 + v / 10) as u8, (0x30 + v % 10) as u8]);
    } else {
        out.push(0x30 + v);
        assert(decimal(v as nat) =~= seq![(0x30 + v) as u8]);
    }
}

/// Writes an address in dotted-quad form.
pub fn format_ipv4(a: u32) -> (res: Vec<u8>)
    ensures
        res@ == dotted_quad(a),
{
    let mut out: Vec<u8> = Vec::new();
    push_decimal(&mut out, (a / 16777216) as u8);
    out.push(0x2e);
    push_decimal(&mut out, ((a / 65536) % 256) as u8);
    out.push(0x2e);
    push_decimal(&mut out, ((a / 256) % 256) as u8);
    out.push(0x2e);
    push_decimal(&mut out, (a % 256) as u8);
    assert(out@ =~= dotted_quad(a));
    out
}

} // verus!
