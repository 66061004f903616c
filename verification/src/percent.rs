//! Percent-encoding: `%XX` escapes, decoding and encoding.

use vstd::prelude::*;
use vstd::utf8::*;
use crate::text::text_from_utf8;

verus! {

broadcast use {vstd::seq::group_seq_axioms, vstd::seq_lib::group_seq_properties};

/// The value of an ASCII hexadecimal digit, either case.
pub open spec fn hex_value(byte: u8) -> Option<u8> {
    if 0x30 <= byte <= 0x39 {
        Some((byte - 0x30) as u8)
    } else if 0x61 <= byte <= 0x66 {
        Some((byte - 0x61 + 10) as u8)
    } else if 0x41 <= byte <= 0x46 {
        Some((byte - 0x41 + 10) as u8)
    } else {
        None
    }
}

/// The value of a hexadecimal digit.
pub fn hex_digit(byte: u8) -> (res: Option<u8>)
    ensures
        res == hex_value(byte),
{
    if 0x30 <= byte && byte <= 0x39 {
        Some(byte - 0x30)
    } else if 0x61 <= byte && byte <= 0x66 {
        Some(byte - 0x61 + 10)
    } else if 0x41 <= byte && byte <= 0x46 {
        Some(byte - 0x41 + 10)
    } else {
        None
    }
}


/// The byte that the `%XX` escape beginning at `i` denotes, or `None` when
/// the two bytes after `i` are not both hexadecimal digits. The byte at `i`
/// itself is not inspected.
pub open spec fn escape_at(s: Seq<u8>, i: int) -> Option<u8> {
    if 0 <= i && i + 2 < s.len() && hex_value(s[i + 1]) is Some && hex_value(s[i + 2]) is Some {
        Some((hex_value(s[i + 1])->0 * 16 + hex_value(s[i + 2])->0) as u8)
    } else {
        None
    }
}

/// Decodes the `%XX` escape at `index`; `None` when it is malformed.
pub fn hex_byte(bytes: &[u8], index: usize) -> (res: Option<u8>)
    requires
        index <= bytes@.len(),
    ensures
        res == escape_at(bytes@, index as int),
{
    if bytes.len() - index < 3 {
        return None;
    }
    match (hex_digit(bytes[index + 1]), hex_digit(bytes[index + 2])) {
        (Some(high), Some(low)) => Some(high * 16 + low),
        _ => None,
    }
}

/// Lenient percent-decoding: every well-formed `%XX` escape becomes the byte
/// it denotes, and every other byte (a `%` not followed by two hexadecimal
/// digits included) is copied through.
pub open spec fn percent_decoded(s: Seq<u8>) -> Seq<u8>
    decreases s.len(),
{
    if s.len() == 0 {
        seq![]
    } else if s[0] == 0x25 && escape_at(s, 0) is Some {
        seq![escape_at(s, 0)->0] + percent_decoded(s.subrange(3, s.len() as int))
    } else {
        seq![s[0]] + percent_decoded(s.subrange(1, s.len() as int))
    }
}

/// Index of the first occurrence of `needle` in `haystack`, through
/// `memchr::memchr`. Its documentation states exactly this: the returned
/// index is the first occurrence and lies inside the slice, and `None` means
/// that the byte does not occur.
#[verifier::external_body]
pub fn memchr_first(needle: u8, haystack: &[u8]) -> (res: Option<usize>)
    ensures
        match res {
            Some(i) => i < haystack@.len() && haystack@[i as int] == needle && forall|j: int|
                0 <= j < i ==> haystack@[j] != needle,
            None => forall|j: int| 0 <= j < haystack@.len() ==> haystack@[j] != needle,
        },
{
    memchr::memchr(needle, haystack)
}

/// Bytes before the first `%` are copied through by the decoder.
pub proof fn lemma_decoded_prefix(s: Seq<u8>, i: int)
    requires
        0 <= i <= s.len(),
        forall|j: int| 0 <= j < i ==> s[j] != 0x25,
    ensures
        percent_decoded(s) == s.subrange(0, i) + percent_decoded(s.subrange(i, s.len() as int)),
    decreases i,
{
    if i == 0 {
        assert(s.subrange(0, s.len() as int) =~= s);
        assert(s.subrange(0, 0) + percent_decoded(s) =~= percent_decoded(s));
    } else {
        let rest = s.subrange(1, s.len() as int);
        assert forall|j: int| 0 <= j < i - 1 implies rest[j] != 0x25 by {
            assert(rest[j] == s[j + 1]);
        }
        lemma_decoded_prefix(rest, i - 1);
        assert(rest.subrange(i - 1, rest.len() as int) =~= s.subrange(i, s.len() as int));
        assert(s.subrange(0, i) =~= seq![s[0]] + rest.subrange(0, i - 1));
    }
}

/// Percent-decodes one URL component and validates the decoded bytes as
/// UTF-8; `None` when they are not valid UTF-8.
pub fn percent_decode(input: &[u8]) -> (res: Option<String>)
    ensures
        res is Some <==> valid_utf8(percent_decoded(input@)),
        res matches Some(text) ==> text@ == decode_utf8(percent_decoded(input@)),
{
    let len = input.len();
    let first = memchr_first(0x25, input);
    let mut index = match first {
        None => {
            proof {
                lemma_decoded_prefix(input@, len as int);
                assert(input@.subrange(0, len as int) =~= input@);
                assert(input@.subrange(len as int, len as int) =~= Seq::<u8>::empty());
            }
            return text_from_utf8(input);
        },
        Some(index) => index,
    };
    proof {
        lemma_decoded_prefix(input@, index as int);
    }
    let mut decoded: Vec<u8> = Vec::with_capacity(len);
    decoded.extend_from_slice(&input[0..index]);
    while index < len
        invariant
            len == input@.len(),
            index <= len,
            percent_decoded(input@) == decoded@ + percent_decoded(
                input@.subrange(index as int, len as int),
            ),
        decreases len - index,
    {
        let ghost rest = input@.subrange(index as int, len as int);
        if input[index] == 0x25 {
            if let Some(byte) = hex_byte(input, index) {
                proof {
                    assert(escape_at(rest, 0) == escape_at(input@, index as int));
                    assert(rest.subrange(3, rest.len() as int) =~= input@.subrange(
                        index + 3,
                        len as int,
                    ));
                    assert(decoded@.push(byte) + percent_decoded(input@.subrange(index + 3, len as int))
                        =~= decoded@ + (seq![byte] + percent_decoded(input@.subrange(index + 3, len as int))));
                }
                decoded.push(byte);
                index += 3;
                continue;
            }
        }
        proof {
            assert(escape_at(rest, 0) == escape_at(input@, index as int));
            assert(rest.subrange(1, rest.len() as int) =~= input@.subrange(index + 1, len as int));
            assert(decoded@.push(input@[index as int]) + percent_decoded(input@.subrange(index + 1, len as int))
                =~= decoded@ + (seq![input@[index as int]] + percent_decoded(input@.subrange(index + 1, len as int))));
        }
        decoded.push(input[index]);
        index += 1;
    }
    proof {
        assert(input@.subrange(len as int, len as int) =~= Seq::<u8>::empty());
        assert(decoded@ + Seq::<u8>::empty() =~= decoded@);
    }
    text_from_utf8(&decoded)
}

/// Bytes that percent-encoding leaves alone: ASCII letters and digits and
/// `-` `.` `_` `~`.
pub open spec fn is_unreserved(byte: u8) -> bool {
    ||| 0x30 <= byte <= 0x39
    ||| 0x41 <= byte <= 0x5a
    ||| 0x61 <= byte <= 0x7a
    ||| byte == 0x2d
    ||| byte == 0x2e
    ||| byte == 0x5f
    ||| byte == 0x7e
}

/// The uppercase hexadecimal digit of a value below 16.
pub open spec fn upper_hex_digit(value: u8) -> u8 {
    if value < 10 {
        (0x30 + value) as u8
    } else {
        (0x41 + value - 10) as u8
    }
}

/// The `%XX` escape of a byte, uppercase.
pub open spec fn escape_of(byte: u8) -> Seq<u8> {
    seq![0x25u8, upper_hex_digit(byte / 16), upper_hex_digit(byte % 16)]
}

/// Percent-encoding: unreserved bytes and the bytes of `extra` are kept,
/// every other byte becomes its uppercase `%XX` escape.
pub open spec fn percent_encoded(s: Seq<u8>, extra: Seq<u8>) -> Seq<u8>
    decreases s.len(),
{
    if s.len() == 0 {
        seq![]
    } else {
        (if is_unreserved(s[0]) || extra.contains(s[0]) {
            seq![s[0]]
        } else {
            escape_of(s[0])
        }) + percent_encoded(s.subrange(1, s.len() as int), extra)
    }
}

/// Percent-encoding of a suffix, one byte further.
proof fn lemma_encoded_step(s: Seq<u8>, i: int, extra: Seq<u8>)
    requires
        0 <= i < s.len(),
    ensures
        percent_encoded(s.subrange(i, s.len() as int), extra) == (if is_unreserved(s[i])
            || extra.contains(s[i]) {
            seq![s[i]]
        } else {
            escape_of(s[i])
        }) + percent_encoded(s.subrange(i + 1, s.len() as int), extra),
{
    let rest = s.subrange(i, s.len() as int);
    assert(rest[0] == s[i]);
    assert(rest.subrange(1, rest.len() as int) =~= s.subrange(i + 1, s.len() as int));
}

fn upper_hex(value: u8) -> (res: u8)
    requires
        value < 16,
    ensures
        res == upper_hex_digit(value),
{
    if value < 10 {
        0x30 + value
    } else {
        0x41 + value - 10
    }
}

fn is_unreserved_byte(byte: u8) -> (res: bool)
    ensures
        res == is_unreserved(byte),
{
    (0x30 <= byte && byte <= 0x39) || (0x41 <= byte && byte <= 0x5a) || (0x61 <= byte && byte
        <= 0x7a) || byte == 0x2d || byte == 0x2e || byte == 0x5f || byte == 0x7e
}

fn contains_byte(set: &[u8], byte: u8) -> (res: bool)
    ensures
        res == set@.contains(byte),
{
    let mut i: usize = 0;
    while i < set.len()
        invariant
            i <= set@.len(),
            forall|j: int| 0 <= j < i ==> set@[j] != byte,
        decreases set@.len() - i,
    {
        if set[i] == byte {
            return true;
        }
        i += 1;
    }
    false
}

/// Percent-encodes `input`: unreserved ASCII and the bytes of
/// `extra_allowed` stay, everything else becomes `%XX` with uppercase hex.
pub fn percent_encode(input: &[u8], extra_allowed: &[u8]) -> (res: Vec<u8>)
    ensures
        res@ == percent_encoded(input@, extra_allowed@),
{
    let len = input.len();
    let mut encoded: Vec<u8> = Vec::with_capacity(len);
    let mut i: usize = 0;
    proof {
        assert(input@.subrange(0, len as int) =~= input@);
    }
    while i < len
        invariant
            len == input@.len(),
            i <= len,
            percent_encoded(input@, extra_allowed@) == encoded@ + percent_encoded(
                input@.subrange(i as int, len as int),
                extra_allowed@,
            ),
        decreases len - i,
    {
        let byte = input[i];
        proof {
            lemma_encoded_step(input@, i as int, extra_allowed@);
        }
        let ghost before = encoded@;
        if is_unreserved_byte(byte) || contains_byte(extra_allowed, byte) {
            encoded.push(byte);
            proof {
                assert(encoded@ =~= before + seq![byte]);
            }
        } else {
            encoded.push(0x25);
            encoded.push(upper_hex(byte / 16));
            encoded.push(upper_hex(byte % 16));
            proof {
                assert(encoded@ =~= before + escape_of(byte));
            }
        }
        i += 1;
    }
    proof {
        assert(input@.subrange(len as int, len as int) =~= Seq::<u8>::empty());
    }
    encoded
}


/// Percent-encoding with ASCII extra bytes yields ASCII.
pub proof fn lemma_encoded_ascii(s: Seq<u8>, extra: Seq<u8>)
    requires
        forall|i: int| 0 <= i < extra.len() ==> #[trigger] extra[i] < 0x80,
    ensures
        crate::text::all_ascii(percent_encoded(s, extra)),
    decreases s.len(),
{
    if s.len() > 0 {
        let rest = s.subrange(1, s.len() as int);
        lemma_encoded_ascii(rest, extra);
        let head = if is_unreserved(s[0]) || extra.contains(s[0]) {
            seq![s[0]]
        } else {
            escape_of(s[0])
        };
        if !is_unreserved(s[0]) && extra.contains(s[0]) {
            let k = choose|k: int| 0 <= k < extra.len() && extra[k] == s[0];
            assert(extra[k] < 0x80);
        }
        assert(crate::text::all_ascii(head));
        assert(percent_encoded(s, extra) == head + percent_encoded(rest, extra));
    }
}

/// Text without `%` decodes to itself.
pub proof fn law_decoding_without_escapes(s: Seq<u8>)
    requires
        !s.contains(0x25),
    ensures
        percent_decoded(s) == s,
{
    assert forall|j: int| 0 <= j < s.len() implies s[j] != 0x25 by {
        if s[j] == 0x25 {
            assert(s.contains(0x25));
        }
    }
    lemma_decoded_prefix(s, s.len() as int);
    assert(s.subrange(0, s.len() as int) =~= s);
    assert(s.subrange(s.len() as int, s.len() as int) =~= Seq::<u8>::empty());
    assert(percent_decoded(Seq::<u8>::empty()) =~= Seq::<u8>::empty());
}

} // verus!
