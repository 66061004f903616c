//! UTF-8 text: validation through `simdutf8`, and the facts about valid
//! UTF-8 byte sequences that the converters rely on.

use vstd::prelude::*;
use vstd::utf8::*;

verus! {

broadcast use {vstd::seq::group_seq_axioms, vstd::seq_lib::group_seq_properties};

/// True when every byte of `s` is ASCII.
pub open spec fn all_ascii(s: Seq<u8>) -> bool {
    forall|i: int| 0 <= i < s.len() ==> #[trigger] s[i] < 0x80
}

/// Validates `bytes` as UTF-8 with `simdutf8::basic::from_utf8`, copying
/// the text out on success. The contract claims what that function's
/// documentation states: it is the analogue of `std::str::from_utf8`, so it
/// succeeds exactly on valid UTF-8, and the text it returns is the decoding
/// of the bytes.
#[verifier::external_body]
pub fn text_from_utf8(bytes: &[u8]) -> (res: Option<String>)
    ensures
        res is Some <==> valid_utf8(bytes@),
        res matches Some(s) ==> s@ == decode_utf8(bytes@),
{
    match simdutf8::basic::from_utf8(bytes) {
        Ok(text) => Some(text.to_owned()),
        Err(_) => None,
    }
}

/// An ASCII byte inside valid UTF-8 is followed by the start of a scalar.
proof fn lemma_after_ascii_not_continuation(s: Seq<u8>, i: int)
    requires
        valid_utf8(s),
        0 <= i < s.len(),
        s[i] < 0x80,
    ensures
        i + 1 < s.len() ==> !is_continuation_byte(s[i + 1]),
    decreases s.len(),
{
    let k = length_of_first_scalar(s);
    let rest = pop_first_scalar(s);
    if i < k {
        if i + 1 < s.len() {
            assert(k == 1);
            assert(rest.len() > 0);
            reveal_with_fuel(valid_utf8, 2);
            assert(valid_first_scalar(rest));
            assert(rest[0] == s[1]);
        }
    } else {
        assert(rest[i - k] == s[i]);
        lemma_after_ascii_not_continuation(rest, i - k);
        if i + 1 < s.len() {
            assert(rest[i - k + 1] == s[i + 1]);
        }
    }
}

/// True when `i` cuts `s` next to an ASCII byte (or at an end).
pub open spec fn ascii_cut(s: Seq<u8>, i: int) -> bool {
    ||| i == 0
    ||| i == s.len()
    ||| (0 <= i < s.len() && s[i] < 0x80)
    ||| (0 < i <= s.len() && s[i - 1] < 0x80)
}

/// A cut next to an ASCII byte is a character boundary.
pub proof fn lemma_ascii_cut_boundary(s: Seq<u8>, i: int)
    requires
        valid_utf8(s),
        0 <= i <= s.len(),
        ascii_cut(s, i),
    ensures
        is_char_boundary(s, i),
{
    is_char_boundary_start_end_of_seq(s);
    if i == 0 || i == s.len() {
    } else if s[i] < 0x80 {
        is_char_boundary_iff_not_is_continuation_byte(s, i);
    } else {
        lemma_after_ascii_not_continuation(s, i - 1);
        is_char_boundary_iff_not_is_continuation_byte(s, i);
    }
}

/// The part of valid UTF-8 between two ASCII cuts is valid UTF-8.
pub proof fn lemma_ascii_cut_subrange_valid(s: Seq<u8>, i: int, j: int)
    requires
        valid_utf8(s),
        0 <= i <= j <= s.len(),
        ascii_cut(s, i),
        ascii_cut(s, j),
    ensures
        valid_utf8(s.subrange(i, j)),
{
    lemma_ascii_cut_boundary(s, j);
    valid_utf8_split(s, j);
    let head = s.subrange(0, j);
    assert(ascii_cut(head, i)) by {
        if 0 <= i < j && s[i] < 0x80 {
            assert(head[i] == s[i]);
        }
        if 0 < i <= j && s[i - 1] < 0x80 {
            assert(head[i - 1] == s[i - 1]);
        }
    }
    lemma_ascii_cut_boundary(head, i);
    valid_utf8_split(head, i);
    assert(head.subrange(i, head.len() as int) =~= s.subrange(i, j));
}

/// ASCII bytes are valid UTF-8.
pub proof fn lemma_ascii_valid(s: Seq<u8>)
    requires
        all_ascii(s),
    ensures
        valid_utf8(s),
    decreases s.len(),
{
    if s.len() > 0 {
        assert(s[0] < 0x80);
        let rest = s.subrange(1, s.len() as int);
        assert(pop_first_scalar(s) =~= rest);
        assert forall|i: int| 0 <= i < rest.len() implies #[trigger] rest[i] < 0x80 by {
            assert(rest[i] == s[i + 1]);
        }
        lemma_ascii_valid(rest);
    }
}

/// ASCII decimal digit.
pub open spec fn is_digit(b: u8) -> bool {
    0x30 <= b <= 0x39
}

/// ASCII hexadecimal digit, either case.
pub open spec fn is_hex(b: u8) -> bool {
    is_digit(b) || 0x41 <= b <= 0x46 || 0x61 <= b <= 0x66
}

/// ASCII letter.
pub open spec fn is_alpha(b: u8) -> bool {
    0x41 <= b <= 0x5a || 0x61 <= b <= 0x7a
}

/// ASCII lowercase of a byte; other bytes are unchanged.
pub open spec fn ascii_lower(b: u8) -> u8 {
    if 0x41 <= b <= 0x5a {
        (b + 32) as u8
    } else {
        b
    }
}

pub fn is_digit_byte(b: u8) -> (res: bool)
    ensures
        res == is_digit(b),
{
    0x30 <= b && b <= 0x39
}

pub fn is_hex_byte(b: u8) -> (res: bool)
    ensures
        res == is_hex(b),
{
    (0x30 <= b && b <= 0x39) || (0x41 <= b && b <= 0x46) || (0x61 <= b && b <= 0x66)
}

pub fn is_alpha_byte(b: u8) -> (res: bool)
    ensures
        res == is_alpha(b),
{
    (0x41 <= b && b <= 0x5a) || (0x61 <= b && b <= 0x7a)
}

pub fn lower_byte(b: u8) -> (res: u8)
    ensures
        res == ascii_lower(b),
{
    if 0x41 <= b && b <= 0x5a {
        b + 32
    } else {
        b
    }
}

/// ASCII case-insensitive equality of byte strings (what
/// `eq_ignore_ascii_case` computes).
pub open spec fn eq_ignore_case(a: Seq<u8>, b: Seq<u8>) -> bool {
    a.len() == b.len() && forall|i: int| 0 <= i < a.len() ==> ascii_lower(#[trigger] a[i])
        == ascii_lower(b[i])
}

pub fn eq_ignore_ascii_case(a: &[u8], b: &[u8]) -> (res: bool)
    ensures
        res == eq_ignore_case(a@, b@),
{
    if a.len() != b.len() {
        return false;
    }
    let mut i: usize = 0;
    while i < a.len()
        invariant
            a@.len() == b@.len(),
            i <= a@.len(),
            forall|j: int| 0 <= j < i ==> ascii_lower(#[trigger] a@[j]) == ascii_lower(b@[j]),
        decreases a@.len() - i,
    {
        if lower_byte(a[i]) != lower_byte(b[i]) {
            return false;
        }
        i += 1;
    }
    true
}

/// The pieces of `s` between occurrences of `sep` (what `split` yields):
/// always at least one piece, an empty one for an empty input.
pub open spec fn split_on(s: Seq<u8>, sep: u8) -> Seq<Seq<u8>>
    decreases s.len(),
{
    if s.len() == 0 {
        seq![Seq::<u8>::empty()]
    } else {
        let init = split_on(s.drop_last(), sep);
        if s.last() == sep {
            init.push(Seq::<u8>::empty())
        } else {
            init.update(init.len() - 1, init.last().push(s.last()))
        }
    }
}

pub proof fn lemma_split_nonempty(s: Seq<u8>, sep: u8)
    ensures
        split_on(s, sep).len() >= 1,
    decreases s.len(),
{
    if s.len() > 0 {
        lemma_split_nonempty(s.drop_last(), sep);
    }
}

/// Splits `s` at every `sep`.
pub fn split_bytes(s: &[u8], sep: u8) -> (res: Vec<Vec<u8>>)
    ensures
        res@.len() == split_on(s@, sep).len(),
        forall|k: int| 0 <= k < res@.len() ==> (#[trigger] res@[k])@ == split_on(s@, sep)[k],
{
    let mut pieces: Vec<Vec<u8>> = Vec::new();
    let mut current: Vec<u8> = Vec::new();
    let mut i: usize = 0;
    while i < s.len()
        invariant
            i <= s@.len(),
            pieces@.len() + 1 == split_on(s@.subrange(0, i as int), sep).len(),
            forall|k: int|
                0 <= k < pieces@.len() ==> (#[trigger] pieces@[k])@ == split_on(
                    s@.subrange(0, i as int),
                    sep,
                )[k],
            current@ == split_on(s@.subrange(0, i as int), sep).last(),
        decreases s@.len() - i,
    {
        let ghost prefix = s@.subrange(0, i as int);
        let ghost next = s@.subrange(0, i + 1);
        proof {
            assert(next.drop_last() =~= prefix);
            lemma_split_nonempty(prefix, sep);
        }
        if s[i] == sep {
            pieces.push(current);
            current = Vec::new();
        } else {
            current.push(s[i]);
        }
        i += 1;
    }
    proof {
        assert(s@.subrange(0, s@.len() as int) =~= s@);
        lemma_split_nonempty(s@, sep);
    }
    pieces.push(current);
    pieces
}


/// Position of the first `a` or `b` at or after `i`.
pub open spec fn find_either(s: Seq<u8>, a: u8, b: u8, i: int) -> Option<int>
    decreases s.len() - i,
{
    if i < 0 || i >= s.len() {
        None
    } else if s[i] == a || s[i] == b {
        Some(i)
    } else {
        find_either(s, a, b, i + 1)
    }
}

/// Position of the first `a` or `b` in `s`.
pub open spec fn first_of(s: Seq<u8>, a: u8, b: u8) -> Option<int> {
    find_either(s, a, b, 0)
}

pub proof fn lemma_find_either(s: Seq<u8>, a: u8, b: u8, i: int)
    requires
        0 <= i,
    ensures
        match find_either(s, a, b, i) {
            Some(k) => i <= k < s.len() && (s[k] == a || s[k] == b) && forall|j: int|
                i <= j < k ==> s[j] != a && s[j] != b,
            None => forall|j: int| i <= j < s.len() ==> s[j] != a && s[j] != b,
        },
    decreases s.len() - i,
{
    if i < s.len() && !(s[i] == a || s[i] == b) {
        lemma_find_either(s, a, b, i + 1);
    }
}

/// Position of the first `a` or `b` in `s`.
pub fn find_either_byte(s: &[u8], a: u8, b: u8) -> (res: Option<usize>)
    ensures
        match first_of(s@, a, b) {
            Some(k) => res matches Some(r) && r == k,
            None => res is None,
        },
        match res {
            Some(r) => r < s@.len() && (s@[r as int] == a || s@[r as int] == b) && forall|j: int|
                0 <= j < r ==> s@[j] != a && s@[j] != b,
            None => forall|j: int| 0 <= j < s@.len() ==> s@[j] != a && s@[j] != b,
        },
{
    let mut i: usize = 0;
    proof {
        lemma_find_either(s@, a, b, 0);
    }
    while i < s.len()
        invariant
            i <= s@.len(),
            find_either(s@, a, b, 0) == find_either(s@, a, b, i as int),
            forall|j: int| 0 <= j < i ==> s@[j] != a && s@[j] != b,
        decreases s@.len() - i,
    {
        if s[i] == a || s[i] == b {
            return Some(i);
        }
        i += 1;
    }
    None
}

/// `s` with every `from` byte replaced by `to`.
pub open spec fn replaced(s: Seq<u8>, from: u8, to: u8) -> Seq<u8> {
    Seq::new(s.len(), |i: int| if s[i] == from { to } else { s[i] })
}

pub fn replace_byte(s: &[u8], from: u8, to: u8) -> (res: Vec<u8>)
    ensures
        res@ == replaced(s@, from, to),
{
    let mut out: Vec<u8> = Vec::with_capacity(s.len());
    let mut i: usize = 0;
    while i < s.len()
        invariant
            i <= s@.len(),
            out@ == replaced(s@, from, to).subrange(0, i as int),
        decreases s@.len() - i,
    {
        out.push(if s[i] == from {
            to
        } else {
            s[i]
        });
        i += 1;
        proof {
            assert(out@ =~= replaced(s@, from, to).subrange(0, i as int));
        }
    }
    proof {
        assert(replaced(s@, from, to).subrange(0, s@.len() as int) =~= replaced(s@, from, to));
    }
    out
}

/// `s` without its ASCII tab, line feed and carriage return bytes.
pub open spec fn without_tabs_and_newlines(s: Seq<u8>) -> Seq<u8>
    decreases s.len(),
{
    if s.len() == 0 {
        seq![]
    } else {
        let init = without_tabs_and_newlines(s.drop_last());
        if s.last() == 0x09 || s.last() == 0x0a || s.last() == 0x0d {
            init
        } else {
            init.push(s.last())
        }
    }
}

pub fn strip_tabs_and_newlines(s: &[u8]) -> (res: Vec<u8>)
    ensures
        res@ == without_tabs_and_newlines(s@),
{
    let mut out: Vec<u8> = Vec::with_capacity(s.len());
    let mut i: usize = 0;
    while i < s.len()
        invariant
            i <= s@.len(),
            out@ == without_tabs_and_newlines(s@.subrange(0, i as int)),
        decreases s@.len() - i,
    {
        proof {
            assert(s@.subrange(0, i + 1).drop_last() =~= s@.subrange(0, i as int));
        }
        let b = s[i];
        if !(b == 0x09 || b == 0x0a || b == 0x0d) {
            out.push(b);
        }
        i += 1;
    }
    proof {
        assert(s@.subrange(0, s@.len() as int) =~= s@);
    }
    out
}

/// Copies a slice.
pub fn copy_bytes(s: &[u8]) -> (res: Vec<u8>)
    ensures
        res@ == s@,
{
    let mut out: Vec<u8> = Vec::with_capacity(s.len());
    out.extend_from_slice(s);
    out
}

/// Whether `s` holds the byte `b`.
pub fn holds_byte(s: &[u8], b: u8) -> (res: bool)
    ensures
        res == s@.contains(b),
{
    let mut i: usize = 0;
    while i < s.len()
        invariant
            i <= s@.len(),
            forall|j: int| 0 <= j < i ==> s@[j] != b,
        decreases s@.len() - i,
    {
        if s[i] == b {
            assert(s@[i as int] == b);
            return true;
        }
        i += 1;
    }
    false
}


/// Replacing an ASCII byte by another ASCII byte keeps UTF-8 valid.
pub proof fn lemma_replaced_valid(s: Seq<u8>, from: u8, to: u8)
    requires
        valid_utf8(s),
        from < 0x80,
        to < 0x80,
    ensures
        valid_utf8(replaced(s, from, to)),
    decreases s.len(),
{
    let r = replaced(s, from, to);
    if s.len() > 0 {
        let k = length_of_first_scalar(s);
        let rest = pop_first_scalar(s);
        lemma_replaced_valid(rest, from, to);
        if s[0] == from {
            assert(k == 1);
            assert(r[0] == to);
        } else {
            assert forall|j: int| 0 <= j < k implies r[j] == s[j] by {
                if j > 0 {
                    assert(is_continuation_byte(s[j]));
                }
            }
        }
        assert(valid_first_scalar(r));
        assert(length_of_first_scalar(r) == k);
        assert(pop_first_scalar(r) =~= replaced(rest, from, to));
    }
}

/// Concatenation of two valid pieces is valid.
pub proof fn lemma_valid_concat(a: Seq<u8>, b: Seq<u8>)
    requires
        valid_utf8(a),
        valid_utf8(b),
    ensures
        valid_utf8(a + b),
{
    valid_utf8_concat(a, b);
}


/// Encoding distributes over concatenation.
pub proof fn lemma_encode_concat(a: Seq<char>, b: Seq<char>)
    ensures
        encode_utf8(a + b) == encode_utf8(a) + encode_utf8(b),
    decreases a.len(),
{
    if a.len() == 0 {
        assert(a + b =~= b);
    } else {
        lemma_encode_concat(a.drop_first(), b);
        assert((a + b).drop_first() =~= a.drop_first() + b);
        assert((a + b)[0] == a[0]);
    }
}

/// `s` begins with `prefix`.
pub open spec fn starts_with(s: Seq<u8>, prefix: Seq<u8>) -> bool {
    s.len() >= prefix.len() && s.subrange(0, prefix.len() as int) == prefix
}

/// Whether `s` begins with `prefix`.
pub fn has_prefix(s: &[u8], prefix: &[u8]) -> (res: bool)
    ensures
        res == starts_with(s@, prefix@),
{
    if s.len() < prefix.len() {
        return false;
    }
    let mut i: usize = 0;
    while i < prefix.len()
        invariant
            s@.len() >= prefix@.len(),
            i <= prefix@.len(),
            forall|j: int| 0 <= j < i ==> s@[j] == prefix@[j],
        decreases prefix@.len() - i,
    {
        if s[i] != prefix[i] {
            assert(s@.subrange(0, prefix@.len() as int)[i as int] != prefix@[i as int]);
            return false;
        }
        i += 1;
    }
    assert(s@.subrange(0, prefix@.len() as int) =~= prefix@);
    true
}

/// Whether two byte strings are equal.
pub fn bytes_equal(a: &[u8], b: &[u8]) -> (res: bool)
    ensures
        res == (a@ == b@),
{
    if a.len() != b.len() {
        return false;
    }
    let mut i: usize = 0;
    while i < a.len()
        invariant
            a@.len() == b@.len(),
            i <= a@.len(),
            forall|j: int| 0 <= j < i ==> a@[j] == b@[j],
        decreases a@.len() - i,
    {
        if a[i] != b[i] {
            return false;
        }
        i += 1;
    }
    assert(a@ =~= b@);
    true
}

/// Two texts are equal exactly when their UTF-8 encodings are.
pub proof fn lemma_same_text(a: Seq<char>, b: Seq<char>)
    ensures
        (encode_utf8(a) == encode_utf8(b)) == (a == b),
{
    encode_utf8_decode_utf8(a);
    encode_utf8_decode_utf8(b);
}

/// Whether two strings are equal.
pub fn same_text(a: &str, b: &str) -> (res: bool)
    ensures
        res == (a@ == b@),
{
    proof {
        lemma_same_text(a@, b@);
    }
    bytes_equal(a.as_bytes(), b.as_bytes())
}

/// `s` ends with `suffix`.
pub open spec fn ends_with(s: Seq<u8>, suffix: Seq<u8>) -> bool {
    s.len() >= suffix.len() && s.subrange(s.len() - suffix.len(), s.len() as int) == suffix
}

/// Whether `s` ends with `suffix`.
pub fn has_suffix(s: &[u8], suffix: &[u8]) -> (res: bool)
    ensures
        res == ends_with(s@, suffix@),
{
    let n = s.len();
    if n < suffix.len() {
        return false;
    }
    let start = n - suffix.len();
    let mut i: usize = 0;
    while i < suffix.len()
        invariant
            n == s@.len(),
            start + suffix@.len() == n,
            i <= suffix@.len(),
            forall|j: int| 0 <= j < i ==> s@[start + j] == suffix@[j],
        decreases suffix@.len() - i,
    {
        if s[start + i] != suffix[i] {
            assert(s@.subrange(start as int, s@.len() as int)[i as int] != suffix@[i as int]);
            return false;
        }
        i += 1;
    }
    assert(s@.subrange(start as int, s@.len() as int) =~= suffix@);
    true
}

/// `needle` occurs in `s` at `i`.
pub open spec fn occurs_at(s: Seq<u8>, needle: Seq<u8>, i: int) -> bool {
    0 <= i && i + needle.len() <= s.len() && s.subrange(i, i + needle.len()) == needle
}

/// `needle` occurs somewhere in `s`.
pub open spec fn contains_bytes(s: Seq<u8>, needle: Seq<u8>) -> bool {
    exists|i: int| occurs_at(s, needle, i)
}

/// Whether `needle` occurs in `s`.
pub fn holds_bytes(s: &[u8], needle: &[u8]) -> (res: bool)
    ensures
        res == contains_bytes(s@, needle@),
{
    let n = s.len();
    if needle.len() > n {
        assert forall|i: int| !occurs_at(s@, needle@, i) by {}
        return false;
    }
    let last = n - needle.len();
    let mut i: usize = 0;
    loop
        invariant
            n == s@.len(),
            i <= last,
            last + needle@.len() == n,
            forall|k: int| 0 <= k < i ==> !occurs_at(s@, needle@, k),
        ensures
            forall|k: int| 0 <= k <= last ==> !occurs_at(s@, needle@, k),
        decreases last - i,
    {
        let mut j: usize = 0;
        let mut same = true;
        while j < needle.len()
            invariant
                n == s@.len(),
                i <= last,
                last + needle@.len() == n,
                j <= needle@.len(),
                same == (forall|m: int| 0 <= m < j ==> s@[i + m] == needle@[m]),
            decreases needle@.len() - j,
        {
            if s[i + j] != needle[j] {
                same = false;
            }
            j += 1;
        }
        if same {
            assert(s@.subrange(i as int, i + needle@.len()) =~= needle@);
            assert(occurs_at(s@, needle@, i as int));
            return true;
        }
        assert(!occurs_at(s@, needle@, i as int)) by {
            if s@.subrange(i as int, i + needle@.len()) == needle@ {
                assert forall|m: int| 0 <= m < needle@.len() implies s@[i + m] == needle@[m] by {
                    assert(s@.subrange(i as int, i + needle@.len())[m] == s@[i + m]);
                }
            }
        }
        if i == last {
            break;
        }
        i += 1;
    }
    assert forall|k: int| !occurs_at(s@, needle@, k) by {
        if 0 <= k && k + needle@.len() <= s@.len() {
            assert(k <= last);
        }
    }
    false
}

/// The text whose UTF-8 encoding is `bytes`.
pub fn text_of(bytes: &[u8]) -> (res: String)
    requires
        valid_utf8(bytes@),
    ensures
        res@ == decode_utf8(bytes@),
{
    match text_from_utf8(bytes) {
        Some(text) => text,
        None => {
            proof {
                assert(false);
            }
            String::new()
        },
    }
}

/// The UTF-8 encoding of text decoded from valid bytes is those bytes.
pub proof fn lemma_decode_encode_valid(bytes: Seq<u8>)
    requires
        valid_utf8(bytes),
    ensures
        encode_utf8(decode_utf8(bytes)) == bytes,
{
    decode_utf8_encode_utf8(bytes);
}

/// `String::push_str` appends `string` to the end of the string, as its
/// documentation states.
pub assume_specification[ String::push_str ](s: &mut String, string: &str)
    ensures
        final(s)@ == old(s)@ + string@,
;

/// `String::push` appends `ch` to the end of the string, as its
/// documentation states.
pub assume_specification[ String::push ](s: &mut String, ch: char)
    ensures
        final(s)@ == old(s)@.push(ch),
;

} // verus!
