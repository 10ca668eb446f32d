//! Cutting a `&str` at byte offsets, and the characters that its bytes
//! encode.

use vstd::prelude::*;
use vstd::string::{group_string_axioms, StringSliceAdditionalSpecFns};
use vstd::utf8::{
    decode_first_scalar, decode_utf8, encode_utf8, encode_utf8_decode_utf8, encode_utf8_valid_utf8,
    is_char_boundary, is_char_boundary_iff_not_is_continuation_byte,
    is_char_boundary_start_end_of_seq, is_leading_byte_width_1, is_leading_byte_width_2,
    is_leading_byte_width_3, length_of_first_scalar, valid_utf8, valid_utf8_split,
};

verus! {

/// In valid UTF-8 an ASCII byte is a character of its own: the index of the
/// byte and the index behind it are both character boundaries.
pub proof fn lemma_ascii_boundaries(bytes: Seq<u8>, at: int)
    requires
        valid_utf8(bytes),
        0 <= at < bytes.len(),
        bytes[at] <= 0x7f,
    ensures
        is_char_boundary(bytes, at),
        is_char_boundary(bytes, at + 1),
{
    is_char_boundary_iff_not_is_continuation_byte(bytes, at);
    valid_utf8_split(bytes, at);
    let tail = bytes.subrange(at, bytes.len() as int);
    assert(tail[0] == bytes[at]);
    let rest = bytes.subrange(at + 1, bytes.len() as int);
    assert(tail.subrange(1, tail.len() as int) =~= rest);
    assert(valid_utf8(rest));
    if at + 1 < bytes.len() {
        assert(rest[0] == bytes[at + 1]);
        is_char_boundary_iff_not_is_continuation_byte(bytes, at + 1);
    } else {
        is_char_boundary_start_end_of_seq(bytes);
    }
}

/// The bytes of a `&str` are valid UTF-8, and index 0 and the index behind
/// the last byte are character boundaries.
pub proof fn lemma_str_bytes(s: &str)
    ensures
        valid_utf8(s.spec_bytes()),
        is_char_boundary(s.spec_bytes(), 0),
        is_char_boundary(s.spec_bytes(), s.spec_bytes().len() as int),
        s@ == decode_utf8(s.spec_bytes()),
{
    encode_utf8_valid_utf8(s@);
    encode_utf8_decode_utf8(s@);
    is_char_boundary_start_end_of_seq(s.spec_bytes());
}

/// The bytes between two character boundaries of valid UTF-8 are valid
/// UTF-8.
pub proof fn lemma_part_valid(bytes: Seq<u8>, from: int, to: int)
    requires
        valid_utf8(bytes),
        0 <= from <= to <= bytes.len(),
        is_char_boundary(bytes, from),
        is_char_boundary(bytes, to),
    ensures
        valid_utf8(bytes.subrange(from, to)),
{
    valid_utf8_split(bytes, to);
    let head = bytes.subrange(0, to);
    if from < to {
        assert(head[from] == bytes[from]);
        is_char_boundary_iff_not_is_continuation_byte(bytes, from);
        is_char_boundary_iff_not_is_continuation_byte(head, from);
    } else {
        is_char_boundary_start_end_of_seq(head);
    }
    valid_utf8_split(head, from);
    assert(head.subrange(from, head.len() as int) =~= bytes.subrange(from, to));
}

/// The encoding of a text is the encoding of its first part and then the
/// encoding of the rest.
pub proof fn lemma_encode_concat(a: Seq<char>, b: Seq<char>)
    ensures
        encode_utf8(a + b) == encode_utf8(a) + encode_utf8(b),
    decreases a.len(),
{
    if a.len() == 0 {
        assert(a + b =~= b);
        assert(encode_utf8(a) + encode_utf8(b) =~= encode_utf8(b));
    } else {
        lemma_encode_concat(a.drop_first(), b);
        assert((a + b).drop_first() =~= a.drop_first() + b);
        assert(encode_utf8(a + b) =~= encode_utf8(a) + encode_utf8(b));
    }
}

/// The part of `s` between two character boundaries: no byte is copied.
pub fn part<'a>(s: &'a str, from: usize, to: usize) -> (r: &'a str)
    requires
        from <= to <= s.spec_bytes().len(),
        is_char_boundary(s.spec_bytes(), from as int),
        is_char_boundary(s.spec_bytes(), to as int),
    ensures
        r.spec_bytes() == s.spec_bytes().subrange(from as int, to as int),
        r@ == decode_utf8(s.spec_bytes().subrange(from as int, to as int)),
{
    let (head, _) = s.split_at(to);
    proof {
        lemma_str_bytes(s);
        lemma_str_bytes(head);
        if from < to {
            assert(head.spec_bytes()[from as int] == s.spec_bytes()[from as int]);
            is_char_boundary_iff_not_is_continuation_byte(s.spec_bytes(), from as int);
            is_char_boundary_iff_not_is_continuation_byte(head.spec_bytes(), from as int);
        }
    }
    let (_, tail) = head.split_at(from);
    proof {
        lemma_str_bytes(tail);
        assert(tail.spec_bytes() =~= s.spec_bytes().subrange(from as int, to as int));
    }
    tail
}

/// The character whose encoding starts at index `at` of `bytes`.
pub open spec fn char_at(bytes: Seq<u8>, at: int) -> char {
    decode_first_scalar(bytes.subrange(at, bytes.len() as int)) as char
}

/// The number of bytes of the character whose encoding starts with `first`.
pub open spec fn leading_width(first: u8) -> int {
    if is_leading_byte_width_1(first) {
        1
    } else if is_leading_byte_width_2(first) {
        2
    } else if is_leading_byte_width_3(first) {
        3
    } else {
        4
    }
}

/// The number of bytes that encode the character at index `at` of `bytes`.
pub open spec fn char_width(bytes: Seq<u8>, at: int) -> int {
    leading_width(bytes[at])
}

/// In valid UTF-8 a character that starts at a character boundary ends at
/// one, within the bytes; and the text that the bytes from the boundary on
/// encode starts with that character.
pub proof fn lemma_char_step(bytes: Seq<u8>, at: int)
    requires
        valid_utf8(bytes),
        0 <= at < bytes.len(),
        is_char_boundary(bytes, at),
    ensures
        at < at + char_width(bytes, at) <= bytes.len(),
        is_char_boundary(bytes, at + char_width(bytes, at)),
        decode_utf8(bytes.subrange(at, bytes.len() as int)).len() > 0,
        decode_utf8(bytes.subrange(at, bytes.len() as int))[0] == char_at(bytes, at),
{
    valid_utf8_split(bytes, at);
    let tail = bytes.subrange(at, bytes.len() as int);
    let width = char_width(bytes, at);
    assert(tail[0] == bytes[at]);
    assert(width == length_of_first_scalar(tail));
    let rest = bytes.subrange(at + width, bytes.len() as int);
    assert(tail.subrange(width, tail.len() as int) =~= rest);
    assert(valid_utf8(rest));
    if at + width < bytes.len() {
        assert(rest[0] == bytes[at + width]);
        is_char_boundary_iff_not_is_continuation_byte(bytes, at + width);
    } else {
        is_char_boundary_start_end_of_seq(bytes);
    }
}

/// The character that starts at the character boundary `at` of `s`.
pub fn read_char(s: &str, at: usize) -> (c: char)
    requires
        at < s.spec_bytes().len(),
        is_char_boundary(s.spec_bytes(), at as int),
    ensures
        c == char_at(s.spec_bytes(), at as int),
{
    broadcast use group_string_axioms;

    proof {
        lemma_str_bytes(s);
        lemma_char_step(s.spec_bytes(), at as int);
    }
    let tail = part(s, at, s.as_bytes().len());
    let mut chars = tail.chars();
    match chars.next() {
        Some(c) => c,
        None => unreached(),
    }
}

/// The number of bytes of the character whose encoding starts with `first`.
pub fn width_of(first: u8) -> (width: usize)
    ensures
        width == leading_width(first),
{
    if first <= 0x7f {
        1
    } else if 0xc0 <= first && first <= 0xdf {
        2
    } else if 0xe0 <= first && first <= 0xef {
        3
    } else {
        4
    }
}

} // verus!
