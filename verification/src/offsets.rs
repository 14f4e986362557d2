//! Byte offsets into UTF-8 text, and the characters that they point at.

use vstd::prelude::*;
use vstd::utf8::{char_is_scalar, encode_scalar, encode_utf8};
use crate::text::slice;

verus! {

/// The number of bytes that a character takes in UTF-8.
pub open spec fn utf8_len(c: char) -> int {
    let n = c as u32;
    if n < 0x80 {
        1
    } else if n < 0x800 {
        2
    } else if n < 0x10000 {
        3
    } else {
        4
    }
}

/// The number of bytes that a character takes in UTF-8.
pub fn char_len(c: char) -> (n: u8)
    ensures
        n == utf8_len(c),
        1 <= n <= 4,
{
    let n: u32 = c as u32;
    if n < 0x80 {
        1
    } else if n < 0x800 {
        2
    } else if n < 0x10000 {
        3
    } else {
        4
    }
}

/// The index of the first character at or after index `i` that begins at
/// byte `offset` or later, where character `i` begins at byte `at`; the
/// length of the text if there is none.
pub open spec fn char_index_from(s: Seq<char>, i: int, at: int, offset: int) -> int
    decreases s.len() - i,
{
    if i < 0 || i >= s.len() || at >= offset {
        i
    } else {
        char_index_from(s, i + 1, at + utf8_len(s[i]), offset)
    }
}

/// The index of the character that begins at byte `offset` of the text's
/// UTF-8 form. An offset inside a character counts as the next character's,
/// one past the end as the end.
pub open spec fn char_index(s: Seq<char>, offset: int) -> int {
    char_index_from(s, 0, 0, offset)
}

/// The text between two byte offsets of its UTF-8 form; nothing where the
/// second does not lie after the first.
pub open spec fn byte_range(s: Seq<char>, start: int, end: int) -> Seq<char> {
    let a = char_index(s, start);
    let b = char_index(s, end);
    if a <= b {
        s.subrange(a, b)
    } else {
        seq![]
    }
}

/// The index found lies between the index at which the search began and the
/// text's end.
pub proof fn lemma_char_index_from(s: Seq<char>, i: int, at: int, offset: int)
    requires
        0 <= i <= s.len(),
    ensures
        i <= char_index_from(s, i, at, offset) <= s.len(),
    decreases s.len() - i,
{
    if i < s.len() && at < offset {
        lemma_char_index_from(s, i + 1, at + utf8_len(s[i]), offset);
    }
}

/// The index of the character at a byte offset.
pub fn char_index_of(s: &Vec<char>, offset: usize) -> (i: usize)
    ensures
        i == char_index(s@, offset as int),
        i <= s.len(),
{
    let mut i: usize = 0;
    let mut at: u128 = 0;
    while i < s.len() && at < offset as u128
        invariant
            i <= s.len(),
            at <= offset + 4 * i,
            at <= 0xFFFF_FFFF_FFFF_FFFF + 4 * i,
            i <= usize::MAX,
            char_index(s@, offset as int) == char_index_from(s@, i as int, at as int, offset as int),
        decreases s.len() - i,
    {
        at = at + char_len(s[i]) as u128;
        i += 1;
    }
    i
}

/// The byte at which character `i` of a text begins in the text's UTF-8
/// form: the length of the UTF-8 form of the characters before it.
pub open spec fn byte_offset(s: Seq<char>, i: int) -> int {
    encode_utf8(s.take(i)).len() as int
}

/// The UTF-8 form of a text with one more character.
pub proof fn lemma_encode_push(s: Seq<char>, c: char)
    ensures
        encode_utf8(s.push(c)) == encode_utf8(s) + encode_scalar(c as u32),
        encode_scalar(c as u32).len() == utf8_len(c),
    decreases s.len(),
{
    char_is_scalar(c);
    if s.len() == 0 {
        assert(s.push(c).drop_first() =~= Seq::<char>::empty());
        assert(encode_utf8(Seq::<char>::empty()) =~= Seq::<u8>::empty());
        assert(encode_utf8(s.push(c)) =~= encode_scalar(c as u32));
        assert(encode_utf8(s) + encode_scalar(c as u32) =~= encode_scalar(c as u32));
    } else {
        assert(s.push(c).drop_first() =~= s.drop_first().push(c));
        lemma_encode_push(s.drop_first(), c);
        assert(encode_utf8(s.push(c)) =~= encode_utf8(s) + encode_scalar(c as u32));
    }
}

/// Every character begins where the one before it ends.
pub proof fn lemma_byte_offset_step(s: Seq<char>, i: int)
    requires
        0 <= i < s.len(),
    ensures
        byte_offset(s, i + 1) == byte_offset(s, i) + utf8_len(s[i]),
        byte_offset(s, 0) == 0,
{
    assert(s.take(i + 1) =~= s.take(i).push(s[i]));
    lemma_encode_push(s.take(i), s[i]);
    assert(s.take(0) =~= Seq::<char>::empty());
}

/// Later characters begin at later bytes.
pub proof fn lemma_byte_offset_grows(s: Seq<char>, i: int, j: int)
    requires
        0 <= i <= j <= s.len(),
    ensures
        byte_offset(s, i) + (j - i) <= byte_offset(s, j),
    decreases j - i,
{
    if i < j {
        lemma_byte_offset_grows(s, i, j - 1);
        lemma_byte_offset_step(s, j - 1);
    }
}

proof fn lemma_char_index_found(s: Seq<char>, j: int, i: int)
    requires
        0 <= j <= i <= s.len(),
    ensures
        char_index_from(s, j, byte_offset(s, j), byte_offset(s, i)) == i,
    decreases i - j,
{
    if j < i {
        lemma_byte_offset_grows(s, j + 1, i);
        lemma_byte_offset_step(s, j);
        lemma_char_index_found(s, j + 1, i);
    }
}

/// The byte at which a character begins points at that character, and the
/// bytes at which two characters begin enclose what lies between them.
pub proof fn lemma_byte_offset_index(s: Seq<char>, i: int, j: int)
    requires
        0 <= i <= j <= s.len(),
    ensures
        char_index(s, byte_offset(s, i)) == i,
        char_index(s, byte_offset(s, j)) == j,
        byte_range(s, byte_offset(s, i), byte_offset(s, j)) == s.subrange(i, j),
{
    assert(s.take(0) =~= Seq::<char>::empty());
    assert(encode_utf8(Seq::<char>::empty()) =~= Seq::<u8>::empty());
    lemma_char_index_found(s, 0, i);
    lemma_char_index_found(s, 0, j);
}

/// The length of a string in bytes: the byte at which its end lies.
pub fn byte_length(s: &str) -> (n: usize)
    ensures
        n == byte_offset(s@, s@.len() as int),
{
    assert(s@.take(s@.len() as int) =~= s@);
    s.as_bytes().len()
}

/// Copies what lies between two byte offsets.
pub fn slice_bytes(s: &Vec<char>, start: usize, end: usize) -> (r: Vec<char>)
    ensures
        r@ == byte_range(s@, start as int, end as int),
{
    let a = char_index_of(s, start);
    let b = char_index_of(s, end);
    if a <= b {
        slice(s, a, b)
    } else {
        Vec::new()
    }
}

} // verus!
