//! How code-point positions of a text relate to byte offsets of its UTF-8 encoding.

use vstd::prelude::*;
use vstd::utf8::*;

verus! {

/// The byte offset at which code point `i` of `text` starts; for `i == text.len()`,
/// the length of the whole encoding.
pub open spec fn byte_offset(text: Seq<char>, i: int) -> int
    recommends
        0 <= i <= text.len(),
{
    encode_utf8(text.subrange(0, i)).len() as int
}

/// Encoding distributes over concatenation.
pub proof fn lemma_encode_concat(a: Seq<char>, b: Seq<char>)
    ensures
        encode_utf8(a + b) == encode_utf8(a) + encode_utf8(b),
    decreases a.len(),
{
    if a.len() == 0 {
        assert(a + b =~= b);
        assert(encode_utf8(a) + encode_utf8(b) =~= encode_utf8(b));
    } else {
        lemma_encode_concat(a.drop_first(), b);
        assert((a + b).drop_first() =~= a.drop_first() + b);
        assert(encode_utf8(a + b) =~= encode_utf8(a) + encode_utf8(b));
    }
}

/// Every code point takes between one and four bytes.
pub proof fn lemma_scalar_width(c: char)
    ensures
        1 <= encode_scalar(c as u32).len() <= 4,
{
}

/// Byte offsets start at zero, grow with the position, and end at the encoding's length.
pub proof fn lemma_byte_offset_step(text: Seq<char>, i: int)
    requires
        0 <= i < text.len(),
    ensures
        byte_offset(text, i + 1) == byte_offset(text, i) + encode_scalar(text[i] as u32).len(),
        byte_offset(text, i) < byte_offset(text, i + 1),
{
    let head = text.subrange(0, i);
    let one = seq![text[i]];
    assert(text.subrange(0, i + 1) =~= head + one);
    lemma_encode_concat(head, one);
    assert(one.drop_first() =~= Seq::<char>::empty());
    reveal_with_fuel(encode_utf8, 2);
    assert(encode_utf8(one) =~= encode_scalar(text[i] as u32));
    lemma_scalar_width(text[i]);
}

pub proof fn lemma_byte_offset_ends(text: Seq<char>)
    ensures
        byte_offset(text, 0) == 0,
        byte_offset(text, text.len() as int) == encode_utf8(text).len(),
{
    assert(text.subrange(0, 0) =~= Seq::<char>::empty());
    assert(text.subrange(0, text.len() as int) =~= text);
}

/// Byte offsets are monotone in the position.
pub proof fn lemma_byte_offset_monotone(text: Seq<char>, i: int, j: int)
    requires
        0 <= i <= j <= text.len(),
    ensures
        0 <= byte_offset(text, i) <= byte_offset(text, j) <= encode_utf8(text).len(),
        i < j ==> byte_offset(text, i) < byte_offset(text, j),
    decreases j - i,
{
    let a = text.subrange(0, i);
    let b = text.subrange(i, j);
    let c = text.subrange(j, text.len() as int);
    assert(text.subrange(0, j) =~= a + b);
    assert(text =~= text.subrange(0, j) + c);
    lemma_encode_concat(a, b);
    lemma_encode_concat(text.subrange(0, j), c);
    if i < j {
        lemma_byte_offset_monotone(text, i + 1, j);
        lemma_byte_offset_step(text, i);
    }
}

/// A position's byte offset is at least the position: no code point takes less than a byte.
pub proof fn lemma_byte_offset_at_least(text: Seq<char>, i: int)
    requires
        0 <= i <= text.len(),
    ensures
        i <= byte_offset(text, i),
    decreases i,
{
    if i == 0 {
        lemma_byte_offset_ends(text);
    } else {
        lemma_byte_offset_at_least(text, i - 1);
        lemma_byte_offset_step(text, i - 1);
    }
}

/// The bytes between the offsets of two positions encode the code points between them.
pub proof fn lemma_bytes_between(text: Seq<char>, i: int, j: int)
    requires
        0 <= i <= j <= text.len(),
    ensures
        encode_utf8(text).subrange(byte_offset(text, i), byte_offset(text, j)) == encode_utf8(
            text.subrange(i, j),
        ),
{
    let a = text.subrange(0, i);
    let b = text.subrange(i, j);
    let c = text.subrange(j, text.len() as int);
    assert(text.subrange(0, j) =~= a + b);
    assert(text =~= (a + b) + c);
    lemma_encode_concat(a, b);
    lemma_encode_concat(a + b, c);
    assert(encode_utf8(text).subrange(byte_offset(text, i), byte_offset(text, j)) =~= encode_utf8(b));
}

/// The offset of every position is a character boundary of the encoding.
pub proof fn lemma_byte_offset_is_boundary(text: Seq<char>, i: int)
    requires
        0 <= i <= text.len(),
    ensures
        is_char_boundary(encode_utf8(text), byte_offset(text, i)),
    decreases i,
{
    broadcast use encode_utf8_valid_utf8;

    let bytes = encode_utf8(text);
    if i == 0 {
        lemma_byte_offset_ends(text);
    } else {
        let rest = text.drop_first();
        encode_utf8_first_scalar(text);
        assert(pop_first_scalar(bytes) =~= encode_utf8(rest));
        lemma_byte_offset_is_boundary(rest, i - 1);
        // the offset in `text` is the first scalar's width plus the offset in `rest`
        let one = seq![text[0]];
        assert(text.subrange(0, i) =~= one + rest.subrange(0, i - 1));
        lemma_encode_concat(one, rest.subrange(0, i - 1));
        assert(one.drop_first() =~= Seq::<char>::empty());
        reveal_with_fuel(encode_utf8, 2);
        assert(encode_utf8(one) =~= encode_scalar(text[0] as u32));
        lemma_scalar_width(text[0]);
        lemma_byte_offset_monotone(text, i, text.len() as int);
        assert(byte_offset(text, i) == length_of_first_scalar(bytes) + byte_offset(rest, i - 1));
    }
}

/// A boundary of a text's encoding that lies inside a prefix cut at a boundary is a
/// boundary of that prefix too.
pub proof fn lemma_boundary_in_prefix(bytes: Seq<u8>, start: int, end: int)
    requires
        valid_utf8(bytes),
        0 <= start <= end <= bytes.len(),
        is_char_boundary(bytes, start),
        is_char_boundary(bytes, end),
    ensures
        valid_utf8(bytes.subrange(0, end)),
        is_char_boundary(bytes.subrange(0, end), start),
{
    let prefix = bytes.subrange(0, end);
    valid_utf8_split(bytes, end);
    if start == end {
        is_char_boundary_start_end_of_seq(prefix);
    } else {
        is_char_boundary_iff_not_is_continuation_byte(bytes, start);
        is_char_boundary_iff_not_is_continuation_byte(prefix, start);
    }
}

} // verus!
