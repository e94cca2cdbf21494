//! Source text as a sequence of characters, and positions in it as byte
//! offsets into its UTF-8 form.

use vstd::prelude::*;
use vstd::utf8::{encode_scalar, encode_utf8};

verus! {

/// The number of bytes that `c` takes in UTF-8.
pub open spec fn width(c: char) -> int {
    encode_scalar(c as u32).len() as int
}

/// The number of bytes that `text` takes in UTF-8.
pub open spec fn byte_len(text: Seq<char>) -> int {
    encode_utf8(text).len() as int
}

/// The byte offset, in the UTF-8 form of `text`, of the character at position `pos`.
pub open spec fn byte_offset(text: Seq<char>, pos: int) -> int {
    byte_len(text.take(pos))
}

/// The UTF-8 form of a concatenation is the concatenation of the UTF-8 forms.
pub proof fn lemma_encode_concat(a: Seq<char>, b: Seq<char>)
    ensures
        encode_utf8(a + b) == encode_utf8(a) + encode_utf8(b),
    decreases a.len(),
{
    if a.len() == 0 {
        assert(a + b == b);
        assert(encode_utf8(a) + encode_utf8(b) == encode_utf8(b));
    } else {
        lemma_encode_concat(a.drop_first(), b);
        assert((a + b).drop_first() == a.drop_first() + b);
        assert(encode_utf8(a + b) == encode_scalar(a[0] as u32) + (encode_utf8(a.drop_first())
            + encode_utf8(b)));
        assert(encode_utf8(a + b) == encode_utf8(a) + encode_utf8(b));
    }
}

/// Every character takes one to four bytes.
pub proof fn lemma_width_range(c: char)
    ensures
        1 <= width(c) <= 4,
{
}

/// The offset of the next character is the offset of this one plus its width.
pub proof fn lemma_byte_offset_step(text: Seq<char>, pos: int)
    requires
        0 <= pos < text.len(),
    ensures
        byte_offset(text, pos + 1) == byte_offset(text, pos) + width(text[pos]),
{
    let one = seq![text[pos]];
    assert(text.take(pos + 1) == text.take(pos) + one);
    lemma_encode_concat(text.take(pos), one);
    assert(one.drop_first() == Seq::<char>::empty());
    assert(encode_utf8(one) == encode_scalar(text[pos] as u32) + encode_utf8(one.drop_first()));
    assert(encode_utf8(one) == encode_scalar(text[pos] as u32));
}

/// Byte offsets grow with positions, by at least one byte for each character.
pub proof fn lemma_byte_offset_monotonic(text: Seq<char>, a: int, b: int)
    requires
        0 <= a <= b <= text.len(),
    ensures
        byte_offset(text, a) + (b - a) <= byte_offset(text, b),
    decreases b - a,
{
    if a < b {
        lemma_byte_offset_step(text, a);
        lemma_width_range(text[a]);
        lemma_byte_offset_monotonic(text, a + 1, b);
    }
}

/// The first character is at offset zero, the end of the text at its
/// length in bytes, and every position in between.
pub proof fn lemma_byte_offset_bounds(text: Seq<char>, pos: int)
    requires
        0 <= pos <= text.len(),
    ensures
        byte_offset(text, 0) == 0,
        byte_offset(text, text.len() as int) == byte_len(text),
        0 <= byte_offset(text, pos) <= byte_len(text),
{
    assert(text.take(0) == Seq::<char>::empty());
    assert(text.take(text.len() as int) == text);
    lemma_byte_offset_monotonic(text, pos, text.len() as int);
}

/// The number of bytes that `c` takes in UTF-8.
pub fn utf8_width(c: char) -> (w: usize)
    ensures
        w == width(c),
        1 <= w <= 4,
{
    let code: u32 = c as u32;
    if code < 0x80 {
        1
    } else if code < 0x800 {
        2
    } else if code < 0x10000 {
        3
    } else {
        4
    }
}

/// The byte offset of the character at position `pos` of `text`.
pub(crate) fn byte_offset_of(text: &Vec<char>, pos: usize) -> (offset: usize)
    requires
        pos <= text@.len(),
        byte_len(text@) <= usize::MAX,
    ensures
        offset == byte_offset(text@, pos as int),
{
    let mut offset: usize = 0;
    let mut i: usize = 0;
    proof {
        lemma_byte_offset_bounds(text@, 0);
    }
    while i < pos
        invariant
            i <= pos <= text@.len(),
            byte_len(text@) <= usize::MAX,
            offset == byte_offset(text@, i as int),
        decreases pos - i,
    {
        proof {
            lemma_byte_offset_step(text@, i as int);
            lemma_byte_offset_bounds(text@, i as int + 1);
        }
        offset = offset + utf8_width(text[i]);
        i = i + 1;
    }
    offset
}

/// The characters of `text`, in order.
pub fn chars_of(text: &str) -> (chars: Vec<char>)
    ensures
        chars@ == text@,
{
    let mut chars: Vec<char> = Vec::new();
    for c in it: text.chars()
        invariant
            it.seq() == text@,
            chars@ == text@.take(it.index()),
    {
        chars.push(c);
    }
    chars
}

} // verus!
