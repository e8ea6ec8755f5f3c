//! Byte offsets into the UTF-8 encoding of a string, and how they relate to
//! the characters of the string.
//!
//! A decode cursor is a byte offset at which a character begins, or the end of
//! the encoding. The lemmas here say where the cursor of each character lies,
//! what stands at it, and where the next one is.

use vstd::prelude::*;
use vstd::utf8::*;

verus! {

/// The number of bytes that the UTF-8 encoding of `c` takes.
pub open spec fn utf8_width(c: char) -> int {
    encode_scalar(c as u32).len() as int
}

/// The byte offset, in the UTF-8 encoding of `chars`, at which character `k`
/// begins; for `k == chars.len()`, the length of the encoding.
pub open spec fn char_offset(chars: Seq<char>, k: int) -> int {
    encode_utf8(chars.take(k)).len() as int
}

/// Two characters with the same scalar value are the same character.
pub proof fn lemma_same_scalar(a: char, b: char)
    requires
        a as u32 == b as u32,
    ensures
        a == b,
{
    char_u32_cast(a, a as u32);
    char_u32_cast(b, a as u32);
}

/// A character takes between one and four bytes.
pub proof fn lemma_utf8_width_range(c: char)
    ensures
        1 <= utf8_width(c) <= 4,
{
}

/// The encoding of a concatenation is the concatenation of the encodings.
pub proof fn lemma_encode_utf8_concat(a: Seq<char>, b: Seq<char>)
    ensures
        encode_utf8(a + b) == encode_utf8(a) + encode_utf8(b),
    decreases a.len(),
{
    if a.len() == 0 {
        assert(encode_utf8(a) + encode_utf8(b) =~= encode_utf8(b));
    } else {
        lemma_encode_utf8_concat(a.drop_first(), b);
        assert((a + b).drop_first() =~= a.drop_first() + b);
    }
}

/// The first cursor is the start of the encoding and the last one its end.
pub proof fn lemma_char_offset_ends(chars: Seq<char>)
    ensures
        char_offset(chars, 0) == 0,
        char_offset(chars, chars.len() as int) == encode_utf8(chars).len(),
{
    assert(chars.take(0) =~= Seq::<char>::empty());
    assert(chars.take(chars.len() as int) =~= chars);
}

/// The cursor of the character after `k` lies behind the cursor of `k` by the
/// width of character `k`, and not beyond the end of the encoding.
pub proof fn lemma_char_offset_step(chars: Seq<char>, k: int)
    requires
        0 <= k < chars.len(),
    ensures
        0 <= char_offset(chars, k),
        char_offset(chars, k + 1) == char_offset(chars, k) + utf8_width(chars[k]),
        char_offset(chars, k + 1) <= encode_utf8(chars).len(),
{
    let one = seq![chars[k]];
    assert(chars.take(k + 1) =~= chars.take(k) + one);
    lemma_encode_utf8_concat(chars.take(k), one);
    assert(encode_utf8(one) =~= encode_scalar(chars[k] as u32)) by {
        reveal_with_fuel(encode_utf8, 2);
    }
    assert(chars =~= chars.take(k + 1) + chars.skip(k + 1));
    lemma_encode_utf8_concat(chars.take(k + 1), chars.skip(k + 1));
}

/// At the cursor of character `k` the encoding holds that character: it
/// decodes to `chars[k]` and is as long as the encoding of `chars[k]`.
pub proof fn lemma_char_at_offset(chars: Seq<char>, k: int)
    requires
        0 <= k < chars.len(),
    ensures
        0 <= char_offset(chars, k) < encode_utf8(chars).len(),
        encode_utf8(chars).skip(char_offset(chars, k)) == encode_utf8(chars.skip(k)),
        decode_first_scalar(encode_utf8(chars).skip(char_offset(chars, k))) == chars[k] as u32,
        length_of_first_scalar(encode_utf8(chars).skip(char_offset(chars, k))) == utf8_width(
            chars[k],
        ),
{
    lemma_char_offset_step(chars, k);
    lemma_utf8_width_range(chars[k]);
    assert(chars =~= chars.take(k) + chars.skip(k));
    lemma_encode_utf8_concat(chars.take(k), chars.skip(k));
    encode_utf8_first_scalar(chars.skip(k));
}

/// Every cursor is a character boundary of the encoding.
pub proof fn lemma_char_offset_is_boundary(chars: Seq<char>, k: int)
    requires
        0 <= k <= chars.len(),
    ensures
        is_char_boundary(encode_utf8(chars), char_offset(chars, k)),
    decreases k,
{
    let bytes = encode_utf8(chars);
    encode_utf8_valid_utf8(chars);
    if k == 0 {
        lemma_char_offset_ends(chars);
    } else {
        let rest = chars.drop_first();
        lemma_char_offset_is_boundary(rest, k - 1);
        encode_utf8_first_scalar(chars);
        assert(pop_first_scalar(bytes) =~= encode_utf8(rest));
        assert(char_offset(chars, k) == utf8_width(chars[0]) + char_offset(rest, k - 1)) by {
            assert(chars.take(k).drop_first() =~= rest.take(k - 1));
        }
        assert(char_offset(chars, k) <= bytes.len()) by {
            lemma_encode_utf8_concat(chars.take(k), chars.skip(k));
        }
        lemma_utf8_width_range(chars[0]);
    }
}

/// What holds of a cursor that stands at character `k`: it is a character
/// boundary; it has reached the end of the bytes just when `k` has reached the
/// end of the characters; and before the end, the scalar that begins at it is
/// `chars[k]`, and the cursor of the next character lies behind that scalar.
pub proof fn lemma_cursor(chars: Seq<char>, k: int)
    requires
        0 <= k <= chars.len(),
    ensures
        is_char_boundary(encode_utf8(chars), char_offset(chars, k)),
        0 <= char_offset(chars, k) <= encode_utf8(chars).len(),
        char_offset(chars, k) < encode_utf8(chars).len() <==> k < chars.len(),
        k < chars.len() ==> {
            let tail = encode_utf8(chars).skip(char_offset(chars, k));
            &&& decode_first_scalar(tail) == chars[k] as u32
            &&& length_of_first_scalar(tail) == utf8_width(chars[k])
            &&& char_offset(chars, k + 1) == char_offset(chars, k) + utf8_width(chars[k])
        },
{
    lemma_char_offset_is_boundary(chars, k);
    lemma_char_offset_ends(chars);
    if k < chars.len() {
        lemma_char_at_offset(chars, k);
        lemma_char_offset_step(chars, k);
    }
}

/// Every character boundary before the end of the encoding is the cursor of a
/// character: the result is the index of the character that begins there.
pub proof fn lemma_boundary_is_cursor(chars: Seq<char>, pos: int) -> (k: int)
    requires
        0 <= pos < encode_utf8(chars).len(),
        is_char_boundary(encode_utf8(chars), pos),
    ensures
        0 <= k < chars.len(),
        char_offset(chars, k) == pos,
    decreases chars.len(),
{
    let bytes = encode_utf8(chars);
    encode_utf8_valid_utf8(chars);
    if pos == 0 {
        lemma_char_offset_ends(chars);
        0
    } else {
        let rest = chars.drop_first();
        encode_utf8_first_scalar(chars);
        assert(pop_first_scalar(bytes) =~= encode_utf8(rest));
        let k = lemma_boundary_is_cursor(rest, pos - utf8_width(chars[0]));
        assert(chars.take(k + 1).drop_first() =~= rest.take(k));
        k + 1
    }
}

/// At a character boundary before the end of well-formed UTF-8 a well-formed
/// scalar begins, and behind that scalar lies a character boundary again.
pub proof fn lemma_boundary_step(bytes: Seq<u8>, pos: int)
    requires
        valid_utf8(bytes),
        0 <= pos < bytes.len(),
        is_char_boundary(bytes, pos),
    ensures
        valid_first_scalar(bytes.skip(pos)),
        is_char_boundary(bytes, pos + length_of_first_scalar(bytes.skip(pos))),
        pos + length_of_first_scalar(bytes.skip(pos)) <= bytes.len(),
    decreases bytes.len(),
{
    let rest = pop_first_scalar(bytes);
    let first = length_of_first_scalar(bytes);
    if pos == 0 {
        assert(is_char_boundary(rest, 0));
    } else {
        assert(is_char_boundary(rest, pos - first));
        lemma_boundary_step(rest, pos - first);
    }
}

} // verus!
