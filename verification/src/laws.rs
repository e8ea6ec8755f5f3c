//! What holds of the transcoder on all inputs, proved from the model.

use vstd::prelude::*;
use vstd::utf8::{
    decode_first_scalar, encode_utf8, is_ascii_chars, is_ascii_chars_encode_utf8,
    is_char_boundary, length_of_first_scalar,
};
use crate::cursor::{char_offset, lemma_boundary_is_cursor, lemma_cursor, utf8_width};
use crate::model::{
    all_mappable, fits, is_mappable, lcd_bytes, lcd_code, lemma_mappable_prefix_len,
    mappable_prefix_len, transcoded_into, written_len,
};

verus! {

/// What the decoder reads is a character of the string: at every character
/// boundary before the end of the encoding of `chars` begins one of its
/// characters, the one whose index is returned, and the scalar that the
/// decoder finds there is that character, in its full width.
pub proof fn law_decoder_reads_a_character(chars: Seq<char>, pos: int) -> (k: int)
    requires
        0 <= pos < encode_utf8(chars).len(),
        is_char_boundary(encode_utf8(chars), pos),
    ensures
        0 <= k < chars.len(),
        char_offset(chars, k) == pos,
        decode_first_scalar(encode_utf8(chars).skip(pos)) == chars[k] as u32,
        length_of_first_scalar(encode_utf8(chars).skip(pos)) == utf8_width(chars[k]),
{
    let k = lemma_boundary_is_cursor(chars, pos);
    lemma_cursor(chars, k);
    k
}

/// The characters with a display byte are ASCII, the sixty-four letters from
/// `А` to `я`, and `Ё` and `ё`; an ASCII character has its own value as its
/// byte, and the byte of a letter is that of a Latin letter or lies in the
/// upper half of the code.
pub proof fn law_mappable_domain(c: char)
    ensures
        is_mappable(c) <==> c as u32 <= 0x7F || 0x410 <= c as u32 <= 0x44F || c as u32 == 0x401
            || c as u32 == 0x451,
        c as u32 <= 0x7F ==> lcd_code(c) == Some(c as u8),
        c as u32 > 0x7F && is_mappable(c) ==> {
            let b = lcd_code(c).unwrap();
            0x41 <= b <= 0x5A || 0x61 <= b <= 0x7A || 0xA0 <= b <= 0xE6
        },
{
}

/// ASCII text is displayed as it is stored: every ASCII string is mappable,
/// and its display bytes are the bytes of its UTF-8 encoding.
pub proof fn law_ascii_identity(chars: Seq<char>)
    requires
        is_ascii_chars(chars),
    ensures
        all_mappable(chars),
        lcd_bytes(chars) == encode_utf8(chars),
{
    is_ascii_chars_encode_utf8(chars);
    assert forall|i: int| 0 <= i < chars.len() implies is_mappable(#[trigger] chars[i])
        && lcd_code(chars[i]) == Some(encode_utf8(chars)[i]) by {}
}

/// A string of one character is displayed as the byte of that character.
pub proof fn law_single_char(buf: Seq<u8>, c: char)
    requires
        is_mappable(c),
        buf.len() == 1,
    ensures
        fits(seq![c], buf.len()),
        written_len(seq![c], buf.len()) == 1,
        transcoded_into(buf, seq![c]) == seq![lcd_code(c).unwrap()],
        lcd_bytes(seq![c]) == seq![lcd_code(c).unwrap()],
{
    lemma_mappable_prefix_len(seq![c], 1);
}

/// The mappable prefix ends where the first character without a display byte
/// stands, or at the end of the sequence.
pub proof fn law_mappable_prefix(chars: Seq<char>)
    ensures
        mappable_prefix_len(chars) <= chars.len(),
        all_mappable(chars.take(mappable_prefix_len(chars) as int)),
        mappable_prefix_len(chars) < chars.len() ==> !is_mappable(
            chars[mappable_prefix_len(chars) as int],
        ),
        all_mappable(chars) <==> mappable_prefix_len(chars) == chars.len(),
    decreases chars.len(),
{
    let n = mappable_prefix_len(chars) as int;
    if chars.len() > 0 && is_mappable(chars[0]) {
        let rest = chars.drop_first();
        law_mappable_prefix(rest);
        assert forall|i: int| 0 <= i < n implies is_mappable(#[trigger] chars.take(n)[i]) by {
            if i > 0 {
                assert(chars.take(n)[i] == rest.take(n - 1)[i - 1]);
            }
        }
        if all_mappable(chars) {
            assert forall|i: int| 0 <= i < rest.len() implies is_mappable(#[trigger] rest[i]) by {}
        }
        if n == chars.len() {
            assert(chars.take(n) =~= chars);
        }
    }
}

/// A buffer of exactly as many bytes as the string has characters is enough:
/// for a string that is mappable throughout, the pass succeeds and reports
/// the number of characters.
pub proof fn law_exact_buffer_suffices(chars: Seq<char>)
    requires
        all_mappable(chars),
    ensures
        fits(chars, chars.len()),
        written_len(chars, chars.len()) == chars.len(),
{
    lemma_mappable_prefix_len(chars, chars.len() as int);
}

/// A pass stops at the first character without a display byte: where
/// character `k` has none, the characters before it all have one and the
/// buffer holds `k` bytes or more, the pass fails, reports `k`, has written
/// the bytes of the `k` characters before, and leaves the rest of the buffer
/// alone.
pub proof fn law_stops_at_unmappable(buf: Seq<u8>, chars: Seq<char>, k: int)
    requires
        0 <= k < chars.len(),
        k <= buf.len(),
        all_mappable(chars.take(k)),
        !is_mappable(chars[k]),
    ensures
        !fits(chars, buf.len()),
        written_len(chars, buf.len()) == k,
        transcoded_into(buf, chars) == lcd_bytes(chars.take(k)) + buf.skip(k),
{
    assert forall|i: int| 0 <= i < k implies is_mappable(#[trigger] chars[i]) by {
        assert(chars[i] == chars.take(k)[i]);
    }
    lemma_mappable_prefix_len(chars, k);
}

/// A buffer too small for the string is filled and no more: for a string
/// whose first `buf.len()` characters are mappable and which is longer than
/// that, the pass fails and reports the size of the buffer.
pub proof fn law_stops_at_full_buffer(buf: Seq<u8>, chars: Seq<char>)
    requires
        buf.len() < chars.len(),
        all_mappable(chars.take(buf.len() as int)),
    ensures
        !fits(chars, buf.len()),
        written_len(chars, buf.len()) == buf.len(),
        transcoded_into(buf, chars) == lcd_bytes(chars.take(buf.len() as int)),
{
    let n = buf.len() as int;
    assert forall|i: int| 0 <= i < n implies is_mappable(#[trigger] chars[i]) by {
        assert(chars[i] == chars.take(n)[i]);
    }
    lemma_mappable_prefix_len(chars, n);
}

/// The two passes agree: for a string that is mappable throughout, the pass
/// into a buffer begins with the bytes that the pass into an exact array
/// gives, and where the buffer is of that exact size it holds nothing else.
pub proof fn law_passes_agree(buf: Seq<u8>, chars: Seq<char>)
    requires
        all_mappable(chars),
        chars.len() <= buf.len(),
    ensures
        fits(chars, buf.len()),
        written_len(chars, buf.len()) == chars.len(),
        transcoded_into(buf, chars).take(chars.len() as int) == lcd_bytes(chars),
        buf.len() == chars.len() ==> transcoded_into(buf, chars) == lcd_bytes(chars),
{
    lemma_mappable_prefix_len(chars, chars.len() as int);
}

} // verus!
