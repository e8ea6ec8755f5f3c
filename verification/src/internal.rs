//! The transcoding engine: the character table, the UTF-8 decoder and the two
//! transcoding passes.

use vstd::prelude::*;
use vstd::string::StringSliceAdditionalSpecFns;
use vstd::utf8::*;
use crate::cursor::{
    char_offset, lemma_boundary_step, lemma_char_offset_ends, lemma_cursor, lemma_same_scalar,
};
use crate::model::{
    all_mappable, fits, is_mappable, lcd_bytes, lcd_code, lemma_mappable_prefix_len,
    reported_len, transcoded_into, written_len,
};

verus! {

/// Looks up the display byte of an ASCII or Russian character.
pub fn char_to_lcd(c: char) -> (r: Option<u8>)
    ensures
        r == lcd_code(c),
{
    match c {
        // ASCII keeps its value
        '\x00'..='\x7F' => Some(c as u8),
        // Uppercase Russian
        'А' => Some('A' as u8),
        'Б' => Some(0xA0),
        'В' => Some('B' as u8),
        'Г' => Some(0xA1),
        'Д' => Some(0xE0),
        'Е' => Some('E' as u8),
        'Ё' => Some(0xA2),
        'Ж' => Some(0xA3),
        'З' => Some(0xA4),
        'И' => Some(0xA5),
        'Й' => Some(0xA6),
        'К' => Some('K' as u8),
        'Л' => Some(0xA7),
        'М' => Some('M' as u8),
        'Н' => Some('H' as u8),
        'О' => Some('O' as u8),
        'П' => Some(0xA8),
        'Р' => Some('P' as u8),
        'С' => Some('C' as u8),
        'Т' => Some('T' as u8),
        'У' => Some(0xA9),
        'Ф' => Some(0xAA),
        'Х' => Some('X' as u8),
        'Ц' => Some(0xE1),
        'Ч' => Some(0xAB),
        'Ш' => Some(0xAC),
        'Щ' => Some(0xE2),
        'Ъ' => Some(0xAD),
        'Ы' => Some(0xAE),
        'Ь' => Some('b' as u8),
        'Э' => Some(0xAF),
        'Ю' => Some(0xB0),
        'Я' => Some(0xB1),
        // Lowercase Russian
        'а' => Some('a' as u8),
        'б' => Some(0xB2),
        'в' => Some(0xB3),
        'г' => Some(0xB4),
        'д' => Some(0xE3),
        'е' => Some('e' as u8),
        'ё' => Some(0xB5),
        'ж' => Some(0xB6),
        'з' => Some(0xB7),
        'и' => Some(0xB8),
        'й' => Some(0xB9),
        'к' => Some(0xBA),
        'л' => Some(0xBB),
        'м' => Some(0xBC),
        'н' => Some(0xBD),
        'о' => Some('o' as u8),
        'п' => Some(0xBE),
        'р' => Some('p' as u8),
        'с' => Some('c' as u8),
        'т' => Some(0xBF),
        'у' => Some('y' as u8),
        'ф' => Some(0xE4),
        'х' => Some('x' as u8),
        'ц' => Some(0xE5),
        'ч' => Some(0xC0),
        'ш' => Some(0xC1),
        'щ' => Some(0xE6),
        'ъ' => Some(0xC2),
        'ы' => Some(0xC3),
        'ь' => Some(0xC4),
        'э' => Some(0xC5),
        'ю' => Some(0xC6),
        'я' => Some(0xC7),
        // Anything else has no glyph
        _ => None,
    }
}

/// `char::from_u32` of the standard library, which verified code calls by that
/// name. For a Unicode scalar value it returns the character with that value;
/// for any other number, that is a surrogate or a value above `0x10FFFF`, it
/// returns `None`.
pub assume_specification[ char::from_u32 ](i: u32) -> (r: Option<char>)
    ensures
        is_scalar(i) ==> r == Some(i as char),
        !is_scalar(i) ==> r is None,
;

/// The payload bits of the first `n` continuation bytes of the scalar that
/// `tail` begins with, those of the earlier bytes in the higher places.
spec fn continuation_payload(tail: Seq<u8>, n: int) -> u32
    decreases n,
{
    if n <= 0 {
        0
    } else {
        continuation_payload(tail, n - 1) << 6 | continuation_bits(tail[n])
    }
}

/// The leading byte after `n` of its high bits were shifted out.
spec fn shifted_lead(lead: u8, n: int) -> u8 {
    if n <= 0 {
        lead
    } else if n == 1 {
        lead << 1
    } else if n == 2 {
        lead << 2
    } else {
        lead << 3
    }
}

/// Bit 6 of the shifted leading byte tells whether one more continuation byte
/// follows: the leading byte of a scalar of `w` bytes has it set after fewer
/// than `w - 1` shifts, and clear after `w - 1`.
proof fn lemma_lead_marker_bits(lead: u8)
    by (bit_vector)
    ensures
        0xC0 <= lead <= 0xDF ==> lead & 0x40 != 0 && (lead << 1) & 0x40 == 0,
        0xE0 <= lead <= 0xEF ==> lead & 0x40 != 0 && (lead << 1) & 0x40 != 0 && (lead << 2) & 0x40
            == 0,
        0xF0 <= lead <= 0xF7 ==> lead & 0x40 != 0 && (lead << 1) & 0x40 != 0 && (lead << 2) & 0x40
            != 0 && (lead << 3) & 0x40 == 0,
        (lead << 1) << 1 == lead << 2,
        (lead << 2) << 1 == lead << 3,
{
}

/// For two bytes, the decoder's last step gives the code point that they
/// encode, and that code point takes no more than eleven bits.
proof fn lemma_assemble_width_2(lead: u8, b1: u8)
    by (bit_vector)
    requires
        0xC0 <= lead <= 0xDF,
    ensures
        (0u32 << 6 | continuation_bits(b1)) | (((lead << 1) as u32 & 0x7F) << 5)
            == codepoint_width_2(lead, b1),
        codepoint_width_2(lead, b1) <= 0x7FF,
{
}

/// For three bytes, the decoder's last step gives the code point that they
/// encode, and that code point takes no more than sixteen bits.
proof fn lemma_assemble_width_3(lead: u8, b1: u8, b2: u8)
    by (bit_vector)
    requires
        0xE0 <= lead <= 0xEF,
    ensures
        ((0u32 << 6 | continuation_bits(b1)) << 6 | continuation_bits(b2)) | (((lead << 2) as u32
            & 0x7F) << 10) == codepoint_width_3(lead, b1, b2),
        codepoint_width_3(lead, b1, b2) <= 0xFFFF,
{
}

/// For four bytes, the decoder's last step gives the code point that they
/// encode.
proof fn lemma_assemble_width_4(lead: u8, b1: u8, b2: u8, b3: u8)
    by (bit_vector)
    requires
        0xF0 <= lead <= 0xF7,
    ensures
        (((0u32 << 6 | continuation_bits(b1)) << 6 | continuation_bits(b2)) << 6
            | continuation_bits(b3)) | (((lead << 3) as u32 & 0x7F) << 15) == codepoint_width_4(
            lead,
            b1,
            b2,
            b3,
        ),
{
}

/// Reads the character that begins at byte `start_pos` of `s`, and returns it
/// with the number of bytes that it takes.
///
/// `start_pos` must be the first byte of a character. The position behind the
/// character that was read is then the first byte of the next one, or the end
/// of the string.
pub fn decode_utf8_char(s: &str, start_pos: usize) -> (r: (char, usize))
    requires
        start_pos < s.len(),
        s.is_char_boundary(start_pos),
    ensures
        r.0 as u32 == decode_first_scalar(s.spec_bytes().skip(start_pos as int)),
        r.1 == length_of_first_scalar(s.spec_bytes().skip(start_pos as int)),
        1 <= r.1 <= 4,
        start_pos + r.1 <= s.spec_bytes().len(),
        is_char_boundary(s.spec_bytes(), start_pos + r.1),
{
    let bytes = s.as_bytes();
    let ghost tail = bytes@.skip(start_pos as int);
    let ghost width = length_of_first_scalar(tail);
    proof {
        encode_utf8_valid_utf8(s@);
        lemma_boundary_step(bytes@, start_pos as int);
    }
    let mut first_byte = bytes[start_pos];
    if first_byte < 0x80 {
        assert(first_byte & 0x7F == first_byte) by (bit_vector)
            requires
                first_byte < 0x80,
        ;
        (first_byte as char, 1usize)
    } else {
        let ghost lead = first_byte;
        proof {
            lemma_lead_marker_bits(lead);
        }
        // The bits are gathered in a u32, which `char::from_u32` then checks
        let mut res = 0u32;
        let mut cont_byte_count = 0usize;
        while first_byte & 0x40 != 0
            invariant
                tail == bytes@.skip(start_pos as int),
                valid_first_scalar(tail),
                lead == tail[0],
                lead >= 0x80,
                width == length_of_first_scalar(tail),
                start_pos + width <= bytes.len(),
                cont_byte_count < width,
                first_byte == shifted_lead(lead, cont_byte_count as int),
                res == continuation_payload(tail, cont_byte_count as int),
                first_byte & 0x40 != 0 <==> cont_byte_count + 1 < width,
            decreases width - cont_byte_count,
        {
            cont_byte_count += 1;
            res = res << 6 | (bytes[start_pos + cont_byte_count] & 0x3F) as u32;
            first_byte = first_byte << 1;
            proof {
                lemma_lead_marker_bits(lead);
            }
        }
        proof {
            reveal_with_fuel(continuation_payload, 4);
            if width == 2 {
                lemma_assemble_width_2(lead, tail[1]);
            } else if width == 3 {
                lemma_assemble_width_3(lead, tail[1], tail[2]);
            } else {
                lemma_assemble_width_4(lead, tail[1], tail[2], tail[3]);
            }
        }
        res = res | ((first_byte as u32 & 0x7F) << (cont_byte_count * 5));
        (char::from_u32(res).expect("Failed to decode a UTF-8 character"), cont_byte_count + 1)
    }
}

/// The length of `s` in bytes, taken from its byte view and so known to be
/// the length of its encoding.
fn byte_len(s: &str) -> (n: usize)
    ensures
        n == s.spec_bytes().len(),
{
    s.as_bytes().len()
}

/// Counts the characters of `s`.
///
/// It decodes the whole string, one character after the other, and is meant
/// for sizing a buffer once, not for a hot loop.
pub fn utf8_len(s: &str) -> (length: usize)
    ensures
        length == s@.len(),
{
    let mut length = 0usize;
    let mut input_pos = 0usize;
    proof {
        lemma_char_offset_ends(s@);
    }
    while input_pos < byte_len(s)
        invariant
            length <= s@.len(),
            length <= input_pos,
            input_pos == char_offset(s@, length as int),
        decreases s@.len() - length,
    {
        proof {
            lemma_cursor(s@, length as int);
        }
        let (_, len) = decode_utf8_char(s, input_pos);
        input_pos += len;
        length += 1;
    }
    proof {
        lemma_cursor(s@, length as int);
    }
    length
}

/// Transcodes a string into an array of exactly as many bytes as the string
/// has characters.
///
/// This is the pass for text that is fixed when the program is built: the
/// caller has counted the characters with [`utf8_len`] and knows that each of
/// them has a display byte.
pub fn str_to_lcd_const<const LEN: usize>(s: &str) -> (output: [u8; LEN])
    requires
        all_mappable(s@),
        s@.len() == LEN,
    ensures
        output@ == lcd_bytes(s@),
{
    let mut output = [0u8; LEN];
    let mut input_pos = 0usize;
    let mut output_pos = 0usize;
    proof {
        lemma_char_offset_ends(s@);
    }
    while input_pos < byte_len(s)
        invariant
            all_mappable(s@),
            s@.len() == LEN,
            output_pos <= s@.len(),
            output_pos <= input_pos,
            input_pos == char_offset(s@, output_pos as int),
            forall|i: int| 0 <= i < output_pos ==> output@[i] == lcd_code(s@[i]).unwrap(),
        decreases s@.len() - output_pos,
    {
        proof {
            lemma_cursor(s@, output_pos as int);
        }
        let (ch, len) = decode_utf8_char(s, input_pos);
        proof {
            lemma_same_scalar(ch, s@[output_pos as int]);
        }
        output[output_pos] = char_to_lcd(ch).expect("Failed to transcode a character");
        input_pos += len;
        output_pos += 1;
    }
    proof {
        lemma_cursor(s@, output_pos as int);
    }
    output
}

/// Transcodes a string into a buffer of any size, and reports how many bytes
/// it wrote: as `Ok` where it reached the end of the string, as `Err` where
/// the buffer was full or a character had no display byte.
///
/// The bytes that it wrote are the display bytes of the characters before the
/// point where it stopped; the rest of the buffer is as it was.
pub fn str_to_lcd_runtime(output: &mut [u8], s: &str) -> (r: Result<usize, usize>)
    ensures
        r is Ok <==> fits(s@, old(output)@.len()),
        r is Ok ==> reported_len(r) == s@.len(),
        reported_len(r) == written_len(s@, old(output)@.len()),
        final(output)@ == transcoded_into(old(output)@, s@),
{
    let mut input_pos = 0usize;
    let mut output_pos = 0usize;
    proof {
        lemma_char_offset_ends(s@);
    }
    while input_pos < byte_len(s)
        invariant
            output@.len() == old(output)@.len(),
            output_pos <= s@.len(),
            output_pos <= output@.len(),
            output_pos <= input_pos,
            input_pos == char_offset(s@, output_pos as int),
            forall|i: int| 0 <= i < output_pos ==> is_mappable(#[trigger] s@[i]),
            forall|i: int| 0 <= i < output_pos ==> output@[i] == lcd_code(s@[i]).unwrap(),
            forall|i: int| output_pos <= i < output@.len() ==> output@[i] == old(output)@[i],
        decreases s@.len() - output_pos,
    {
        proof {
            lemma_cursor(s@, output_pos as int);
        }
        let (ch, len) = decode_utf8_char(s, input_pos);
        proof {
            lemma_same_scalar(ch, s@[output_pos as int]);
        }
        if output_pos >= output.len() {
            // The buffer is full: stop before writing beyond its end
            proof {
                lemma_mappable_prefix_len(s@, output_pos as int);
            }
            return Err(output_pos);
        } else if let Some(code) = char_to_lcd(ch) {
            output[output_pos] = code;
        } else {
            // The character has no display byte
            proof {
                lemma_mappable_prefix_len(s@, output_pos as int);
            }
            return Err(output_pos);
        }
        input_pos += len;
        output_pos += 1;
    }
    proof {
        lemma_cursor(s@, output_pos as int);
        lemma_mappable_prefix_len(s@, output_pos as int);
    }
    Ok(output_pos)
}

} // verus!
