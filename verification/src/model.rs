//! The mathematical model of the transcoder: the character table, and what a
//! transcoding pass over a sequence of characters writes and reports.
//!
//! Strings are modelled by their view, a `Seq<char>`; buffers by a `Seq<u8>`.

use vstd::prelude::*;

verus! {

/// The display byte of a Russian letter, or `None` for any other character.
///
/// A letter whose glyph the display font shares with a Latin letter takes the
/// byte of that Latin letter; every other letter has a byte of its own in the
/// upper half of the controller's character ROM. The table follows the ROM and
/// no formula.
pub open spec fn cyrillic_code(c: char) -> Option<u8> {
    match c {
        'А' => Some(0x41u8),  // Latin 'A'
        'Б' => Some(0xA0u8),
        'В' => Some(0x42u8),  // Latin 'B'
        'Г' => Some(0xA1u8),
        'Д' => Some(0xE0u8),
        'Е' => Some(0x45u8),  // Latin 'E'
        'Ё' => Some(0xA2u8),
        'Ж' => Some(0xA3u8),
        'З' => Some(0xA4u8),
        'И' => Some(0xA5u8),
        'Й' => Some(0xA6u8),
        'К' => Some(0x4Bu8),  // Latin 'K'
        'Л' => Some(0xA7u8),
        'М' => Some(0x4Du8),  // Latin 'M'
        'Н' => Some(0x48u8),  // Latin 'H'
        'О' => Some(0x4Fu8),  // Latin 'O'
        'П' => Some(0xA8u8),
        'Р' => Some(0x50u8),  // Latin 'P'
        'С' => Some(0x43u8),  // Latin 'C'
        'Т' => Some(0x54u8),  // Latin 'T'
        'У' => Some(0xA9u8),
        'Ф' => Some(0xAAu8),
        'Х' => Some(0x58u8),  // Latin 'X'
        'Ц' => Some(0xE1u8),
        'Ч' => Some(0xABu8),
        'Ш' => Some(0xACu8),
        'Щ' => Some(0xE2u8),
        'Ъ' => Some(0xADu8),
        'Ы' => Some(0xAEu8),
        'Ь' => Some(0x62u8),  // Latin 'b'; not confirmed on a display
        'Э' => Some(0xAFu8),
        'Ю' => Some(0xB0u8),
        'Я' => Some(0xB1u8),
        'а' => Some(0x61u8),  // Latin 'a'
        'б' => Some(0xB2u8),
        'в' => Some(0xB3u8),
        'г' => Some(0xB4u8),
        'д' => Some(0xE3u8),
        'е' => Some(0x65u8),  // Latin 'e'
        'ё' => Some(0xB5u8),
        'ж' => Some(0xB6u8),
        'з' => Some(0xB7u8),
        'и' => Some(0xB8u8),
        'й' => Some(0xB9u8),
        'к' => Some(0xBAu8),
        'л' => Some(0xBBu8),
        'м' => Some(0xBCu8),
        'н' => Some(0xBDu8),
        'о' => Some(0x6Fu8),  // Latin 'o'
        'п' => Some(0xBEu8),
        'р' => Some(0x70u8),  // Latin 'p'
        'с' => Some(0x63u8),  // Latin 'c'
        'т' => Some(0xBFu8),
        'у' => Some(0x79u8),  // Latin 'y'
        'ф' => Some(0xE4u8),
        'х' => Some(0x78u8),  // Latin 'x'
        'ц' => Some(0xE5u8),
        'ч' => Some(0xC0u8),
        'ш' => Some(0xC1u8),
        'щ' => Some(0xE6u8),
        'ъ' => Some(0xC2u8),
        'ы' => Some(0xC3u8),
        'ь' => Some(0xC4u8),
        'э' => Some(0xC5u8),
        'ю' => Some(0xC6u8),
        'я' => Some(0xC7u8),
        _ => None,
    }
}

/// The display byte of a character: an ASCII character keeps its own value, a
/// Russian letter has the byte that [`cyrillic_code`] lists, and no other
/// character has one.
pub open spec fn lcd_code(c: char) -> Option<u8> {
    if c as u32 <= 0x7F {
        Some(c as u8)
    } else {
        cyrillic_code(c)
    }
}

/// The character has a display byte.
pub open spec fn is_mappable(c: char) -> bool {
    lcd_code(c) is Some
}

/// Every character of the sequence has a display byte.
pub open spec fn all_mappable(chars: Seq<char>) -> bool {
    forall|i: int| 0 <= i < chars.len() ==> is_mappable(#[trigger] chars[i])
}

/// The display bytes of a sequence of characters, one byte for each character
/// and in the same order. It is meant for sequences that are [`all_mappable`].
pub open spec fn lcd_bytes(chars: Seq<char>) -> Seq<u8>
    recommends
        all_mappable(chars),
{
    Seq::new(chars.len(), |i: int| lcd_code(chars[i]).unwrap())
}

/// How many characters stand before the first one without a display byte; the
/// length of the sequence where there is none.
pub open spec fn mappable_prefix_len(chars: Seq<char>) -> nat
    decreases chars.len(),
{
    if chars.len() == 0 || !is_mappable(chars[0]) {
        0
    } else {
        1 + mappable_prefix_len(chars.drop_first())
    }
}

/// How many bytes a pass over `chars` writes into a buffer of `capacity`
/// bytes: it stops at the first character without a display byte and when the
/// buffer is full, whichever comes first.
pub open spec fn written_len(chars: Seq<char>, capacity: nat) -> nat {
    if mappable_prefix_len(chars) <= capacity {
        mappable_prefix_len(chars)
    } else {
        capacity
    }
}

/// The pass reaches the end of `chars`: every character has a display byte
/// and a buffer of `capacity` bytes holds them all.
pub open spec fn fits(chars: Seq<char>, capacity: nat) -> bool {
    all_mappable(chars) && chars.len() <= capacity
}

/// The buffer after a pass over `chars`: the display bytes of the characters
/// that were written, then the bytes of `buf` that the pass did not reach.
pub open spec fn transcoded_into(buf: Seq<u8>, chars: Seq<char>) -> Seq<u8> {
    let n = written_len(chars, buf.len()) as int;
    lcd_bytes(chars.take(n)) + buf.skip(n)
}

/// What a pass reports as its count of bytes written, success or not.
pub open spec fn reported_len(r: Result<usize, usize>) -> nat {
    match r {
        Ok(n) => n as nat,
        Err(n) => n as nat,
    }
}

/// Where the first `n` characters all have a display byte, the mappable
/// prefix is at least `n` long; it is exactly `n` long where the sequence ends
/// there or character `n` has none.
pub proof fn lemma_mappable_prefix_len(chars: Seq<char>, n: int)
    requires
        0 <= n <= chars.len(),
        forall|i: int| 0 <= i < n ==> is_mappable(#[trigger] chars[i]),
    ensures
        mappable_prefix_len(chars) >= n,
        n == chars.len() || !is_mappable(chars[n]) ==> mappable_prefix_len(chars) == n,
    decreases n,
{
    if n > 0 {
        let rest = chars.drop_first();
        assert forall|i: int| 0 <= i < n - 1 implies is_mappable(#[trigger] rest[i]) by {}
        lemma_mappable_prefix_len(rest, n - 1);
    }
}

} // verus!
