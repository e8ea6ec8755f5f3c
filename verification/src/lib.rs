//! Text for character LCDs with a Cyrillic character ROM.
//!
//! Such a display takes one byte for each character, in a code of its own:
//! ASCII as it is, and the Russian letters scattered over the upper half of
//! the code, or folded onto the Latin letters that look the same. This crate
//! turns ASCII and Russian text into those bytes.
//!
//! [`lcd_length`] counts the characters of a string, which is the number of
//! bytes it needs on the display; [`lcd_encode_runtime`] transcodes a string
//! into a buffer. What both do is stated over the views of their arguments by
//! the functions of [`model`]; [`laws`] holds what follows from there.

use vstd::prelude::*;

pub mod cursor;
pub mod internal;
pub mod laws;
pub mod model;

use crate::model::{fits, reported_len, transcoded_into, written_len};

verus! {

/// The number of bytes that the display code of `s` takes: one for each
/// character of `s`.
///
/// It walks the whole string and is not made for speed. Use it to size the
/// buffer for [`lcd_encode_runtime`].
pub fn lcd_length(s: &str) -> (length: usize)
    ensures
        length == s@.len(),
{
    internal::utf8_len(s)
}

/// Transcodes `s` into `output`, and reports how many bytes it wrote.
///
/// It writes the display byte of each character, from the start of `output`
/// on, until the string ends, the buffer is full or a character has no display
/// byte. Where the string ended the count comes as `Ok`, else as `Err`; the
/// bytes behind those written are left as they were.
pub fn lcd_encode_runtime(output: &mut [u8], s: &str) -> (r: Result<usize, usize>)
    ensures
        r is Ok <==> fits(s@, old(output)@.len()),
        r is Ok ==> reported_len(r) == s@.len(),
        reported_len(r) == written_len(s@, old(output)@.len()),
        final(output)@ == transcoded_into(old(output)@, s@),
{
    internal::str_to_lcd_runtime(output, s)
}

} // verus!
