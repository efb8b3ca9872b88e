//! Text as bytes.
//!
//! The codec works on the bytes of a text. A symbol or a separator is an ASCII
//! character and so one byte; every byte of any other character is above the
//! ASCII range.

use vstd::prelude::*;
use vstd::string::StringSliceAdditionalSpecFns;
use vstd::utf8::{encode_scalar, encode_utf8, is_ascii_chars, is_ascii_chars_encode_utf8};
use crate::alphabet::{is_symbol, SEPARATOR};

verus! {

/// The text whose characters are the ASCII bytes `symbols`.
pub open spec fn ascii_text(symbols: Seq<u8>) -> Seq<char> {
    Seq::new(symbols.len(), |i: int| symbols[i] as char)
}

/// The bytes of a text of ASCII characters: one for each character.
pub open spec fn char_bytes(chars: Seq<char>) -> Seq<u8> {
    Seq::new(chars.len(), |i: int| chars[i] as u8)
}

/// Whether the character `c` is a separator or a symbol of the alphabet.
pub open spec fn is_codec_char(c: char) -> bool {
    c <= '\u{7f}' && (c as u8 == SEPARATOR || is_symbol(c as u8))
}

/// Whether `chars` holds nothing but separators and symbols of the alphabet.
pub open spec fn decodable(chars: Seq<char>) -> bool {
    forall|i: int| 0 <= i < chars.len() ==> is_codec_char(#[trigger] chars[i])
}

/// A character is ASCII where its number is below 128, and no character is
/// below the first one.
pub proof fn lemma_char_number(c: char)
    ensures
        '\0' <= c,
        c <= '\u{7f}' <==> c as u32 <= 0x7f,
{
}

/// The first byte of a character beyond ASCII is above the ASCII range.
pub proof fn lemma_first_byte_beyond_ascii(c: u32)
    requires
        c > 0x7f,
    ensures
        encode_scalar(c).len() >= 1,
        encode_scalar(c)[0] >= 0x80,
{
    assert((0xC0u8 | ((c >> 6) & 0x1F) as u8) >= 0x80) by (bit_vector);
    assert((0xE0u8 | ((c >> 12) & 0x0F) as u8) >= 0x80) by (bit_vector);
    assert((0xF0u8 | ((c >> 18) & 0x7) as u8) >= 0x80) by (bit_vector);
}

/// A text with a character beyond ASCII, at `i`, has a byte above the ASCII
/// range.
pub proof fn lemma_byte_beyond_ascii(chars: Seq<char>, i: int) -> (at: int)
    requires
        0 <= i < chars.len(),
        chars[i] > '\u{7f}',
    ensures
        0 <= at < encode_utf8(chars).len(),
        encode_utf8(chars)[at] >= 0x80,
    decreases chars.len(),
{
    let first = encode_scalar(chars[0] as u32);
    let rest = chars.drop_first();
    lemma_char_number(chars[0]);
    if chars[0] > '\u{7f}' {
        lemma_first_byte_beyond_ascii(chars[0] as u32);
        0
    } else {
        assert(rest[i - 1] == chars[i]);
        let at = lemma_byte_beyond_ascii(rest, i - 1);
        first.len() + at
    }
}

/// The bytes of a text of ASCII characters are its characters.
pub proof fn lemma_ascii_bytes(text: &str)
    requires
        is_ascii_chars(text@),
    ensures
        text.spec_bytes() == char_bytes(text@),
{
    is_ascii_chars_encode_utf8(text@);
    assert(text.spec_bytes() =~= char_bytes(text@));
}

/// The characters made of ASCII bytes have those bytes.
pub proof fn lemma_ascii_text_bytes(symbols: Seq<u8>)
    requires
        forall|i: int| 0 <= i < symbols.len() ==> (#[trigger] symbols[i]) < 0x80,
    ensures
        char_bytes(ascii_text(symbols)) == symbols,
{
    assert(char_bytes(ascii_text(symbols)) =~= symbols);
}

} // verus!
