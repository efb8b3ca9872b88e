//! The 85 symbols of the alphabet and the two maps between symbols and values.
//!
//! A symbol is one byte of text. The value of a symbol is its position in
//! [`ALPHABET`], a number from 0 to 84.

use vstd::prelude::*;

verus! {

/// The symbols in the order of their values: the digits, the upper-case
/// letters, the lower-case letters, then ``!#$%&()*+-;<=>?@^_`{|}~``.
pub const ALPHABET: [u8; 85] = [
    0x30, 0x31, 0x32, 0x33, 0x34, 0x35, 0x36, 0x37, 0x38, 0x39,
    0x41, 0x42, 0x43, 0x44, 0x45, 0x46, 0x47, 0x48, 0x49, 0x4a, 0x4b, 0x4c, 0x4d,
    0x4e, 0x4f, 0x50, 0x51, 0x52, 0x53, 0x54, 0x55, 0x56, 0x57, 0x58, 0x59, 0x5a,
    0x61, 0x62, 0x63, 0x64, 0x65, 0x66, 0x67, 0x68, 0x69, 0x6a, 0x6b, 0x6c, 0x6d,
    0x6e, 0x6f, 0x70, 0x71, 0x72, 0x73, 0x74, 0x75, 0x76, 0x77, 0x78, 0x79, 0x7a,
    0x21, 0x23, 0x24, 0x25, 0x26, 0x28, 0x29, 0x2a, 0x2b, 0x2d, 0x3b, 0x3c, 0x3d,
    0x3e, 0x3f, 0x40, 0x5e, 0x5f, 0x60, 0x7b, 0x7c, 0x7d, 0x7e,
];

/// The symbol that is put in place of the missing symbols of a short last group:
/// `~`, the symbol of the highest value.
pub const PAD_SYMBOL: u8 = 0x7e;

/// The separator that decoding skips: the ASCII space.
pub const SEPARATOR: u8 = 0x20;

/// The symbol of the value `v`.
pub open spec fn symbol_char(v: int) -> u8
    recommends
        0 <= v < 85,
{
    ALPHABET[v]
}

/// The value of the byte `c`, or `None` where `c` is no symbol of the alphabet.
pub open spec fn symbol_value(c: u8) -> Option<u8> {
    if 0x30 <= c <= 0x39 {
        Some((c - 0x30) as u8)
    } else if 0x41 <= c <= 0x5a {
        Some((c - 0x41 + 10) as u8)
    } else if 0x61 <= c <= 0x7a {
        Some((c - 0x61 + 36) as u8)
    } else if c == 0x21 {
        Some(62u8)
    } else if c == 0x23 {
        Some(63u8)
    } else if c == 0x24 {
        Some(64u8)
    } else if c == 0x25 {
        Some(65u8)
    } else if c == 0x26 {
        Some(66u8)
    } else if c == 0x28 {
        Some(67u8)
    } else if c == 0x29 {
        Some(68u8)
    } else if c == 0x2a {
        Some(69u8)
    } else if c == 0x2b {
        Some(70u8)
    } else if c == 0x2d {
        Some(71u8)
    } else if c == 0x3b {
        Some(72u8)
    } else if c == 0x3c {
        Some(73u8)
    } else if c == 0x3d {
        Some(74u8)
    } else if c == 0x3e {
        Some(75u8)
    } else if c == 0x3f {
        Some(76u8)
    } else if c == 0x40 {
        Some(77u8)
    } else if c == 0x5e {
        Some(78u8)
    } else if c == 0x5f {
        Some(79u8)
    } else if c == 0x60 {
        Some(80u8)
    } else if c == 0x7b {
        Some(81u8)
    } else if c == 0x7c {
        Some(82u8)
    } else if c == 0x7d {
        Some(83u8)
    } else if c == 0x7e {
        Some(84u8)
    } else {
        None
    }
}

/// Whether the byte `c` is a symbol of the alphabet.
pub open spec fn is_symbol(c: u8) -> bool {
    symbol_value(c) is Some
}

/// Every symbol of the table has its own position as its value, is an ASCII
/// character, and is not the separator.
pub proof fn lemma_value_of_symbol(v: int)
    requires
        0 <= v < 85,
    ensures
        symbol_value(symbol_char(v)) == Some(v as u8),
        symbol_char(v) < 0x80,
        symbol_char(v) != SEPARATOR,
{
    if v < 20 {
    } else if v < 40 {
    } else if v < 60 {
    } else {
    }
}

/// Every byte that has a value is the symbol of that value, and the value is
/// below 85.
pub proof fn lemma_symbol_of_value(c: u8)
    requires
        is_symbol(c),
    ensures
        symbol_value(c).unwrap() < 85,
        symbol_char(symbol_value(c).unwrap() as int) == c,
{
}

/// The value of the byte `c`, if it is a symbol of the alphabet.
pub fn to_x85(c: u8) -> (value: Option<u8>)
    ensures
        value == symbol_value(c),
{
    if 0x30 <= c && c <= 0x39 {
        Some(c - 0x30)
    } else if 0x41 <= c && c <= 0x5a {
        Some(c - 0x41 + 10)
    } else if 0x61 <= c && c <= 0x7a {
        Some(c - 0x61 + 36)
    } else {
        match c {
            0x21 => Some(62),
            0x23 => Some(63),
            0x24 => Some(64),
            0x25 => Some(65),
            0x26 => Some(66),
            0x28 => Some(67),
            0x29 => Some(68),
            0x2a => Some(69),
            0x2b => Some(70),
            0x2d => Some(71),
            0x3b => Some(72),
            0x3c => Some(73),
            0x3d => Some(74),
            0x3e => Some(75),
            0x3f => Some(76),
            0x40 => Some(77),
            0x5e => Some(78),
            0x5f => Some(79),
            0x60 => Some(80),
            0x7b => Some(81),
            0x7c => Some(82),
            0x7d => Some(83),
            0x7e => Some(84),
            _ => None,
        }
    }
}

} // verus!
