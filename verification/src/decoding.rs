//! Decoding: text to bytes.
//!
//! The text is taken as its bytes. ASCII spaces are removed first. What is left
//! is cut into groups of five symbols; a shorter last group is filled up with
//! the symbol of the highest value. A group is read as a number of five digits
//! to the base 85 and gives the four big-endian bytes of the low 32 bits of that
//! number. Of a last group of `k` symbols the first `k - 1` bytes are kept.

use vstd::prelude::*;
use vstd::slice::{slice_subrange, slice_to_vec};
use vstd::string::StringSliceAdditionalSpecFns;
use crate::alphabet::{is_symbol, symbol_value, to_x85, PAD_SYMBOL, SEPARATOR};
use crate::text::{
    char_bytes,
    decodable,
    is_codec_char,
    lemma_ascii_bytes,
    lemma_byte_beyond_ascii,
    lemma_char_number,
};

verus! {

/// `text` without its separators.
pub open spec fn stripped(text: Seq<u8>) -> Seq<u8> {
    text.filter(|c: u8| c != SEPARATOR)
}

/// Whether every byte of `symbols` is a symbol of the alphabet.
pub open spec fn all_symbols(symbols: Seq<u8>) -> bool {
    forall|i: int| 0 <= i < symbols.len() ==> is_symbol(#[trigger] symbols[i])
}

/// Group `g` of `symbols`, filled up to five symbols where it is shorter.
pub open spec fn group(symbols: Seq<u8>, g: int) -> Seq<u8> {
    Seq::new(
        5,
        |j: int|
            if 0 <= 5 * g + j < symbols.len() {
                symbols[5 * g + j]
            } else {
                PAD_SYMBOL
            },
    )
}

/// The number that `symbols` are the digits of, to the base 85, the most
/// significant digit first.
pub open spec fn fold_value(symbols: Seq<u8>) -> int
    decreases symbols.len(),
{
    if symbols.len() == 0 {
        0
    } else {
        fold_value(symbols.drop_last()) * 85 + symbol_value(symbols.last()).unwrap() as int
    }
}

/// Byte `i` of the four big-endian bytes of the low 32 bits of `v`.
pub open spec fn value_byte(v: int, i: int) -> u8 {
    if i == 0 {
        ((v / 0x100_0000) % 0x100) as u8
    } else if i == 1 {
        ((v / 0x1_0000) % 0x100) as u8
    } else if i == 2 {
        ((v / 0x100) % 0x100) as u8
    } else {
        (v % 0x100) as u8
    }
}

/// The number of bytes that `m` symbols are decoded to: four for each full
/// group, and one less than its symbols for a shorter last group.
pub open spec fn decoded_len(m: int) -> int {
    4 * (m / 5) + if m % 5 == 0 {
        0
    } else {
        m % 5 - 1
    }
}

/// The bytes that a text without separators is decoded to, or `None` where one
/// of its bytes is no symbol of the alphabet.
pub open spec fn decoded_symbols(symbols: Seq<u8>) -> Option<Seq<u8>> {
    if all_symbols(symbols) {
        Some(
            Seq::new(
                decoded_len(symbols.len() as int) as nat,
                |i: int| value_byte(fold_value(group(symbols, i / 4)), i % 4),
            ),
        )
    } else {
        None
    }
}

/// The bytes that `text` is decoded to, or `None` where one of its bytes is
/// neither a separator nor a symbol of the alphabet.
pub open spec fn decoded(text: Seq<u8>) -> Option<Seq<u8>> {
    decoded_symbols(stripped(text))
}

/// The bytes that the text `chars` is decoded to, or `None` where one of its
/// characters is neither a separator nor a symbol of the alphabet.
pub open spec fn decoded_text(chars: Seq<char>) -> Option<Seq<u8>> {
    if decodable(chars) {
        decoded(char_bytes(chars))
    } else {
        None
    }
}

/// 85 to the power `n`, for the lengths that a group can have.
pub open spec fn radix_power(n: int) -> int {
    if n <= 0 {
        1
    } else if n == 1 {
        85
    } else if n == 2 {
        7_225
    } else if n == 3 {
        614_125
    } else if n == 4 {
        52_200_625
    } else {
        4_437_053_125
    }
}

/// Removing the separators of a text that ends in `c`: `c` stays last unless
/// it is a separator.
pub proof fn lemma_stripped_push(text: Seq<u8>, c: u8)
    ensures
        stripped(text.push(c)) == if c == SEPARATOR {
            stripped(text)
        } else {
            stripped(text).push(c)
        },
{
    reveal(Seq::filter);
    assert(text.push(c).drop_last() =~= text);
}

/// Whether every byte of `text` is a separator or a symbol of the alphabet.
pub open spec fn all_codec_bytes(text: Seq<u8>) -> bool {
    forall|i: int| 0 <= i < text.len() ==> is_codec_byte(#[trigger] text[i])
}

/// Whether the byte `c` is a separator or a symbol of the alphabet.
pub open spec fn is_codec_byte(c: u8) -> bool {
    c == SEPARATOR || is_symbol(c)
}

/// A text can be decoded if and only if each of its bytes is a separator or a
/// symbol of the alphabet.
pub proof fn lemma_decoded_some(text: Seq<u8>)
    ensures
        decoded(text) is Some <==> all_codec_bytes(text),
    decreases text.len(),
{
    if text.len() == 0 {
        reveal(Seq::filter);
    } else {
        let front = text.drop_last();
        let c = text.last();
        lemma_decoded_some(front);
        lemma_stripped_push(front, c);
        assert(front.push(c) =~= text);
        let s = stripped(front);
        if all_codec_bytes(text) {
            assert forall|i: int| 0 <= i < front.len() implies is_codec_byte(
                #[trigger] front[i],
            ) by {
                assert(front[i] == text[i]);
            }
            assert(is_codec_byte(text[text.len() - 1]));
            assert forall|i: int| 0 <= i < stripped(text).len() implies is_symbol(
                #[trigger] stripped(text)[i],
            ) by {
                if i < s.len() {
                    assert(stripped(text)[i] == s[i]);
                }
            }
        } else {
            let i = choose|i: int| 0 <= i < text.len() && !is_codec_byte(#[trigger] text[i]);
            if i < front.len() {
                assert(!is_codec_byte(front[i]));
                let j = choose|j: int| 0 <= j < s.len() && !is_symbol(#[trigger] s[j]);
                assert(stripped(text)[j] == s[j]);
            } else {
                assert(stripped(text) == s.push(c));
                assert(!is_symbol(stripped(text)[s.len() as int]));
            }
        }
    }
}

/// What a text is decoded to is what its bytes are decoded to; it can be
/// decoded if and only if each of its characters is a separator or a symbol of
/// the alphabet.
pub proof fn lemma_decoded_text(text: &str)
    ensures
        decoded(text.spec_bytes()) == decoded_text(text@),
        decoded_text(text@) is Some <==> decodable(text@),
{
    let chars = text@;
    let bytes = text.spec_bytes();
    lemma_decoded_some(bytes);
    if forall|i: int| 0 <= i < chars.len() ==> (#[trigger] chars[i]) <= '\u{7f}' {
        assert forall|i: int| 0 <= i < chars.len() implies '\0' <= #[trigger] chars[i]
            <= '\u{7f}' by {
            lemma_char_number(chars[i]);
        }
        lemma_ascii_bytes(text);
        if decodable(chars) {
            assert forall|i: int| 0 <= i < bytes.len() implies is_codec_byte(#[trigger] bytes[i]) by {
                assert(is_codec_char(chars[i]));
            }
        } else {
            let i = choose|i: int| 0 <= i < chars.len() && !is_codec_char(#[trigger] chars[i]);
            assert(!is_codec_byte(bytes[i]));
        }
    } else {
        let i = choose|i: int| 0 <= i < chars.len() && !((#[trigger] chars[i]) <= '\u{7f}');
        let at = lemma_byte_beyond_ascii(chars, i);
        assert(!is_codec_byte(bytes[at]));
        assert(!is_codec_char(chars[i]));
    }
}

/// Reads a chunk of at most five symbols as a number to the base 85 and gives
/// the four big-endian bytes of its low 32 bits, or `None` where a byte of the
/// chunk is no symbol.
pub fn decode_chunk(chunk: &[u8]) -> (bytes: Option<[u8; 4]>)
    requires
        chunk@.len() <= 5,
    ensures
        bytes is Some <==> all_symbols(chunk@),
        bytes matches Some(b) ==> forall|i: int|
            0 <= i < 4 ==> (#[trigger] b@[i]) == value_byte(fold_value(chunk@), i),
{
    let mut acc: u64 = 0;
    let mut i: usize = 0;
    while i < chunk.len()
        invariant
            i <= chunk@.len() <= 5,
            all_symbols(chunk@.take(i as int)),
            acc as int == fold_value(chunk@.take(i as int)),
            0 <= acc < radix_power(i as int),
        decreases chunk@.len() - i,
    {
        proof {
            assert(chunk@.take(i + 1).drop_last() =~= chunk@.take(i as int));
            assert(chunk@.take(i + 1).last() == chunk@[i as int]);
        }
        match to_x85(chunk[i]) {
            Some(value) => {
                acc = acc * 85 + value as u64;
            },
            None => {
                return None;
            },
        }
        i += 1;
    }
    proof {
        assert(chunk@.take(i as int) =~= chunk@);
    }
    Some(
        [
            ((acc / 0x100_0000) % 0x100) as u8,
            ((acc / 0x1_0000) % 0x100) as u8,
            ((acc / 0x100) % 0x100) as u8,
            (acc % 0x100) as u8,
        ],
    )
}

/// Decodes `instr`.
///
/// Returns `None` where `instr` holds a character that is neither an ASCII
/// space nor a symbol of the alphabet.
#[must_use]
pub fn decode(instr: &str) -> (bytes: Option<Vec<u8>>)
    ensures
        bytes is Some <==> decodable(instr@),
        match bytes {
            Some(b) => decoded_text(instr@) == Some(b@),
            None => decoded_text(instr@) is None,
        },
{
    let text = instr.as_bytes();
    let mut data: Vec<u8> = Vec::new();
    let mut i: usize = 0;
    while i < text.len()
        invariant
            i <= text@.len(),
            data@ == stripped(text@.take(i as int)),
        decreases text@.len() - i,
    {
        proof {
            lemma_stripped_push(text@.take(i as int), text@[i as int]);
            assert(text@.take(i as int).push(text@[i as int]) =~= text@.take(i + 1));
        }
        if text[i] != SEPARATOR {
            data.push(text[i]);
        }
        i += 1;
    }
    proof {
        assert(text@.take(i as int) =~= text@);
    }
    assert(data@ == stripped(instr.spec_bytes()));
    let full: usize = data.len() / 5;
    let rem: usize = data.len() % 5;
    let mut outdata: Vec<u8> = Vec::new();
    let mut g: usize = 0;
    while g < full
        invariant
            g <= full,
            full == data@.len() / 5,
            5 * full <= data@.len() <= usize::MAX,
            data@ == stripped(instr.spec_bytes()),
            outdata@.len() == 4 * g,
            all_symbols(data@.take(5 * g)),
            forall|i: int|
                0 <= i < 4 * g ==> (#[trigger] outdata@[i]) == value_byte(
                    fold_value(group(data@, i / 4)),
                    i % 4,
                ),
        decreases full - g,
    {
        let chunk = slice_subrange(data.as_slice(), 5 * g, 5 * g + 5);
        proof {
            assert(chunk@ =~= group(data@, g as int));
        }
        match decode_chunk(chunk) {
            Some(value) => {
                outdata.push(value[0]);
                outdata.push(value[1]);
                outdata.push(value[2]);
                outdata.push(value[3]);
            },
            None => {
                proof {
                    lemma_decoded_text(instr);
                    let j = choose|j: int| 0 <= j < chunk@.len() && !is_symbol(chunk@[j]);
                    assert(!is_symbol(data@[5 * g + j]));
                }
                return None;
            },
        }
        proof {
            assert forall|k: int| 0 <= k < 5 * (g + 1) implies is_symbol(
                #[trigger] data@.take(5 * (g + 1))[k],
            ) by {
                if k < 5 * g {
                    assert(data@.take(5 * g)[k] == data@[k]);
                } else {
                    assert(chunk@[k - 5 * g] == data@[k]);
                }
            }
        }
        g += 1;
    }
    if rem != 0 {
        let mut tail = slice_to_vec(slice_subrange(data.as_slice(), 5 * full, data.len()));
        while tail.len() != 5
            invariant
                rem <= tail@.len() <= 5,
                rem == data@.len() - 5 * full,
                forall|j: int|
                    0 <= j < tail@.len() ==> (#[trigger] tail@[j]) == group(data@, full as int)[j],
            decreases 5 - tail@.len(),
        {
            tail.push(PAD_SYMBOL);
        }
        proof {
            assert(tail@ =~= group(data@, full as int));
        }
        match decode_chunk(tail.as_slice()) {
            Some(value) => {
                let mut k: usize = 0;
                while k < rem - 1
                    invariant
                        k <= rem - 1,
                        1 <= rem <= 4,
                        outdata@.len() == 4 * full + k,
                        forall|i: int|
                            0 <= i < 4 * full + k ==> (#[trigger] outdata@[i]) == value_byte(
                                fold_value(group(data@, i / 4)),
                                i % 4,
                            ),
                        forall|i: int|
                            0 <= i < 4 ==> (#[trigger] value@[i]) == value_byte(
                                fold_value(group(data@, full as int)),
                                i,
                            ),
                    decreases rem - 1 - k,
                {
                    outdata.push(value[k]);
                    k += 1;
                }
                proof {
                    assert forall|k: int| 0 <= k < data@.len() implies is_symbol(
                        #[trigger] data@[k],
                    ) by {
                        if k < 5 * full {
                            assert(data@.take(5 * full)[k] == data@[k]);
                        } else {
                            assert(tail@[k - 5 * full] == data@[k]);
                        }
                    }
                }
            },
            None => {
                proof {
                    lemma_decoded_text(instr);
                    let j = choose|j: int| 0 <= j < tail@.len() && !is_symbol(tail@[j]);
                    assert(is_symbol(PAD_SYMBOL));
                    assert(!is_symbol(data@[5 * full + j]));
                }
                return None;
            },
        }
    } else {
        proof {
            assert(data@.take(5 * full) =~= data@);
        }
    }
    proof {
        lemma_decoded_text(instr);
        assert(outdata@ =~= decoded_symbols(data@).unwrap());
    }
    Some(outdata)
}

} // verus!
