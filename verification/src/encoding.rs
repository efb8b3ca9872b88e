//! Encoding: bytes to text.
//!
//! The bytes are cut into chunks of four, the last one possibly shorter. A
//! chunk is read as a big-endian number, short chunks with zero bytes added on
//! the right, and written as five digits to the base 85. Of a chunk of `n`
//! bytes the first `n + 1` digits are kept.

use vstd::prelude::*;
use vstd::slice::slice_subrange;
use crate::alphabet::{symbol_char, ALPHABET};
use crate::text::ascii_text;

verus! {

/// Byte `j` of chunk `k` of `bytes`, as a number; zero where the chunk is too
/// short to have it.
pub open spec fn chunk_byte(bytes: Seq<u8>, k: int, j: int) -> int {
    if 0 <= 4 * k + j < bytes.len() {
        bytes[4 * k + j] as int
    } else {
        0
    }
}

/// Chunk `k` of `bytes`, read as a big-endian number of four bytes.
pub open spec fn chunk_value(bytes: Seq<u8>, k: int) -> int {
    chunk_byte(bytes, k, 0) * 0x100_0000 + chunk_byte(bytes, k, 1) * 0x1_0000 + chunk_byte(
        bytes,
        k,
        2,
    ) * 0x100 + chunk_byte(bytes, k, 3)
}

/// Digit `j` of `v` to the base 85, counted from the most significant of five.
pub open spec fn digit(v: int, j: int) -> int {
    if j == 0 {
        v / 52_200_625
    } else if j == 1 {
        (v % 52_200_625) / 614_125
    } else if j == 2 {
        (v % 614_125) / 7_225
    } else if j == 3 {
        (v % 7_225) / 85
    } else {
        v % 85
    }
}

/// The number of symbols that `n` bytes are encoded to: five for each full
/// chunk, and one more than its bytes for a shorter last chunk.
pub open spec fn encoded_len(n: int) -> int {
    5 * (n / 4) + if n % 4 == 0 {
        0
    } else {
        n % 4 + 1
    }
}

/// The symbols that `bytes` are encoded to.
pub open spec fn encoded(bytes: Seq<u8>) -> Seq<u8> {
    Seq::new(
        encoded_len(bytes.len() as int) as nat,
        |i: int| symbol_char(digit(chunk_value(bytes, i / 5), i % 5)),
    )
}

/// Appends one character to a string: `String::push` of the standard library,
/// which adds the character at the end and changes nothing before it.
#[verifier::external_body]
fn push_char(text: &mut String, c: char)
    ensures
        final(text)@ == old(text)@.push(c),
{
    text.push(c)
}

/// Writes the five digits of one chunk of one to four bytes into `buffer`, as
/// symbols, and returns the number of bytes in the chunk.
#[must_use]
pub fn encode_u32_chunk(chunk: &[u8], buffer: &mut [u8; 5]) -> (n: usize)
    requires
        1 <= chunk@.len() <= 4,
    ensures
        n == chunk@.len(),
        forall|j: int|
            0 <= j < 5 ==> (#[trigger] final(buffer)@[j]) == symbol_char(
                digit(chunk_value(chunk@, 0), j),
            ),
{
    let n = chunk.len();
    let b0: u32 = chunk[0] as u32;
    let b1: u32 = if n > 1 {
        chunk[1] as u32
    } else {
        0
    };
    let b2: u32 = if n > 2 {
        chunk[2] as u32
    } else {
        0
    };
    let b3: u32 = if n > 3 {
        chunk[3] as u32
    } else {
        0
    };
    let in_value: u32 = b0 * 0x100_0000 + b1 * 0x1_0000 + b2 * 0x100 + b3;
    assert(in_value as int == chunk_value(chunk@, 0));
    *buffer = [
        ALPHABET[(in_value / 52_200_625) as usize],
        ALPHABET[((in_value % 52_200_625) / 614_125) as usize],
        ALPHABET[((in_value % 614_125) / 7_225) as usize],
        ALPHABET[((in_value % 7_225) / 85) as usize],
        ALPHABET[(in_value % 85) as usize],
    ];
    n
}

/// Encodes `data` as text.
///
/// The result is made of symbols of the alphabet only, without separators.
#[must_use]
pub fn encode(data: &[u8]) -> (text: String)
    ensures
        text@ == ascii_text(encoded(data@)),
        text@.len() == encoded_len(data@.len() as int),
{
    let mut buffer: [u8; 5] = [0;5];
    let mut text = String::new();
    let mut start: usize = 0;
    while start < data.len()
        invariant
            start <= data@.len(),
            start == data@.len() || start % 4 == 0,
            text@.len() == encoded_len(start as int),
            forall|i: int|
                0 <= i < text@.len() ==> (#[trigger] text@[i]) == encoded(data@)[i] as char,
        decreases data@.len() - start,
    {
        let end: usize = if data.len() - start < 4 {
            data.len()
        } else {
            start + 4
        };
        let chunk = slice_subrange(data, start, end);
        let n = encode_u32_chunk(chunk, &mut buffer);
        proof {
            assert(chunk_value(chunk@, 0) == chunk_value(data@, start as int / 4));
        }
        let mut j: usize = 0;
        while j <= n
            invariant
                j <= n + 1,
                n == end - start,
                1 <= n <= 4,
                start % 4 == 0,
                start < end <= data@.len(),
                end == data@.len() || end == start + 4,
                text@.len() == encoded_len(start as int) + j,
                forall|i: int|
                    0 <= i < text@.len() ==> (#[trigger] text@[i]) == encoded(data@)[i] as char,
                forall|j: int|
                    0 <= j < 5 ==> (#[trigger] buffer@[j]) == symbol_char(
                        digit(chunk_value(data@, start as int / 4), j),
                    ),
            decreases n + 1 - j,
        {
            let ghost before = text@;
            push_char(&mut text, buffer[j] as char);
            proof {
                let i = before.len() as int;
                assert(i / 5 == start as int / 4 && i % 5 == j as int);
                assert(i < encoded_len(data@.len() as int));
            }
            j += 1;
        }
        start = end;
    }
    assert(text@ =~= ascii_text(encoded(data@)));
    text
}

} // verus!
