//! What holds of encoding and decoding together.

use vstd::prelude::*;
use crate::alphabet::{
    is_symbol,
    lemma_value_of_symbol,
    symbol_char,
    symbol_value,
    PAD_SYMBOL,
    SEPARATOR,
};
use crate::decoding::{
    all_symbols,
    decoded,
    decoded_text,
    decoded_len,
    decoded_symbols,
    fold_value,
    group,
    lemma_stripped_push,
    stripped,
    value_byte,
};
use crate::encoding::{chunk_byte, chunk_value, digit, encoded, encoded_len};
use crate::radix::{lemma_big_endian, lemma_digits, lemma_refill_keeps_bytes, refilled};
use crate::text::{ascii_text, char_bytes, decodable, is_codec_char, lemma_ascii_text_bytes};

verus! {

/// The number that five symbols are the digits of, written out.
pub proof fn lemma_fold_five(symbols: Seq<u8>)
    requires
        symbols.len() == 5,
    ensures
        fold_value(symbols) == symbol_value(symbols[0]).unwrap() * 52_200_625 + symbol_value(
            symbols[1],
        ).unwrap() * 614_125 + symbol_value(symbols[2]).unwrap() * 7_225 + symbol_value(
            symbols[3],
        ).unwrap() * 85 + symbol_value(symbols[4]).unwrap(),
{
    let s4 = symbols.drop_last();
    let s3 = s4.drop_last();
    let s2 = s3.drop_last();
    let s1 = s2.drop_last();
    let s0 = s1.drop_last();
    assert(fold_value(s0) == 0);
    assert(fold_value(s1) == fold_value(s0) * 85 + symbol_value(s1.last()).unwrap());
    assert(fold_value(s2) == fold_value(s1) * 85 + symbol_value(s2.last()).unwrap());
    assert(fold_value(s3) == fold_value(s2) * 85 + symbol_value(s3.last()).unwrap());
    assert(fold_value(s4) == fold_value(s3) * 85 + symbol_value(s4.last()).unwrap());
    assert(fold_value(symbols) == fold_value(s4) * 85 + symbol_value(symbols.last()).unwrap());
}

/// A text without separators is left as it is when separators are removed.
pub proof fn lemma_stripped_without_separator(text: Seq<u8>)
    requires
        forall|i: int| 0 <= i < text.len() ==> #[trigger] text[i] != SEPARATOR,
    ensures
        stripped(text) == text,
    decreases text.len(),
{
    if text.len() == 0 {
        reveal(Seq::filter);
    } else {
        lemma_stripped_without_separator(text.drop_last());
        lemma_stripped_push(text.drop_last(), text.last());
        assert(text.drop_last().push(text.last()) =~= text);
    }
}

/// The bytes of a chunk are the bytes of its value.
pub proof fn lemma_chunk_value_bytes(bytes: Seq<u8>, k: int, j: int)
    requires
        0 <= k,
        0 <= j < 4,
    ensures
        0 <= chunk_value(bytes, k) < 0x1_0000_0000,
        value_byte(chunk_value(bytes, k), j) == chunk_byte(bytes, k, j),
        4 * k + 3 >= bytes.len() ==> chunk_value(bytes, k) % 0x100 == 0,
        4 * k + 2 >= bytes.len() ==> chunk_value(bytes, k) % 0x1_0000 == 0,
        4 * k + 1 >= bytes.len() ==> chunk_value(bytes, k) % 0x100_0000 == 0,
{
    lemma_big_endian(
        chunk_byte(bytes, k, 0),
        chunk_byte(bytes, k, 1),
        chunk_byte(bytes, k, 2),
        chunk_byte(bytes, k, 3),
    );
}

/// Encoded text is made of symbols of the alphabet: ASCII characters, none of
/// them a separator.
pub proof fn lemma_encoded_symbols(bytes: Seq<u8>)
    ensures
        all_symbols(encoded(bytes)),
        forall|i: int|
            0 <= i < encoded(bytes).len() ==> (#[trigger] encoded(bytes)[i]) < 0x80 && encoded(
                bytes,
            )[i] != SEPARATOR,
        stripped(encoded(bytes)) == encoded(bytes),
{
    let e = encoded(bytes);
    assert forall|i: int| 0 <= i < e.len() implies is_symbol(#[trigger] e[i]) && e[i] < 0x80
        && e[i] != SEPARATOR by {
        let v = chunk_value(bytes, i / 5);
        lemma_chunk_value_bytes(bytes, i / 5, 0);
        lemma_digits(v);
        lemma_value_of_symbol(digit(v, i % 5));
    }
    lemma_stripped_without_separator(e);
}

/// Decoding gives back what was encoded.
pub proof fn lemma_round_trip(bytes: Seq<u8>)
    ensures
        decoded(encoded(bytes)) == Some(bytes),
{
    let e = encoded(bytes);
    let n = bytes.len() as int;
    lemma_encoded_symbols(bytes);
    assert(decoded_len(encoded_len(n)) == n);
    let d = decoded_symbols(e).unwrap();
    assert forall|i: int| 0 <= i < n implies d[i] == bytes[i] by {
        let k = i / 4;
        let v = chunk_value(bytes, k);
        let kept = if 4 * k + 4 <= n {
            5
        } else {
            n - 4 * k + 1
        };
        let grp = group(e, k);
        lemma_chunk_value_bytes(bytes, k, i % 4);
        lemma_digits(v);
        assert forall|j: int| 0 <= j < 5 implies symbol_value(#[trigger] grp[j]).unwrap() == (if j
            < kept {
            digit(v, j)
        } else {
            84
        }) by {
            if j < kept {
                assert(5 * k + j < e.len());
                assert((5 * k + j) / 5 == k && (5 * k + j) % 5 == j);
                assert(grp[j] == symbol_char(digit(v, j)));
                lemma_value_of_symbol(digit(v, j));
            } else {
                assert(5 * k + j >= e.len());
                assert(grp[j] == PAD_SYMBOL);
            }
        }
        lemma_fold_five(grp);
        assert(fold_value(grp) == refilled(v, kept));
        lemma_refill_keeps_bytes(v, kept, i % 4);
    }
    assert(d =~= bytes);
}

/// Decoding the text that `encode` returns gives back what was encoded.
pub proof fn lemma_round_trip_text(bytes: Seq<u8>)
    ensures
        decodable(ascii_text(encoded(bytes))),
        decoded_text(ascii_text(encoded(bytes))) == Some(bytes),
{
    lemma_encoded_symbols(bytes);
    lemma_round_trip(bytes);
    lemma_ascii_text_bytes(encoded(bytes));
    let text = ascii_text(encoded(bytes));
    assert forall|i: int| 0 <= i < text.len() implies is_codec_char(#[trigger] text[i]) by {
        assert(is_symbol(encoded(bytes)[i]));
        assert(text[i] as u8 == encoded(bytes)[i]);
    }
}

/// Nothing is encoded to nothing, and nothing is decoded to nothing.
pub proof fn lemma_empty()
    ensures
        encoded(Seq::<u8>::empty()) == Seq::<u8>::empty(),
        ascii_text(encoded(Seq::<u8>::empty())) == Seq::<char>::empty(),
        decoded(Seq::<u8>::empty()) == Some(Seq::<u8>::empty()),
        decoded_text(Seq::<char>::empty()) == Some(Seq::<u8>::empty()),
{
    assert(char_bytes(Seq::<char>::empty()) =~= Seq::<u8>::empty());
    let none = Seq::<u8>::empty();
    assert(encoded(none) =~= none);
    assert(ascii_text(encoded(none)) =~= Seq::<char>::empty());
    lemma_stripped_without_separator(none);
    assert(decoded_symbols(none).unwrap() =~= none);
}

/// The number of symbols in encoded text: five for each full chunk of four
/// bytes, and for a shorter last chunk one more than it has bytes.
pub proof fn lemma_encoded_len(bytes: Seq<u8>)
    ensures
        encoded(bytes).len() == 5 * (bytes.len() / 4) + if bytes.len() % 4 == 0 {
            0
        } else {
            bytes.len() % 4 + 1
        },
        ascii_text(encoded(bytes)).len() == encoded(bytes).len(),
{
}

/// Below four bytes there is no full chunk, and the number of symbols is four
/// times the number of full chunks, plus one more than the bytes of the short
/// chunk where there is one.
pub proof fn lemma_encoded_len_without_full_chunk(bytes: Seq<u8>)
    requires
        bytes.len() < 4,
    ensures
        encoded(bytes).len() == 4 * (bytes.len() / 4) + if bytes.len() % 4 == 0 {
            0
        } else {
            bytes.len() % 4 + 1
        },
{
}

/// A separator put anywhere into a text changes nothing in what the text is
/// decoded to.
pub proof fn lemma_separator_insert(text: Seq<u8>, i: int)
    requires
        0 <= i <= text.len(),
    ensures
        stripped(text.insert(i, SEPARATOR)) == stripped(text),
        decoded(text.insert(i, SEPARATOR)) == decoded(text),
{
    let head = text.take(i);
    let tail = text.skip(i);
    assert(text.insert(i, SEPARATOR) =~= head.push(SEPARATOR) + tail);
    assert(text =~= head + tail);
    lemma_stripped_push(head, SEPARATOR);
    Seq::filter_distributes_over_add(head.push(SEPARATOR), tail, |c: u8| c != SEPARATOR);
    Seq::filter_distributes_over_add(head, tail, |c: u8| c != SEPARATOR);
}

/// A space put anywhere into a text changes nothing in what the text is
/// decoded to.
pub proof fn lemma_space_insert(chars: Seq<char>, i: int)
    requires
        0 <= i <= chars.len(),
    ensures
        decoded_text(chars.insert(i, ' ')) == decoded_text(chars),
{
    let spaced = chars.insert(i, ' ');
    assert(is_codec_char(' '));
    if decodable(chars) {
        assert forall|k: int| 0 <= k < spaced.len() implies is_codec_char(#[trigger] spaced[k]) by {
            if k < i {
                assert(spaced[k] == chars[k]);
            } else if k > i {
                assert(spaced[k] == chars[k - 1]);
            }
        }
        assert(char_bytes(spaced) =~= char_bytes(chars).insert(i, SEPARATOR));
        lemma_separator_insert(char_bytes(chars), i);
    } else {
        let k = choose|k: int| 0 <= k < chars.len() && !is_codec_char(#[trigger] chars[k]);
        if k < i {
            assert(spaced[k] == chars[k]);
        } else {
            assert(spaced[k + 1] == chars[k]);
        }
    }
}

/// A last group of a single symbol gives no byte: the text is decoded to what
/// it is decoded to without that symbol.
pub proof fn lemma_single_symbol_tail(symbols: Seq<u8>)
    requires
        symbols.len() % 5 == 1,
        is_symbol(symbols.last()),
    ensures
        decoded_symbols(symbols) == decoded_symbols(symbols.drop_last()),
        decoded_symbols(symbols) matches Some(bytes) ==> bytes.len() == 4 * (symbols.len() / 5),
{
    let front = symbols.drop_last();
    if all_symbols(front) {
        assert forall|i: int| 0 <= i < symbols.len() implies is_symbol(#[trigger] symbols[i]) by {
            if i < front.len() {
                assert(front[i] == symbols[i]);
            }
        }
        let a = decoded_symbols(symbols).unwrap();
        let b = decoded_symbols(front).unwrap();
        assert(a.len() == b.len());
        assert forall|i: int| 0 <= i < a.len() implies a[i] == b[i] by {
            assert(group(symbols, i / 4) =~= group(front, i / 4));
        }
        assert(a =~= b);
    } else {
        let i = choose|i: int| 0 <= i < front.len() && !is_symbol(#[trigger] front[i]);
        assert(!is_symbol(symbols[i]));
    }
}

} // verus!
