//! Numbers written to the base 85 and to the base 256.
//!
//! A chunk of four bytes is a number below 256 to the fourth power, which is
//! below 85 to the fifth: five digits to the base 85 hold it. A shorter chunk
//! keeps fewer digits, and what the dropped digits held is less than one unit
//! of the lowest byte that the chunk has.

use vstd::prelude::*;
use vstd::arithmetic::div_mod::{
    lemma_div_denominator,
    lemma_fundamental_div_mod,
    lemma_fundamental_div_mod_converse,
    lemma_mod_breakdown,
};
use crate::decoding::value_byte;
use crate::encoding::digit;

verus! {

/// The number whose five digits to the base 85 are the first `kept` digits of
/// `v`, followed by digits of the highest value.
pub open spec fn refilled(v: int, kept: int) -> int {
    (if kept > 0 {
        digit(v, 0)
    } else {
        84
    }) * 52_200_625 + (if kept > 1 {
        digit(v, 1)
    } else {
        84
    }) * 614_125 + (if kept > 2 {
        digit(v, 2)
    } else {
        84
    }) * 7_225 + (if kept > 3 {
        digit(v, 3)
    } else {
        84
    }) * 85 + (if kept > 4 {
        digit(v, 4)
    } else {
        84
    })
}

/// The five digits of a number below 85 to the fifth power are below 85 and
/// give the number back.
pub proof fn lemma_digits(v: int)
    requires
        0 <= v < 4_437_053_125,
    ensures
        forall|j: int| 0 <= j < 5 ==> 0 <= #[trigger] digit(v, j) < 85,
        refilled(v, 5) == v,
        v % 52_200_625 == digit(v, 1) * 614_125 + v % 614_125,
        v % 614_125 == digit(v, 2) * 7_225 + v % 7_225,
        v % 7_225 == digit(v, 3) * 85 + v % 85,
{
    lemma_mod_breakdown(v, 614_125, 85);
    lemma_mod_breakdown(v, 7_225, 85);
    lemma_mod_breakdown(v, 85, 85);
}

/// A multiple of `d` and a number less than `d` above it have the same quotient
/// by `d`.
pub proof fn lemma_same_quotient(v: int, w: int, d: int)
    requires
        0 < d,
        v % d == 0,
        v <= w < v + d,
    ensures
        w / d == v / d,
{
    lemma_fundamental_div_mod(v, d);
    assert(w == (v / d) * d + (w - v)) by (nonlinear_arith)
        requires
            v == d * (v / d) + (v % d),
            v % d == 0,
    ;
    lemma_fundamental_div_mod_converse(w, d, v / d, w - v);
}

/// The four bytes of a big-endian number are its bytes, and where its last
/// bytes are zero it is a multiple of the matching power of 256.
pub proof fn lemma_big_endian(b0: int, b1: int, b2: int, b3: int)
    requires
        0 <= b0 < 0x100,
        0 <= b1 < 0x100,
        0 <= b2 < 0x100,
        0 <= b3 < 0x100,
    ensures
        ({
            let v = b0 * 0x100_0000 + b1 * 0x1_0000 + b2 * 0x100 + b3;
            &&& 0 <= v < 0x1_0000_0000
            &&& value_byte(v, 0) == b0
            &&& value_byte(v, 1) == b1
            &&& value_byte(v, 2) == b2
            &&& value_byte(v, 3) == b3
            &&& b3 == 0 ==> v % 0x100 == 0
            &&& b3 == 0 && b2 == 0 ==> v % 0x1_0000 == 0
            &&& b3 == 0 && b2 == 0 && b1 == 0 ==> v % 0x100_0000 == 0
        }),
{
    let v = b0 * 0x100_0000 + b1 * 0x1_0000 + b2 * 0x100 + b3;
    lemma_fundamental_div_mod_converse(v, 0x100_0000, b0, b1 * 0x1_0000 + b2 * 0x100 + b3);
    lemma_fundamental_div_mod_converse(b0, 0x100, 0, b0);
    lemma_fundamental_div_mod_converse(v, 0x1_0000, b0 * 0x100 + b1, b2 * 0x100 + b3);
    lemma_fundamental_div_mod_converse(b0 * 0x100 + b1, 0x100, b0, b1);
    lemma_fundamental_div_mod_converse(v, 0x100, b0 * 0x1_0000 + b1 * 0x100 + b2, b3);
    lemma_fundamental_div_mod_converse(b0 * 0x1_0000 + b1 * 0x100 + b2, 0x100, b0 * 0x100 + b1, b2);
}

/// Where the low bytes of a 32-bit number are zero, dropping the digits that
/// stand for them and filling up with the highest digit changes none of the
/// bytes above them.
pub proof fn lemma_refill_keeps_bytes(v: int, kept: int, j: int)
    requires
        0 <= v < 0x1_0000_0000,
        2 <= kept <= 5,
        0 <= j < kept - 1,
        kept == 4 ==> v % 0x100 == 0,
        kept == 3 ==> v % 0x1_0000 == 0,
        kept == 2 ==> v % 0x100_0000 == 0,
    ensures
        value_byte(refilled(v, kept), j) == value_byte(v, j),
{
    lemma_digits(v);
    let w = refilled(v, kept);
    if kept == 5 {
    } else if kept == 4 {
        assert(w == v - v % 85 + 84);
        lemma_same_quotient(v, w, 0x100);
        lemma_div_denominator(v, 0x100, 0x100);
        lemma_div_denominator(w, 0x100, 0x100);
        lemma_div_denominator(v, 0x100, 0x1_0000);
        lemma_div_denominator(w, 0x100, 0x1_0000);
    } else if kept == 3 {
        assert(w == v - v % 7_225 + 7_224);
        lemma_same_quotient(v, w, 0x1_0000);
        lemma_div_denominator(v, 0x1_0000, 0x100);
        lemma_div_denominator(w, 0x1_0000, 0x100);
    } else {
        assert(w == v - v % 614_125 + 614_124);
        lemma_same_quotient(v, w, 0x100_0000);
    }
}

} // verus!
