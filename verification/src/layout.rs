//! How the two fields lie in the 64-bit word: the facts about shifts, masks
//! and casts that tie the bit operations to plain arithmetic.

use vstd::prelude::*;

verus! {

/// Shifting a word right by eight bits divides it by 256, rounding down.
pub proof fn lemma_shift_is_division(w: i64)
    ensures
        (w >> 8) == w as int / 256,
{
    assert((w >> 8) == w / 256) by (bit_vector);
}

/// Cutting a word down to its low byte, read as a signed number, leaves its
/// remainder by 256, taken from 256 when it is 128 or more.
pub proof fn lemma_low_byte_is_remainder(w: i64)
    ensures
        (w as i8) as int == (if w as int % 256 < 128 {
            w as int % 256
        } else {
            w as int % 256 - 256
        }),
{
    assert((w as i8) as int == (if w as int % 256 < 128 {
        w as int % 256
    } else {
        w as int % 256 - 256
    })) by (bit_vector);
}

/// A coefficient shifted left by eight bits and joined with an exponent's
/// byte is the word `c * 256 + e mod 256`, cut to 64 bits.
pub proof fn lemma_join_is_sum(c: i64, e: i8)
    ensures
        ((c << 8) | (e as u8 as i64)) == ((c as int * 256 + (e as int + 256) % 256) as i64),
{
    assert(((c << 8) | (e as u8 as i64)) == ((c as int * 256 + (e as int + 256) % 256) as i64))
        by (bit_vector);
}

} // verus!
