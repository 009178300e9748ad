//! A decimal floating-point number packed into one signed 64-bit word: a
//! 56-bit two's-complement coefficient above an 8-bit exponent, standing for
//! `coefficient * 10^exponent`.

use vstd::prelude::*;

pub mod compare;
pub mod consts;
pub mod convert;
pub mod decimal;
pub mod laws;
pub mod layout;
pub mod lemmas;
pub mod math;
pub mod ops;
pub mod pack;
pub mod write;

use crate::layout::{lemma_join_is_sum, lemma_low_byte_is_remainder, lemma_shift_is_division};

verus! {

/// The least coefficient.
pub const MIN_COEFFICIENT: i64 = -0x80000000000000;

/// The greatest coefficient.
pub const MAX_COEFFICIENT: i64 = 0x7FFFFFFFFFFFFF;

/// The least exponent of a number.
pub const MIN_EXP: i8 = -127;

/// The greatest exponent of a number.
pub const MAX_EXP: i8 = 127;

/// A decimal floating-point value. Every 64-bit word is a value: exponent
/// -128 marks "not a number", a zero coefficient with any other exponent is
/// zero, and the rest are `coefficient * 10^exponent`.
#[derive(Clone, Copy, Debug)]
pub struct Dec64 {
    pub(crate) bits: i64,
}

impl View for Dec64 {
    type V = i64;

    /// The word that holds the value.
    open(crate) spec fn view(&self) -> i64 {
        self.bits
    }
}

/// Whether `c` can be held in the 56 bits of a coefficient.
pub open spec fn coefficient_fits(c: int) -> bool {
    MIN_COEFFICIENT <= c <= MAX_COEFFICIENT
}

/// Whether `e` is the exponent of a number (and not the mark of a NaN).
pub open spec fn exponent_fits(e: int) -> bool {
    MIN_EXP <= e <= MAX_EXP
}

impl Dec64 {
    /// The value held in the word `w`.
    pub open(crate) spec fn word(w: i64) -> Dec64 {
        Dec64 { bits: w }
    }

    /// The value assembled from a coefficient and an exponent: the
    /// coefficient in the upper 56 bits (what does not fit is cut off), the
    /// exponent's byte below.
    pub open spec fn parts(c: int, e: int) -> Dec64 {
        Dec64::word((c * 256 + e % 256) as i64)
    }

    /// Zero in its canonical form: coefficient 0, exponent 0.
    pub open spec fn zero() -> Dec64 {
        Dec64::word(0)
    }

    /// NaN in its canonical form: coefficient 0, exponent -128.
    pub open spec fn nan() -> Dec64 {
        Dec64::word(0x80)
    }

    /// The coefficient: the word without its low byte.
    pub open spec fn coefficient_spec(self) -> int {
        self@ as int / 256
    }

    /// The exponent: the low byte of the word, read as a signed number.
    pub open spec fn exponent_spec(self) -> int {
        let low = self@ as int % 256;
        if low < 128 {
            low
        } else {
            low - 256
        }
    }

    /// NaN is any value with exponent -128.
    pub open spec fn is_nan_spec(self) -> bool {
        self.exponent_spec() == -128
    }

    /// Zero is any value with coefficient 0 that is not NaN.
    pub open spec fn is_zero_spec(self) -> bool {
        self.coefficient_spec() == 0 && !self.is_nan_spec()
    }

    /// A value packed from fields that fit holds exactly those fields.
    pub proof fn lemma_parts_fields(c: int, e: int)
        requires
            coefficient_fits(c),
            -128 <= e <= 127,
        ensures
            Dec64::parts(c, e)@ == c * 256 + e % 256,
            Dec64::parts(c, e).coefficient_spec() == c,
            Dec64::parts(c, e).exponent_spec() == e,
    {
    }

    /// Every value is what its two fields assemble to.
    pub proof fn lemma_parts_of_fields(self)
        ensures
            Dec64::parts(self.coefficient_spec(), self.exponent_spec()) == self,
            coefficient_fits(self.coefficient_spec()),
            -128 <= self.exponent_spec() <= 127,
    {
    }

    /// Assembles a value from a coefficient and an exponent as they are,
    /// without any check: every kind of zero and NaN can be made. Bits of the
    /// coefficient above the 56th are lost.
    pub fn from_parts(coefficient: i64, exponent: i8) -> (r: Dec64)
        ensures
            r == Dec64::parts(coefficient as int, exponent as int),
            r.exponent_spec() == exponent,
            coefficient_fits(coefficient as int) ==> r.coefficient_spec() == coefficient,
    {
        proof {
            lemma_join_is_sum(coefficient, exponent);
            if coefficient_fits(coefficient as int) {
                Dec64::lemma_parts_fields(coefficient as int, exponent as int);
            }
        }
        let r = Dec64 { bits: (coefficient << 8) | (exponent as u8 as i64) };
        proof {
            Dec64::lemma_parts_exponent(coefficient, exponent);
        }
        r
    }

    /// Whatever coefficient goes in, the exponent of the assembled value is
    /// the one given.
    proof fn lemma_parts_exponent(c: i64, e: i8)
        ensures
            Dec64::parts(c as int, e as int).exponent_spec() == e,
    {
        let w: i64 = (c << 8) | (e as u8 as i64);
        assert(w as i8 == e) by (bit_vector)
            requires
                w == (c << 8) | (e as u8 as i64),
        ;
        lemma_join_is_sum(c, e);
        lemma_low_byte_is_remainder(w);
    }

    /// The value held in a word, whatever the word.
    pub fn from_raw(value: i64) -> (r: Dec64)
        ensures
            r == Dec64::word(value),
            r@ == value,
    {
        Dec64 { bits: value }
    }

    /// Whether `coefficient` can be held in the 56 bits of a coefficient.
    pub fn coefficient_in_range(coefficient: i128) -> (b: bool)
        ensures
            b == coefficient_fits(coefficient as int),
    {
        -0x80_0000_0000_0000 <= coefficient && coefficient <= 0x7F_FFFF_FFFF_FFFF
    }

    /// The coefficient.
    pub fn coefficient(self) -> (c: i64)
        ensures
            c == self.coefficient_spec(),
            coefficient_fits(c as int),
    {
        let w: i64 = self.bits;
        proof {
            lemma_shift_is_division(w);
        }
        w >> 8
    }

    /// The exponent.
    pub fn exponent(self) -> (e: i8)
        ensures
            e == self.exponent_spec(),
    {
        let w: i64 = self.bits;
        proof {
            lemma_low_byte_is_remainder(w);
        }
        w as i8
    }

    /// Whether the value is NaN: its exponent is -128, whatever its
    /// coefficient.
    pub fn is_nan(self) -> (b: bool)
        ensures
            b == self.is_nan_spec(),
    {
        self.exponent() == -128
    }

    /// Whether the value is zero: its coefficient is 0 and it is not NaN,
    /// whatever its exponent.
    pub fn is_zero(self) -> (b: bool)
        ensures
            b == self.is_zero_spec(),
    {
        self.coefficient() == 0 && !self.is_nan()
    }
}

impl Default for Dec64 {
    /// The canonical zero.
    fn default() -> (r: Dec64)
        ensures
            r == Dec64::zero(),
    {
        Dec64 { bits: 0 }
    }
}

} // verus!
