//! Conversions between values and the integer types.
//!
//! Every integer becomes the canonical value of itself at exponent 0, which
//! is exact up to the 56 bits of a coefficient and rounded half away from
//! zero beyond. Back to an integer, a value with an exponent of 0 or less
//! gives its coefficient as it is, and one with a greater exponent its
//! coefficient times the power of ten; what does not fit the integer type
//! wraps around.

use vstd::prelude::*;
use vstd::std_specs::convert::FromSpecImpl;
use crate::decimal::pow10;
use crate::Dec64;

verus! {

/// `x` wrapped into the signed range of `modulus` values around zero.
pub open spec fn wrap_signed(x: int, modulus: int) -> int {
    let r = x % modulus;
    if 2 * r >= modulus {
        r - modulus
    } else {
        r
    }
}

/// `x` wrapped into the range of `modulus` values from zero up.
pub open spec fn wrap_unsigned(x: int, modulus: int) -> int {
    x % modulus
}

impl Dec64 {
    /// The integer that the value gives, in a signed 64-bit word: the
    /// coefficient where the exponent is 0 or less (digits after the point
    /// are not cut off, and NaN is not told apart), else the coefficient
    /// times the power of ten, wrapped around.
    pub open spec fn integer_spec(self) -> int {
        if self.exponent_spec() <= 0 {
            self.coefficient_spec()
        } else {
            wrap_signed(
                self.coefficient_spec() * pow10(self.exponent_spec() as nat),
                0x1_0000_0000_0000_0000,
            )
        }
    }

    /// The integer that the value gives, in a signed 64-bit word.
    pub fn integer(self) -> (w: i64)
        ensures
            w == self.integer_spec(),
    {
        let c: i64 = self.coefficient();
        let e: i8 = self.exponent();
        if e <= 0 {
            return c;
        }
        let mut w: i64 = c;
        let mut k: i8 = 0;
        assert(pow10(0) == 1);
        while k < e
            invariant
                0 <= k <= e,
                w == wrap_signed(c * pow10(k as nat), 0x1_0000_0000_0000_0000),
            decreases e - k,
        {
            proof {
                let full = c * pow10(k as nat);
                assert(c * pow10((k + 1) as nat) == full * 10) by (nonlinear_arith)
                    requires
                        pow10((k + 1) as nat) == 10 * pow10(k as nat),
                        full == c * pow10(k as nat),
                ;
                lemma_wrap_step(full);
            }
            w = w.wrapping_mul(10);
            k = k + 1;
        }
        w
    }

    /// The canonical value of an integer of up to 128 bits, at exponent 0.
    pub fn from_integer(n: i128) -> (r: Dec64)
        ensures
            r == Dec64::new_spec(n as int, 0),
            r.is_canonical(),
    {
        Dec64::new_wide(n, 0)
    }
}

/// Wrapping before a multiplication by ten changes nothing in what the
/// product wraps to.
proof fn lemma_wrap_step(x: int)
    ensures
        wrap_signed(wrap_signed(x, 0x1_0000_0000_0000_0000) * 10, 0x1_0000_0000_0000_0000)
            == wrap_signed(x * 10, 0x1_0000_0000_0000_0000),
{
    let m: int = 0x1_0000_0000_0000_0000;
    let r = x % m;
    vstd::arithmetic::div_mod::lemma_mul_mod_noop_left(x, 10, m);
    vstd::arithmetic::div_mod::lemma_mod_multiples_vanish(-10, r * 10, m);
    assert((r - m) * 10 == m * (-10) + r * 10);
}

impl From<u8> for Dec64 {
    /// The value of the integer, which is exact.
    fn from(num: u8) -> (r: Dec64) {
        Dec64::from_parts(num as i64, 0)
    }
}

impl FromSpecImpl<u8> for Dec64 {
    open spec fn obeys_from_spec() -> bool {
        true
    }

    open spec fn from_spec(num: u8) -> Dec64 {
        Dec64::new_spec(num as int, 0)
    }
}

impl From<u16> for Dec64 {
    /// The value of the integer, which is exact.
    fn from(num: u16) -> (r: Dec64) {
        Dec64::from_parts(num as i64, 0)
    }
}

impl FromSpecImpl<u16> for Dec64 {
    open spec fn obeys_from_spec() -> bool {
        true
    }

    open spec fn from_spec(num: u16) -> Dec64 {
        Dec64::new_spec(num as int, 0)
    }
}

impl From<u32> for Dec64 {
    /// The value of the integer, which is exact.
    fn from(num: u32) -> (r: Dec64) {
        Dec64::from_parts(num as i64, 0)
    }
}

impl FromSpecImpl<u32> for Dec64 {
    open spec fn obeys_from_spec() -> bool {
        true
    }

    open spec fn from_spec(num: u32) -> Dec64 {
        Dec64::new_spec(num as int, 0)
    }
}

impl From<i8> for Dec64 {
    /// The value of the integer, which is exact.
    fn from(num: i8) -> (r: Dec64) {
        Dec64::from_parts(num as i64, 0)
    }
}

impl FromSpecImpl<i8> for Dec64 {
    open spec fn obeys_from_spec() -> bool {
        true
    }

    open spec fn from_spec(num: i8) -> Dec64 {
        Dec64::new_spec(num as int, 0)
    }
}

impl From<i16> for Dec64 {
    /// The value of the integer, which is exact.
    fn from(num: i16) -> (r: Dec64) {
        Dec64::from_parts(num as i64, 0)
    }
}

impl FromSpecImpl<i16> for Dec64 {
    open spec fn obeys_from_spec() -> bool {
        true
    }

    open spec fn from_spec(num: i16) -> Dec64 {
        Dec64::new_spec(num as int, 0)
    }
}

impl From<i32> for Dec64 {
    /// The value of the integer, which is exact.
    fn from(num: i32) -> (r: Dec64) {
        Dec64::from_parts(num as i64, 0)
    }
}

impl FromSpecImpl<i32> for Dec64 {
    open spec fn obeys_from_spec() -> bool {
        true
    }

    open spec fn from_spec(num: i32) -> Dec64 {
        Dec64::new_spec(num as int, 0)
    }
}

impl From<i64> for Dec64 {
    /// The canonical value of the integer.
    fn from(num: i64) -> (r: Dec64) {
        Dec64::new(num, 0)
    }
}

impl FromSpecImpl<i64> for Dec64 {
    open spec fn obeys_from_spec() -> bool {
        true
    }

    open spec fn from_spec(num: i64) -> Dec64 {
        Dec64::new_spec(num as int, 0)
    }
}

impl From<isize> for Dec64 {
    /// The canonical value of the integer.
    fn from(num: isize) -> (r: Dec64) {
        Dec64::new(num as i64, 0)
    }
}

impl FromSpecImpl<isize> for Dec64 {
    open spec fn obeys_from_spec() -> bool {
        true
    }

    open spec fn from_spec(num: isize) -> Dec64 {
        Dec64::new_spec(num as int, 0)
    }
}

impl From<u64> for Dec64 {
    /// The canonical value of the integer.
    fn from(num: u64) -> (r: Dec64) {
        Dec64::new_wide(num as i128, 0)
    }
}

impl FromSpecImpl<u64> for Dec64 {
    open spec fn obeys_from_spec() -> bool {
        true
    }

    open spec fn from_spec(num: u64) -> Dec64 {
        Dec64::new_spec(num as int, 0)
    }
}

impl From<usize> for Dec64 {
    /// The canonical value of the integer.
    fn from(num: usize) -> (r: Dec64) {
        Dec64::new_wide(num as i128, 0)
    }
}

impl FromSpecImpl<usize> for Dec64 {
    open spec fn obeys_from_spec() -> bool {
        true
    }

    open spec fn from_spec(num: usize) -> Dec64 {
        Dec64::new_spec(num as int, 0)
    }
}

impl From<i128> for Dec64 {
    /// The canonical value of the integer.
    fn from(num: i128) -> (r: Dec64) {
        Dec64::new_wide(num, 0)
    }
}

impl FromSpecImpl<i128> for Dec64 {
    open spec fn obeys_from_spec() -> bool {
        true
    }

    open spec fn from_spec(num: i128) -> Dec64 {
        Dec64::new_spec(num as int, 0)
    }
}

impl From<u128> for Dec64 {
    /// The canonical value of the integer.
    fn from(num: u128) -> (r: Dec64) {
        if num <= 0x7FFF_FFFF_FFFF_FFFF_FFFF_FFFF_FFFF_FFFF {
            Dec64::new_wide(num as i128, 0)
        } else {
            // Too long even for the wider constructor: the last digit goes first.
            proof {
                lemma_long_integer(num as int);
            }
            Dec64::new_wide((num / 10) as i128, 1)
        }
    }
}

impl FromSpecImpl<u128> for Dec64 {
    open spec fn obeys_from_spec() -> bool {
        true
    }

    open spec fn from_spec(num: u128) -> Dec64 {
        Dec64::new_spec(num as int, 0)
    }
}

/// An integer far too long for a coefficient stands for the same value
/// without its last digit, at exponent 1.
proof fn lemma_long_integer(n: int)
    requires
        n > 0x7FFF_FFFF_FFFF_FFFF,
    ensures
        Dec64::new_spec(n, 0) == Dec64::new_spec(n / 10, 1),
{
    assert(Dec64::new_spec(n, 0) == Dec64::shrink(n, 0));
    assert(Dec64::shrink(n, 0) == Dec64::shrink(n / 10, 1));
    assert(Dec64::new_spec(n / 10, 1) == Dec64::shrink(n / 10, 1));
}

impl From<Dec64> for u8 {
    /// The integer that the value gives, wrapped into the type.
    fn from(dec: Dec64) -> (r: u8) {
        let w: i64 = dec.integer();
        assert((w as u8) as int == w as int % 0x100) by (bit_vector);
        w as u8
    }
}

impl FromSpecImpl<Dec64> for u8 {
    open spec fn obeys_from_spec() -> bool {
        true
    }

    open spec fn from_spec(dec: Dec64) -> u8 {
        wrap_unsigned(dec.integer_spec(), 0x100) as u8
    }
}

impl From<Dec64> for u16 {
    /// The integer that the value gives, wrapped into the type.
    fn from(dec: Dec64) -> (r: u16) {
        let w: i64 = dec.integer();
        assert((w as u16) as int == w as int % 0x1_0000) by (bit_vector);
        w as u16
    }
}

impl FromSpecImpl<Dec64> for u16 {
    open spec fn obeys_from_spec() -> bool {
        true
    }

    open spec fn from_spec(dec: Dec64) -> u16 {
        wrap_unsigned(dec.integer_spec(), 0x1_0000) as u16
    }
}

impl From<Dec64> for u32 {
    /// The integer that the value gives, wrapped into the type.
    fn from(dec: Dec64) -> (r: u32) {
        let w: i64 = dec.integer();
        assert((w as u32) as int == w as int % 0x1_0000_0000) by (bit_vector);
        w as u32
    }
}

impl FromSpecImpl<Dec64> for u32 {
    open spec fn obeys_from_spec() -> bool {
        true
    }

    open spec fn from_spec(dec: Dec64) -> u32 {
        wrap_unsigned(dec.integer_spec(), 0x1_0000_0000) as u32
    }
}

impl From<Dec64> for i8 {
    /// The integer that the value gives, wrapped into the type.
    fn from(dec: Dec64) -> (r: i8) {
        let w: i64 = dec.integer();
        assert((w as i8) as int == (if 2 * (w as int % 0x100) >= 0x100 {
            w as int % 0x100 - 0x100
        } else {
            w as int % 0x100
        })) by (bit_vector);
        w as i8
    }
}

impl FromSpecImpl<Dec64> for i8 {
    open spec fn obeys_from_spec() -> bool {
        true
    }

    open spec fn from_spec(dec: Dec64) -> i8 {
        wrap_signed(dec.integer_spec(), 0x100) as i8
    }
}

impl From<Dec64> for i16 {
    /// The integer that the value gives, wrapped into the type.
    fn from(dec: Dec64) -> (r: i16) {
        let w: i64 = dec.integer();
        assert((w as i16) as int == (if 2 * (w as int % 0x1_0000) >= 0x1_0000 {
            w as int % 0x1_0000 - 0x1_0000
        } else {
            w as int % 0x1_0000
        })) by (bit_vector);
        w as i16
    }
}

impl FromSpecImpl<Dec64> for i16 {
    open spec fn obeys_from_spec() -> bool {
        true
    }

    open spec fn from_spec(dec: Dec64) -> i16 {
        wrap_signed(dec.integer_spec(), 0x1_0000) as i16
    }
}

impl From<Dec64> for i32 {
    /// The integer that the value gives, wrapped into the type.
    fn from(dec: Dec64) -> (r: i32) {
        let w: i64 = dec.integer();
        assert((w as i32) as int == (if 2 * (w as int % 0x1_0000_0000) >= 0x1_0000_0000 {
            w as int % 0x1_0000_0000 - 0x1_0000_0000
        } else {
            w as int % 0x1_0000_0000
        })) by (bit_vector);
        w as i32
    }
}

impl FromSpecImpl<Dec64> for i32 {
    open spec fn obeys_from_spec() -> bool {
        true
    }

    open spec fn from_spec(dec: Dec64) -> i32 {
        wrap_signed(dec.integer_spec(), 0x1_0000_0000) as i32
    }
}

impl From<Dec64> for i64 {
    /// The integer that the value gives.
    fn from(dec: Dec64) -> (r: i64) {
        let w: i64 = dec.integer();
        w as i64
    }
}

impl FromSpecImpl<Dec64> for i64 {
    open spec fn obeys_from_spec() -> bool {
        true
    }

    open spec fn from_spec(dec: Dec64) -> i64 {
        dec.integer_spec() as i64
    }
}

impl From<Dec64> for i128 {
    /// The integer that the value gives.
    fn from(dec: Dec64) -> (r: i128) {
        let w: i64 = dec.integer();
        w as i128
    }
}

impl FromSpecImpl<Dec64> for i128 {
    open spec fn obeys_from_spec() -> bool {
        true
    }

    open spec fn from_spec(dec: Dec64) -> i128 {
        dec.integer_spec() as i128
    }
}

impl From<Dec64> for u64 {
    /// The integer that the value gives, wrapped into the type.
    fn from(dec: Dec64) -> (r: u64) {
        let w: i64 = dec.integer();
        assert((w as u64) as int == w as int % 0x1_0000_0000_0000_0000) by (bit_vector);
        w as u64
    }
}

impl FromSpecImpl<Dec64> for u64 {
    open spec fn obeys_from_spec() -> bool {
        true
    }

    open spec fn from_spec(dec: Dec64) -> u64 {
        wrap_unsigned(dec.integer_spec(), 0x1_0000_0000_0000_0000) as u64
    }
}

impl From<Dec64> for u128 {
    /// The integer that the value gives, wrapped into the type.
    fn from(dec: Dec64) -> (r: u128) {
        let w: i64 = dec.integer();
        assert((w as u128) as int == (if w < 0 {
            w + u128::MAX + 1
        } else {
            w as int
        })) by (bit_vector);
        w as u128
    }
}

impl FromSpecImpl<Dec64> for u128 {
    open spec fn obeys_from_spec() -> bool {
        true
    }

    open spec fn from_spec(dec: Dec64) -> u128 {
        wrap_unsigned(dec.integer_spec(), u128::MAX + 1) as u128
    }
}

impl From<Dec64> for usize {
    /// The integer that the value gives, wrapped into the type.
    fn from(dec: Dec64) -> (r: usize) {
        let w: i64 = dec.integer();
        assert(usize::BITS == 64 ==> (w as usize) as int == w as int % 0x1_0000_0000_0000_0000)
            by (bit_vector);
        assert(usize::BITS == 32 ==> (w as usize) as int == w as int % 0x1_0000_0000)
            by (bit_vector);
        w as usize
    }
}

impl FromSpecImpl<Dec64> for usize {
    open spec fn obeys_from_spec() -> bool {
        true
    }

    open spec fn from_spec(dec: Dec64) -> usize {
        wrap_unsigned(dec.integer_spec(), usize::MAX + 1) as usize
    }
}

impl From<Dec64> for isize {
    /// The integer that the value gives, wrapped into the type.
    fn from(dec: Dec64) -> (r: isize) {
        let w: i64 = dec.integer();
        assert(usize::BITS == 64 ==> (w as isize) as int == w as int) by (bit_vector);
        assert(usize::BITS == 32 ==> (w as isize) as int == (if 2 * (w as int % 0x1_0000_0000)
            >= 0x1_0000_0000 {
            w as int % 0x1_0000_0000 - 0x1_0000_0000
        } else {
            w as int % 0x1_0000_0000
        })) by (bit_vector);
        assert(usize::BITS == 64 || usize::BITS == 32);
        assert(usize::BITS == 64 ==> usize::MAX + 1 == 0x1_0000_0000_0000_0000);
        assert(usize::BITS == 32 ==> usize::MAX + 1 == 0x1_0000_0000);
        assert(w as int % 0x1_0000_0000_0000_0000 == (if w < 0 {
            w + 0x1_0000_0000_0000_0000
        } else {
            w as int
        }));
        w as isize
    }
}

impl FromSpecImpl<Dec64> for isize {
    open spec fn obeys_from_spec() -> bool {
        true
    }

    open spec fn from_spec(dec: Dec64) -> isize {
        wrap_signed(dec.integer_spec(), usize::MAX + 1) as isize
    }
}

} // verus!
