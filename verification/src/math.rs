//! What follows from the arithmetic: the sign, the test for an integer, the
//! absolute value, and rounding down, up and to a decimal place.

use vstd::prelude::*;
use crate::decimal::{
    lemma_mod_negation,
    lemma_pow10_grows,
    lemma_pow10_values,
    magnitude,
    pow10,
    power_of_ten,
    signum,
};
use crate::{consts, Dec64};

verus! {

impl Dec64 {
    /// The sign: 0 for a zero, else -1 or 1 by the sign bit of the word.
    pub open spec fn sign_spec(self) -> int {
        if self.is_zero_spec() {
            0
        } else if self@ < 0 {
            -1
        } else {
            1
        }
    }

    /// A number is an integer when its exponent is not negative or its
    /// coefficient is a multiple of the power of ten that the exponent takes
    /// away. NaN is none.
    pub open spec fn is_integer_spec(self) -> bool {
        !self.is_nan_spec() && (self.exponent_spec() >= 0 || self.coefficient_spec() % pow10(
            (-self.exponent_spec()) as nat,
        ) == 0)
    }

    /// The absolute value: the canonical value of the coefficient's
    /// magnitude with the same exponent.
    pub open spec fn abs_spec(self) -> Dec64 {
        if self.is_nan_spec() {
            Dec64::nan()
        } else {
            Dec64::new_spec(magnitude(self.coefficient_spec()), self.exponent_spec())
        }
    }

    /// The greatest integer that is not above the number. A number without
    /// digits after the point (exponent 0 or more) is returned as it is. One
    /// with 19 or more is between -1 and 1, so the result is -1 when it is
    /// negative and zero when not. Otherwise the coefficient loses its
    /// remainder by the power of ten that counts the digits after the point.
    pub open spec fn floor_spec(self) -> Dec64 {
        let c = self.coefficient_spec();
        let e = self.exponent_spec();
        if self.is_nan_spec() {
            Dec64::nan()
        } else if e >= 0 {
            self
        } else if e <= -19 {
            if c < 0 {
                Dec64::parts(-1, 0)
            } else {
                Dec64::zero()
            }
        } else {
            Dec64::new_spec(c - c % pow10((-e) as nat), e)
        }
    }

    /// The least integer that is not below the number: as `floor_spec`, to
    /// the other side.
    pub open spec fn ceil_spec(self) -> Dec64 {
        let c = self.coefficient_spec();
        let e = self.exponent_spec();
        if self.is_nan_spec() {
            Dec64::nan()
        } else if e >= 0 {
            self
        } else if e <= -19 {
            if c > 0 {
                Dec64::parts(1, 0)
            } else {
                Dec64::zero()
            }
        } else {
            Dec64::new_spec(c + (-c) % pow10((-e) as nat), e)
        }
    }

    /// The number rounded to the decimal place `places`, half away from
    /// zero: a number whose exponent is `places` or more is returned as it
    /// is; of another the coefficient is divided by the power of ten between
    /// the two exponents, rounded, and made canonical at exponent `places`.
    pub open spec fn round_spec(self, places: int) -> Dec64 {
        let c = self.coefficient_spec();
        let e = self.exponent_spec();
        if self.is_nan_spec() {
            Dec64::nan()
        } else if e >= places {
            self
        } else {
            let kept = magnitude(c) / pow10((places - e - 1) as nat);
            Dec64::new_spec(signum(c) * ((kept + 5) / 10), places)
        }
    }

    /// The sign of the value: -1, 0 or 1.
    pub fn sign(self) -> (s: i8)
        ensures
            s == self.sign_spec(),
    {
        if self.is_zero() {
            0
        } else if self.bits < 0 {
            -1
        } else {
            1
        }
    }

    /// Whether the value is an integer: NaN and numbers with digits other
    /// than 0 after the point are not.
    pub fn is_integer(self) -> (b: bool)
        ensures
            b == self.is_integer_spec(),
    {
        if self.is_nan() {
            return false;
        }
        let c: i64 = self.coefficient();
        let e: i8 = self.exponent();
        if e >= 0 {
            return true;
        }
        let digits: u32 = (-(e as i32)) as u32;
        proof {
            lemma_pow10_values();
            lemma_pow10_grows(0, digits as nat);
            lemma_mod_negation(c as int, pow10(digits as nat));
        }
        if c == 0 {
            return true;
        }
        let m: i64 = if c < 0 {
            -c
        } else {
            c
        };
        if digits >= 17 {
            // Fewer digits in the coefficient than after the point.
            proof {
                lemma_pow10_grows(17, digits as nat);
                vstd::arithmetic::div_mod::lemma_small_mod(m as nat, pow10(digits as nat) as nat);
            }
            return false;
        }
        m % power_of_ten(digits) == 0
    }

    /// The absolute value. NaN gives the canonical NaN. The least
    /// coefficient has no counterpart and loses its last digit.
    pub fn abs(self) -> (r: Dec64)
        ensures
            r == self.abs_spec(),
    {
        if self.is_nan() {
            return consts::nan();
        }
        let c: i64 = self.coefficient();
        let m: i64 = if c < 0 {
            -c
        } else {
            c
        };
        Dec64::new(m, self.exponent() as i32)
    }

    /// The number rounded down to an integer. NaN gives the canonical NaN.
    pub fn floor(self) -> (r: Dec64)
        ensures
            r == self.floor_spec(),
    {
        if self.is_nan() {
            return consts::nan();
        }
        let c: i64 = self.coefficient();
        let e: i8 = self.exponent();
        if e >= 0 {
            return self;
        }
        if e <= -19 {
            return if c < 0 {
                Dec64::from_parts(-1, 0)
            } else {
                consts::zero()
            };
        }
        let one: i64 = power_of_ten((-(e as i32)) as u32);
        proof {
            lemma_mod_negation(-c, one as int);
        }
        let lower: i64 = if c >= 0 {
            c - c % one
        } else {
            let rest: i64 = (-c) % one;
            if rest == 0 {
                c
            } else {
                c - (one - rest)
            }
        };
        Dec64::new(lower, e as i32)
    }

    /// The number rounded up to an integer. NaN gives the canonical NaN.
    pub fn ceil(self) -> (r: Dec64)
        ensures
            r == self.ceil_spec(),
    {
        if self.is_nan() {
            return consts::nan();
        }
        let c: i64 = self.coefficient();
        let e: i8 = self.exponent();
        if e >= 0 {
            return self;
        }
        if e <= -19 {
            return if c > 0 {
                Dec64::from_parts(1, 0)
            } else {
                consts::zero()
            };
        }
        let one: i64 = power_of_ten((-(e as i32)) as u32);
        proof {
            lemma_mod_negation(c as int, one as int);
        }
        let upper: i64 = if c <= 0 {
            c + (-c) % one
        } else {
            let rest: i64 = c % one;
            if rest == 0 {
                c
            } else {
                c + (one - rest)
            }
        };
        Dec64::new(upper, e as i32)
    }

    /// The number rounded to the decimal place `places` (the exponent of the
    /// last digit kept), half away from zero. NaN gives the canonical NaN.
    pub fn round_to_places(self, places: i32) -> (r: Dec64)
        ensures
            r == self.round_spec(places as int),
    {
        if self.is_nan() {
            return consts::nan();
        }
        let c: i64 = self.coefficient();
        let e: i32 = self.exponent() as i32;
        if e >= places {
            return self;
        }
        let m: i64 = if c < 0 {
            -c
        } else {
            c
        };
        let below: i64 = places as i64 - e as i64 - 1;
        if below >= 18 {
            // The place lies above every digit of the coefficient.
            proof {
                lemma_pow10_values();
                lemma_pow10_grows(18, below as nat);
                vstd::arithmetic::div_mod::lemma_basic_div(m as int, pow10(below as nat));
            }
            return consts::zero();
        }
        let kept: i64 = m / power_of_ten(below as u32);
        let rounded: i64 = (kept + 5) / 10;
        proof {
            vstd::arithmetic::div_mod::lemma_div_pos_is_pos(m as int, pow10(below as nat));
            vstd::arithmetic::div_mod::lemma_div_is_ordered_by_denominator(
                m as int,
                1,
                pow10(below as nat),
            );
        }
        if c < 0 {
            Dec64::new(-rounded, places)
        } else {
            Dec64::new(rounded, places)
        }
    }
}

} // verus!
