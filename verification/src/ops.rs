//! The arithmetic operators: negation, sum, difference, product and
//! quotient. Each returns NaN when an operand is NaN.

use vstd::prelude::*;
use vstd::std_specs::ops::{AddSpecImpl, DivSpecImpl, MulSpecImpl, NegSpecImpl, SubSpecImpl};
use core::ops::{Add, Div, Mul, Neg, Sub};
use crate::decimal::{
    lemma_pow10_grows,
    lemma_trunc_div_magnitudes,
    lemma_trunc_div_shrinks,
    lemma_trunc_div_twice,
    magnitude,
    pow10,
    signum,
    trunc_div,
    trunc_rem,
};
use crate::{coefficient_fits, consts, Dec64, MAX_COEFFICIENT, MAX_EXP, MIN_COEFFICIENT, MIN_EXP};

verus! {

/// Whether `c` can be held in a signed 64-bit word.
pub open spec fn word_fits(c: int) -> bool {
    i64::MIN <= c <= i64::MAX
}

/// The coefficient `c` of the operand with the greater exponent `e`, taking
/// up powers of ten toward the exponent `target` of the other operand for as
/// long as it stays within a signed 64-bit word: the coefficient and the
/// exponent it ends with.
pub open spec fn stretch(c: int, e: int, target: int) -> (int, int)
    decreases e - target,
{
    if e <= target || !word_fits(c * 10) {
        (c, e)
    } else {
        stretch(c * 10, e - 1, target)
    }
}

impl Dec64 {
    /// The negation: the canonical value of the negated coefficient with the
    /// same exponent. The least coefficient has no counterpart and loses its
    /// last digit.
    pub open spec fn negation(self) -> Dec64 {
        if self.is_nan_spec() {
            Dec64::nan()
        } else {
            Dec64::new_spec(-self.coefficient_spec(), self.exponent_spec())
        }
    }

    /// The sum of two numbers whose exponents differ, `self` having the
    /// greater one. When `low` is zero the sum is `self` as it is. Otherwise
    /// `self` is stretched toward the exponent of `low`, `low` loses the
    /// digits that lie below the exponent so reached, and the sum of the two
    /// coefficients is made canonical.
    pub open spec fn sum_aligned(self, low: Dec64) -> Dec64 {
        if low.coefficient_spec() == 0 {
            self
        } else {
            let (c, e) = stretch(self.coefficient_spec(), self.exponent_spec(), low.exponent_spec());
            let l = trunc_div(low.coefficient_spec(), pow10((e - low.exponent_spec()) as nat));
            Dec64::new_spec(c + l, e)
        }
    }

    /// The sum. With equal exponents the coefficients are added: the sum is
    /// packed as it is when it fits and made canonical when it does not.
    pub open spec fn sum(self, other: Dec64) -> Dec64 {
        if self.is_nan_spec() || other.is_nan_spec() {
            Dec64::nan()
        } else if self.exponent_spec() == other.exponent_spec() {
            let s = self.coefficient_spec() + other.coefficient_spec();
            if coefficient_fits(s) {
                Dec64::parts(s, self.exponent_spec())
            } else {
                Dec64::new_spec(s, self.exponent_spec())
            }
        } else if self.exponent_spec() > other.exponent_spec() {
            self.sum_aligned(other)
        } else {
            other.sum_aligned(self)
        }
    }

    /// The difference: the sum with the negation.
    pub open spec fn difference(self, other: Dec64) -> Dec64 {
        self.sum(other.negation())
    }

    /// A product `c * 10^e` of any size brought into the format, `last` being
    /// the digit cut last (0 at the start). Digits are cut while the
    /// coefficient is too long or the exponent below -127. Then an exponent
    /// above 127 is brought down as far as the coefficient has room, and NaN
    /// is the result when it has not enough. Otherwise the coefficient is
    /// rounded half away from zero by the digit cut last.
    pub open spec fn scaled(c: int, e: int, last: int) -> Dec64
        decreases
            magnitude(c) + (if e < MIN_EXP {
                MIN_EXP - e
            } else {
                0
            }),
    {
        if !coefficient_fits(c) || e < MIN_EXP {
            Dec64::scaled(trunc_div(c, 10), e + 1, magnitude(c) % 10)
        } else if e > MAX_EXP {
            Dec64::raised(c, e)
        } else {
            Dec64::fit(
                c + (if last >= 5 {
                    signum(c)
                } else {
                    0
                }),
                e,
            )
        }
    }

    /// The product: zero when an operand is zero, else the product of the
    /// coefficients with the sum of the exponents, brought into the format.
    pub open spec fn product(self, other: Dec64) -> Dec64 {
        if self.is_nan_spec() || other.is_nan_spec() {
            Dec64::nan()
        } else if self.is_zero_spec() || other.is_zero_spec() {
            Dec64::zero()
        } else {
            Dec64::scaled(
                self.coefficient_spec() * other.coefficient_spec(),
                self.exponent_spec() + other.exponent_spec(),
                0,
            )
        }
    }

    /// The quotient of the coefficients `n` by `d` at exponent `e`, extended
    /// digit by digit: while the division leaves a remainder, the quotient
    /// fits a coefficient and the exponent is above -127, the dividend takes
    /// up a power of ten. The quotient, rounded toward zero, is then made
    /// canonical.
    pub open spec fn ratio(n: int, d: int, e: int) -> Dec64
        decreases e - MIN_EXP,
    {
        let q = trunc_div(n, d);
        if trunc_rem(n, d) == 0 || !coefficient_fits(q) || e <= MIN_EXP {
            Dec64::new_spec(q, e)
        } else {
            Dec64::ratio(n * 10, d, e - 1)
        }
    }

    /// The quotient: NaN when the divisor is zero, zero when the dividend is;
    /// NaN or zero when the difference of the exponents is above 127 or below
    /// -127; else the extended quotient of the coefficients.
    pub open spec fn quotient(self, other: Dec64) -> Dec64 {
        let e = self.exponent_spec() - other.exponent_spec();
        if self.is_nan_spec() || other.is_nan_spec() || other.is_zero_spec() {
            Dec64::nan()
        } else if self.is_zero_spec() {
            Dec64::zero()
        } else if e > MAX_EXP {
            Dec64::nan()
        } else if e < MIN_EXP {
            Dec64::zero()
        } else {
            Dec64::ratio(self.coefficient_spec(), other.coefficient_spec(), e)
        }
    }
}

impl Neg for Dec64 {
    type Output = Dec64;

    /// The negation. NaN gives the canonical NaN and every zero the
    /// canonical zero.
    fn neg(self) -> (r: Dec64)
        ensures
            r == self.negation(),
            self.is_nan_spec() ==> r == Dec64::nan(),
    {
        if self.is_nan() {
            return consts::nan();
        }
        Dec64::new(-self.coefficient(), self.exponent() as i32)
    }
}

impl NegSpecImpl for Dec64 {
    open spec fn obeys_neg_spec() -> bool {
        true
    }

    open spec fn neg_req(self) -> bool {
        true
    }

    open spec fn neg_spec(self) -> Dec64 {
        self.negation()
    }
}

impl Add for Dec64 {
    type Output = Dec64;

    /// The sum. NaN when an operand is NaN.
    fn add(self, other: Dec64) -> (r: Dec64)
        ensures
            r == self.sum(other),
            self.is_nan_spec() || other.is_nan_spec() ==> r == Dec64::nan(),
    {
        if self.is_nan() || other.is_nan() {
            return consts::nan();
        }
        if self.exponent() == other.exponent() {
            let s: i64 = self.coefficient() + other.coefficient();
            if Dec64::coefficient_in_range(s as i128) {
                return Dec64::from_parts(s, self.exponent());
            }
            return Dec64::new(s, self.exponent() as i32);
        }
        if self.exponent() > other.exponent() {
            add_aligned(self, other)
        } else {
            add_aligned(other, self)
        }
    }
}

/// The sum of two numbers whose exponents differ, `high` having the greater.
fn add_aligned(high: Dec64, low: Dec64) -> (r: Dec64)
    requires
        !high.is_nan_spec(),
        !low.is_nan_spec(),
        high.exponent_spec() > low.exponent_spec(),
    ensures
        r == high.sum_aligned(low),
{
    let low_coefficient: i64 = low.coefficient();
    if low_coefficient == 0 {
        return high;
    }
    let target: i8 = low.exponent();
    let mut c: i64 = high.coefficient();
    let mut e: i8 = high.exponent();
    // Bring the greater exponent down while its coefficient has room.
    while e > target
        invariant
            target <= e,
            stretch(c as int, e as int, target as int) == stretch(
                high.coefficient_spec(),
                high.exponent_spec(),
                target as int,
            ),
        ensures
            target <= e,
            (c as int, e as int) == stretch(
                high.coefficient_spec(),
                high.exponent_spec(),
                target as int,
            ),
        decreases e - target,
    {
        match c.checked_mul(10) {
            Some(wider) => {
                c = wider;
                e = e - 1;
            },
            None => {
                break ;
            },
        }
    }
    // Bring the lesser exponent up, which costs the digits below.
    let mut l: i64 = low_coefficient;
    let mut le: i8 = target;
    assert(pow10(0) == 1);
    while le < e
        invariant
            target <= le <= e,
            coefficient_fits(l as int),
            l == trunc_div(low_coefficient as int, pow10((le - target) as nat)),
        decreases e - le,
    {
        proof {
            let cut = pow10((le - target) as nat);
            lemma_pow10_grows(0, (le - target) as nat);
            lemma_trunc_div_twice(low_coefficient as int, cut, 10);
            lemma_trunc_div_shrinks(l as int, 10);
            assert(pow10((le + 1 - target) as nat) == cut * 10);
        }
        l = l / 10;
        le = le + 1;
    }
    Dec64::new_wide(c as i128 + l as i128, e as i32)
}

impl AddSpecImpl for Dec64 {
    open spec fn obeys_add_spec() -> bool {
        true
    }

    open spec fn add_req(self, other: Dec64) -> bool {
        true
    }

    open spec fn add_spec(self, other: Dec64) -> Dec64 {
        self.sum(other)
    }
}

impl Sub for Dec64 {
    type Output = Dec64;

    /// The difference: `other` is negated and added.
    fn sub(self, other: Dec64) -> (r: Dec64)
        ensures
            r == self.difference(other),
            self.is_nan_spec() || other.is_nan_spec() ==> r == Dec64::nan(),
    {
        self.add(other.neg())
    }
}

impl SubSpecImpl for Dec64 {
    open spec fn obeys_sub_spec() -> bool {
        true
    }

    open spec fn sub_req(self, other: Dec64) -> bool {
        true
    }

    open spec fn sub_spec(self, other: Dec64) -> Dec64 {
        self.difference(other)
    }
}

impl Dec64 {
    /// A product whose coefficient is too long at an exponent above 127 is
    /// NaN: once its coefficient fits, it has no room for two powers of ten.
    proof fn lemma_scaled_too_large(c: int, e: int, last: int)
        requires
            !coefficient_fits(c),
            e > MAX_EXP,
        ensures
            Dec64::scaled(c, e, last) == Dec64::nan(),
        decreases magnitude(c),
    {
        let q = trunc_div(c, 10);
        if !coefficient_fits(q) {
            Dec64::lemma_scaled_too_large(q, e + 1, magnitude(c) % 10);
        } else {
            assert(Dec64::scaled(q, e + 1, magnitude(c) % 10) == Dec64::raised(q, e + 1));
            Dec64::lemma_raise_steps(q, e + 1);
            if coefficient_fits(q * 10) {
                assert(!coefficient_fits(q * 10 * 10));
                assert(Dec64::raise(q * 10, e) == Dec64::nan());
            }
        }
    }
}

impl Mul for Dec64 {
    type Output = Dec64;

    /// The product. NaN when an operand is NaN, else zero when an operand is
    /// zero.
    fn mul(self, other: Dec64) -> (r: Dec64)
        ensures
            r == self.product(other),
            self.is_nan_spec() || other.is_nan_spec() ==> r == Dec64::nan(),
    {
        if self.is_nan() || other.is_nan() {
            return consts::nan();
        }
        if self.is_zero() || other.is_zero() {
            return consts::zero();
        }
        let a: i128 = self.coefficient() as i128;
        let b: i128 = other.coefficient() as i128;
        assert(-0x8000_0000_0000_0000_0000_0000_0000 <= a * b
            <= 0x8000_0000_0000_0000_0000_0000_0000) by (nonlinear_arith)
            requires
                -0x80_0000_0000_0000 <= a <= 0x80_0000_0000_0000,
                -0x80_0000_0000_0000 <= b <= 0x80_0000_0000_0000,
        ;
        let ghost full: int = a * b;
        let ghost wide: int = self.exponent_spec() + other.exponent_spec();
        let mut c: i128 = a * b;
        let mut e: i32 = self.exponent() as i32 + other.exponent() as i32;
        let mut last: i128 = 0;
        // Cut digits while the coefficient is too long or the exponent too small.
        while !Dec64::coefficient_in_range(c) || e < -127
            invariant
                -254 <= e <= 254,
                !self.is_nan_spec() && !other.is_nan_spec(),
                self.product(other) == Dec64::scaled(full, wide, 0),
                magnitude(c as int) <= 0x8000_0000_0000_0000_0000_0000_0000,
                0 <= last <= 9,
                Dec64::scaled(c as int, e as int, last as int) == Dec64::scaled(full, wide, 0),
            decreases
                magnitude(c as int) + (if e < MIN_EXP {
                    MIN_EXP - e
                } else {
                    0
                }),
        {
            if e > 127 {
                proof {
                    Dec64::lemma_scaled_too_large(c as int, e as int, last as int);
                }
                return consts::nan();
            }
            last = if c < 0 {
                (-c) % 10
            } else {
                c % 10
            };
            c = c / 10;
            e = e + 1;
        }
        if e > 127 {
            proof {
                Dec64::lemma_raise_steps(c as int, e as int);
            }
            // Lend powers of ten to the coefficient while it has room.
            while e > 127
                invariant
                    127 <= e <= 254,
                    !self.is_nan_spec() && !other.is_nan_spec(),
                    self.product(other) == Dec64::scaled(full, wide, 0),
                    coefficient_fits(c as int),
                    Dec64::raise(c as int, e as int) == Dec64::scaled(full, wide, 0),
                decreases e,
            {
                if c > (MAX_COEFFICIENT as i128) / 10 || c < (MIN_COEFFICIENT as i128) / 10 {
                    return consts::nan();
                }
                c = c * 10;
                e = e - 1;
            }
            return Dec64::from_parts(c as i64, e as i8);
        }
        let rounded: i128 = if last >= 5 {
            if c > 0 {
                c + 1
            } else if c < 0 {
                c - 1
            } else {
                c
            }
        } else {
            c
        };
        if Dec64::coefficient_in_range(rounded) {
            Dec64::from_parts(rounded as i64, e as i8)
        } else {
            Dec64::new(rounded as i64, e)
        }
    }
}

impl MulSpecImpl for Dec64 {
    open spec fn obeys_mul_spec() -> bool {
        true
    }

    open spec fn mul_req(self, other: Dec64) -> bool {
        true
    }

    open spec fn mul_spec(self, other: Dec64) -> Dec64 {
        self.product(other)
    }
}

impl Div for Dec64 {
    type Output = Dec64;

    /// The quotient. NaN when an operand is NaN or the divisor is zero, else
    /// zero when the dividend is zero.
    fn div(self, other: Dec64) -> (r: Dec64)
        ensures
            r == self.quotient(other),
            self.is_nan_spec() || other.is_nan_spec() || other.is_zero_spec() ==> r == Dec64::nan(),
    {
        if self.is_nan() || other.is_nan() || other.is_zero() {
            return consts::nan();
        }
        if self.is_zero() {
            return consts::zero();
        }
        let wide: i32 = self.exponent() as i32 - other.exponent() as i32;
        if wide > 127 {
            return consts::nan();
        }
        if wide < -127 {
            return consts::zero();
        }
        // The division is done on the magnitudes; the sign is put back at the end.
        let negative: bool = (self.coefficient() < 0) != (other.coefficient() < 0);
        let limit: u128 = if negative {
            0x80_0000_0000_0000
        } else {
            0x7F_FFFF_FFFF_FFFF
        };
        let d: u128 = if other.coefficient() < 0 {
            (-(other.coefficient() as i128)) as u128
        } else {
            other.coefficient() as u128
        };
        let mut n: u128 = if self.coefficient() < 0 {
            (-(self.coefficient() as i128)) as u128
        } else {
            self.coefficient() as u128
        };
        let ghost divisor: int = other.coefficient_spec();
        let ghost mut dividend: int = self.coefficient_spec();
        let mut e: i32 = wide;
        let mut q: u128 = n / d;
        let mut rest: u128 = n % d;
        proof {
            lemma_trunc_div_magnitudes(dividend, divisor);
        }
        // Extend the quotient by a digit while there is something left to divide.
        while rest != 0 && q <= limit && e > -127
            invariant
                -127 <= e <= 127,
                divisor != 0,
                d == magnitude(divisor),
                d <= 0x80_0000_0000_0000,
                n == magnitude(dividend),
                negative == ((dividend < 0) != (divisor < 0)),
                limit == (if negative {
                    0x80_0000_0000_0000u128
                } else {
                    0x7F_FFFF_FFFF_FFFFu128
                }),
                q == magnitude(trunc_div(dividend, divisor)),
                rest == magnitude(trunc_rem(dividend, divisor)),
                trunc_div(dividend, divisor) != 0 ==> negative == (trunc_div(dividend, divisor)
                    < 0),
                n <= 0x80_0000_0000_0000 * 0x1_0000_0000_0000_0000,
                Dec64::ratio(dividend, divisor, e as int) == self.quotient(other),
            decreases e + 127,
        {
            proof {
                lemma_trunc_div_magnitudes(dividend, divisor);
                assert(d * q <= 0x80_0000_0000_0000 * 0x80_0000_0000_0000) by (nonlinear_arith)
                    requires
                        0 <= q <= 0x80_0000_0000_0000,
                        0 <= d <= 0x80_0000_0000_0000,
                ;
                lemma_trunc_div_magnitudes(dividend * 10, divisor);
                dividend = dividend * 10;
            }
            n = n * 10;
            e = e - 1;
            q = n / d;
            rest = n % d;
        }
        proof {
            lemma_trunc_div_magnitudes(dividend, divisor);
            assert(q <= 0x80_0000_0000_0000 * 0x1_0000_0000_0000_0000) by {
                vstd::arithmetic::div_mod::lemma_div_is_ordered_by_denominator(n as int, 1, d as int);
            }
        }
        if negative {
            Dec64::new_wide(-(q as i128), e)
        } else {
            Dec64::new_wide(q as i128, e)
        }
    }
}

impl DivSpecImpl for Dec64 {
    open spec fn obeys_div_spec() -> bool {
        true
    }

    open spec fn div_req(self, other: Dec64) -> bool {
        true
    }

    open spec fn div_spec(self, other: Dec64) -> Dec64 {
        self.quotient(other)
    }
}

} // verus!
