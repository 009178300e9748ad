//! Named values: the marks of the format, its limits, small integers and
//! some constants of mathematics, each rounded to the digits the format holds.

use vstd::prelude::*;
use crate::{Dec64, MAX_COEFFICIENT, MAX_EXP, MIN_COEFFICIENT, MIN_EXP};

verus! {

/// The step from 1 to the next number above it: `1e-16`.
pub fn epsilon() -> (r: Dec64)
    ensures
        r == Dec64::parts(1, -16),
{
    Dec64::from_parts(1, -16)
}

/// NaN in its canonical form.
pub fn nan() -> (r: Dec64)
    ensures
        r == Dec64::nan(),
{
    Dec64::from_raw(0x80)
}

/// Zero in its canonical form.
pub fn zero() -> (r: Dec64)
    ensures
        r == Dec64::zero(),
{
    Dec64::from_raw(0)
}

/// The greatest number: `36028797018963967e127`.
pub fn max() -> (r: Dec64)
    ensures
        r == Dec64::parts(MAX_COEFFICIENT as int, MAX_EXP as int),
{
    Dec64::from_parts(MAX_COEFFICIENT, MAX_EXP)
}

/// The least number: `-36028797018963968e127`.
pub fn min() -> (r: Dec64)
    ensures
        r == Dec64::parts(MIN_COEFFICIENT as int, MAX_EXP as int),
{
    Dec64::from_parts(MIN_COEFFICIENT, MAX_EXP)
}

/// The least number above zero: `1e-127`.
pub fn tiniest() -> (r: Dec64)
    ensures
        r == Dec64::parts(1, MIN_EXP as int),
{
    Dec64::from_parts(1, MIN_EXP)
}

/// The greatest number below zero: `-1e-127`.
pub fn negative_tiniest() -> (r: Dec64)
    ensures
        r == Dec64::parts(-1, MIN_EXP as int),
{
    Dec64::from_parts(-1, MIN_EXP)
}

/// The circle constant: `3.1415926535897932`.
pub fn pi() -> (r: Dec64)
    ensures
        r == Dec64::parts(31415926535897932, -16),
{
    Dec64::from_parts(31415926535897932, -16)
}

/// Half of pi: `1.5707963267948966`.
pub fn frac_pi_2() -> (r: Dec64)
    ensures
        r == Dec64::parts(15707963267948966, -16),
{
    Dec64::from_parts(15707963267948966, -16)
}

/// A third of pi: `1.0471975511965977`.
pub fn frac_pi_3() -> (r: Dec64)
    ensures
        r == Dec64::parts(10471975511965977, -16),
{
    Dec64::from_parts(10471975511965977, -16)
}

/// A quarter of pi: `0.7853981633974483`.
pub fn frac_pi_4() -> (r: Dec64)
    ensures
        r == Dec64::parts(7853981633974483, -16),
{
    Dec64::from_parts(7853981633974483, -16)
}

/// A sixth of pi: `0.5235987755982989`.
pub fn frac_pi_6() -> (r: Dec64)
    ensures
        r == Dec64::parts(5235987755982989, -16),
{
    Dec64::from_parts(5235987755982989, -16)
}

/// An eighth of pi: `0.3926990816987242`.
pub fn frac_pi_8() -> (r: Dec64)
    ensures
        r == Dec64::parts(3926990816987242, -16),
{
    Dec64::from_parts(3926990816987242, -16)
}

/// One over pi: `0.31830988618379067`.
pub fn frac_1_pi() -> (r: Dec64)
    ensures
        r == Dec64::parts(31830988618379067, -17),
{
    Dec64::from_parts(31830988618379067, -17)
}

/// Two over pi: `0.6366197723675813`.
pub fn frac_2_pi() -> (r: Dec64)
    ensures
        r == Dec64::parts(6366197723675813, -16),
{
    Dec64::from_parts(6366197723675813, -16)
}

/// Two over the square root of pi: `1.1283791670955125`.
pub fn frac_2_sqrt_pi() -> (r: Dec64)
    ensures
        r == Dec64::parts(11283791670955125, -16),
{
    Dec64::from_parts(11283791670955125, -16)
}

/// The square root of two: `1.4142135623730950`.
pub fn sqrt_2() -> (r: Dec64)
    ensures
        r == Dec64::parts(14142135623730950, -16),
{
    Dec64::from_parts(14142135623730950, -16)
}

/// One over the square root of two: `0.7071067811865475`.
pub fn frac_1_sqrt_2() -> (r: Dec64)
    ensures
        r == Dec64::parts(7071067811865475, -16),
{
    Dec64::from_parts(7071067811865475, -16)
}

/// The square root of three: `1.7320508075688773`.
pub fn sqrt_3() -> (r: Dec64)
    ensures
        r == Dec64::parts(17320508075688773, -16),
{
    Dec64::from_parts(17320508075688773, -16)
}

/// One over the square root of three: `0.5773502691896258`.
pub fn frac_1_sqrt_3() -> (r: Dec64)
    ensures
        r == Dec64::parts(5773502691896258, -16),
{
    Dec64::from_parts(5773502691896258, -16)
}

/// The base of the natural logarithm: `2.7182818284590452`.
pub fn e() -> (r: Dec64)
    ensures
        r == Dec64::parts(27182818284590452, -16),
{
    Dec64::from_parts(27182818284590452, -16)
}

/// The binary logarithm of e: `1.4426950408889634`.
pub fn log2_e() -> (r: Dec64)
    ensures
        r == Dec64::parts(14426950408889634, -16),
{
    Dec64::from_parts(14426950408889634, -16)
}

/// The decimal logarithm of e: `0.4342944819032518`.
pub fn log10_e() -> (r: Dec64)
    ensures
        r == Dec64::parts(4342944819032518, -16),
{
    Dec64::from_parts(4342944819032518, -16)
}

/// The natural logarithm of two: `0.6931471805599453`.
pub fn ln_2() -> (r: Dec64)
    ensures
        r == Dec64::parts(6931471805599453, -16),
{
    Dec64::from_parts(6931471805599453, -16)
}

/// The natural logarithm of ten: `2.3025850929940457`.
pub fn ln_10() -> (r: Dec64)
    ensures
        r == Dec64::parts(23025850929940457, -16),
{
    Dec64::from_parts(23025850929940457, -16)
}

/// A NaN that is not canonical: its coefficient is 128.
pub fn nonnormal_nan() -> (r: Dec64)
    ensures
        r == Dec64::parts(128, -128),
{
    proof {
        Dec64::lemma_parts_fields(128, -128);
    }
    Dec64::from_raw(0x8080)
}

/// The step from 1 to the next number below it, negated: `-1e-16`.
pub fn negative_epsilon() -> (r: Dec64)
    ensures
        r == Dec64::parts(-1, -16),
{
    Dec64::from_parts(-1, -16)
}

/// A zero that is not canonical: its exponent is 90.
pub fn zip() -> (r: Dec64)
    ensures
        r == Dec64::parts(0, 90),
{
    proof {
        Dec64::lemma_parts_fields(0, 90);
    }
    Dec64::from_raw(90)
}

/// A hundredth: `0.01`.
pub fn cent() -> (r: Dec64)
    ensures
        r == Dec64::parts(1, -2),
{
    Dec64::from_parts(1, -2)
}

/// A tenth: `0.1`.
pub fn tenth() -> (r: Dec64)
    ensures
        r == Dec64::parts(1, -1),
{
    Dec64::from_parts(1, -1)
}

/// A half: `0.5`.
pub fn half() -> (r: Dec64)
    ensures
        r == Dec64::parts(5, -1),
{
    Dec64::from_parts(5, -1)
}

/// The number next below 1 with sixteen digits: `0.9999999999999999`.
pub fn almost_one() -> (r: Dec64)
    ensures
        r == Dec64::parts(9999999999999999, -16),
{
    Dec64::from_parts(9999999999999999, -16)
}

/// The number next above -1 with sixteen digits: `-0.9999999999999999`.
pub fn almost_negative_one() -> (r: Dec64)
    ensures
        r == Dec64::parts(-9999999999999999, -16),
{
    Dec64::from_parts(-9999999999999999, -16)
}

/// One over the greatest integer with exponent 0: `27755575615628914e-33`.
pub fn frac_1_maxint() -> (r: Dec64)
    ensures
        r == Dec64::parts(27755575615628914, -33),
{
    Dec64::from_parts(27755575615628914, -33)
}

/// Ten to the hundredth power.
pub fn googol() -> (r: Dec64)
    ensures
        r == Dec64::parts(1, 100),
{
    Dec64::from_parts(1, 100)
}

/// Pi, negated.
pub fn negative_pi() -> (r: Dec64)
    ensures
        r == Dec64::parts(-31415926535897932, -16),
{
    Dec64::from_parts(-31415926535897932, -16)
}

/// A tenth, negated: `-0.1`.
pub fn negative_tenth() -> (r: Dec64)
    ensures
        r == Dec64::parts(-1, -1),
{
    Dec64::from_parts(-1, -1)
}

/// A fifth, negated: `-0.2`.
pub fn negative_fifth() -> (r: Dec64)
    ensures
        r == Dec64::parts(-2, -1),
{
    Dec64::from_parts(-2, -1)
}

/// The integer 1.
pub fn one() -> (r: Dec64)
    ensures
        r == Dec64::parts(1, 0),
{
    Dec64::from_parts(1, 0)
}

/// The integer 2.
pub fn two() -> (r: Dec64)
    ensures
        r == Dec64::parts(2, 0),
{
    Dec64::from_parts(2, 0)
}

/// The integer 3.
pub fn three() -> (r: Dec64)
    ensures
        r == Dec64::parts(3, 0),
{
    Dec64::from_parts(3, 0)
}

/// The integer 4.
pub fn four() -> (r: Dec64)
    ensures
        r == Dec64::parts(4, 0),
{
    Dec64::from_parts(4, 0)
}

/// The integer 5.
pub fn five() -> (r: Dec64)
    ensures
        r == Dec64::parts(5, 0),
{
    Dec64::from_parts(5, 0)
}

/// The integer 6.
pub fn six() -> (r: Dec64)
    ensures
        r == Dec64::parts(6, 0),
{
    Dec64::from_parts(6, 0)
}

/// The integer 7.
pub fn seven() -> (r: Dec64)
    ensures
        r == Dec64::parts(7, 0),
{
    Dec64::from_parts(7, 0)
}

/// The integer 8.
pub fn eight() -> (r: Dec64)
    ensures
        r == Dec64::parts(8, 0),
{
    Dec64::from_parts(8, 0)
}

/// The integer 9.
pub fn nine() -> (r: Dec64)
    ensures
        r == Dec64::parts(9, 0),
{
    Dec64::from_parts(9, 0)
}

/// The integer 10, as `1e1`.
pub fn ten() -> (r: Dec64)
    ensures
        r == Dec64::parts(1, 1),
{
    Dec64::from_parts(1, 1)
}

/// The integer -1.
pub fn negative_one() -> (r: Dec64)
    ensures
        r == Dec64::parts(-1, 0),
{
    Dec64::from_parts(-1, 0)
}

/// The integer -2.
pub fn negative_two() -> (r: Dec64)
    ensures
        r == Dec64::parts(-2, 0),
{
    Dec64::from_parts(-2, 0)
}

/// The integer -3.
pub fn negative_three() -> (r: Dec64)
    ensures
        r == Dec64::parts(-3, 0),
{
    Dec64::from_parts(-3, 0)
}

/// The integer -4.
pub fn negative_four() -> (r: Dec64)
    ensures
        r == Dec64::parts(-4, 0),
{
    Dec64::from_parts(-4, 0)
}

/// The integer -5.
pub fn negative_five() -> (r: Dec64)
    ensures
        r == Dec64::parts(-5, 0),
{
    Dec64::from_parts(-5, 0)
}

/// The integer -6.
pub fn negative_six() -> (r: Dec64)
    ensures
        r == Dec64::parts(-6, 0),
{
    Dec64::from_parts(-6, 0)
}

/// The integer -7.
pub fn negative_seven() -> (r: Dec64)
    ensures
        r == Dec64::parts(-7, 0),
{
    Dec64::from_parts(-7, 0)
}

/// The integer -8.
pub fn negative_eight() -> (r: Dec64)
    ensures
        r == Dec64::parts(-8, 0),
{
    Dec64::from_parts(-8, 0)
}

/// The integer -9.
pub fn negative_nine() -> (r: Dec64)
    ensures
        r == Dec64::parts(-9, 0),
{
    Dec64::from_parts(-9, 0)
}

/// The integer -10, as `-1e1`.
pub fn negative_ten() -> (r: Dec64)
    ensures
        r == Dec64::parts(-1, 1),
{
    Dec64::from_parts(-1, 1)
}

/// The greatest integer with exponent 0: `36028797018963967`.
pub fn maxint() -> (r: Dec64)
    ensures
        r == Dec64::parts(MAX_COEFFICIENT as int, 0),
{
    Dec64::from_parts(MAX_COEFFICIENT, 0)
}

/// The least integer with exponent 0: `-36028797018963968`.
pub fn minint() -> (r: Dec64)
    ensures
        r == Dec64::parts(MIN_COEFFICIENT as int, 0),
{
    Dec64::from_parts(MIN_COEFFICIENT, 0)
}

} // verus!
