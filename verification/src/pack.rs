//! The canonical constructor: any coefficient and exponent brought into the
//! format, by moving powers of ten between the two.

use vstd::prelude::*;
use crate::decimal::{
    lemma_pow10_grows,
    lemma_trunc_div_twice,
    magnitude,
    pow10,
    round_step,
    trunc_div,
    trunc_rem,
};
use crate::{coefficient_fits, consts, exponent_fits, Dec64, MAX_COEFFICIENT, MAX_EXP, MIN_COEFFICIENT, MIN_EXP};

verus! {

impl Dec64 {
    /// A coefficient too long for 56 bits, with an exponent in range: digits
    /// are cut from its end, one power of ten each, until what is left fits
    /// also after rounding half away from zero by the last digit cut. NaN
    /// when the exponent would pass 127.
    pub open spec fn shrink(c: int, e: int) -> Dec64
        decreases magnitude(c),
    {
        let q = trunc_div(c, 10);
        let rounded = q + round_step(trunc_rem(c, 10));
        if e >= MAX_EXP {
            Dec64::nan()
        } else if coefficient_fits(q) && coefficient_fits(rounded) {
            Dec64::parts(rounded, e + 1)
        } else {
            Dec64::shrink(q, e + 1)
        }
    }

    /// A coefficient with an exponent in range: packed as it is when it fits,
    /// shortened otherwise.
    pub open spec fn fit(c: int, e: int) -> Dec64 {
        if coefficient_fits(c) {
            Dec64::parts(c, e)
        } else {
            Dec64::shrink(c, e)
        }
    }

    /// An exponent above 127 gives what it has above 127 to the coefficient,
    /// as a power of ten: NaN when the coefficient then no longer fits.
    pub open spec fn raised(c: int, e: int) -> Dec64 {
        let full = c * pow10((e - MAX_EXP) as nat);
        if coefficient_fits(full) {
            Dec64::parts(full, MAX_EXP as int)
        } else {
            Dec64::nan()
        }
    }

    /// An exponent below -127 takes from the coefficient what it lacks to
    /// -127, as a power of ten, and what is left of the coefficient is not
    /// rounded: zero when nothing is left.
    pub open spec fn lowered(c: int, e: int) -> Dec64 {
        let rest = trunc_div(c, pow10((MIN_EXP - e) as nat));
        if rest == 0 {
            Dec64::zero()
        } else {
            Dec64::fit(rest, MIN_EXP as int)
        }
    }

    /// `raised`, one power of ten at a time.
    pub open spec fn raise(c: int, e: int) -> Dec64
        decreases e,
    {
        if e <= MAX_EXP {
            Dec64::parts(c, e)
        } else if !coefficient_fits(c * 10) {
            Dec64::nan()
        } else {
            Dec64::raise(c * 10, e - 1)
        }
    }

    /// `lowered`, one digit at a time.
    pub open spec fn lower(c: int, e: int) -> Dec64
        decreases -e,
    {
        if e >= MIN_EXP {
            Dec64::fit(c, e)
        } else if trunc_div(c, 10) == 0 {
            Dec64::zero()
        } else {
            Dec64::lower(trunc_div(c, 10), e + 1)
        }
    }

    /// The canonical value of `c * 10^e`, for any integers `c` and `e`.
    pub open spec fn new_spec(c: int, e: int) -> Dec64 {
        if c == 0 {
            Dec64::zero()
        } else if e > MAX_EXP {
            Dec64::raised(c, e)
        } else if e < MIN_EXP {
            Dec64::lowered(c, e)
        } else {
            Dec64::fit(c, e)
        }
    }

    /// Whether the value is in canonical form: the one zero, the one NaN, or
    /// a number with a coefficient other than 0.
    pub open spec fn is_canonical(self) -> bool {
        self == Dec64::zero() || self == Dec64::nan() || (self.coefficient_spec() != 0
            && exponent_fits(self.exponent_spec()))
    }

    /// Taking the powers of ten one at a time gives the same.
    pub proof fn lemma_raise_steps(c: int, e: int)
        requires
            e >= MAX_EXP,
            e > MAX_EXP || coefficient_fits(c),
        ensures
            Dec64::raise(c, e) == Dec64::raised(c, e),
        decreases e,
    {
        let k = (e - MAX_EXP) as nat;
        if e <= MAX_EXP {
            assert(c * pow10(0) == c) by (nonlinear_arith)
                requires
                    pow10(0) == 1,
            ;
        } else {
            let rest = pow10((k - 1) as nat);
            lemma_pow10_grows(0, (k - 1) as nat);
            assert(c * pow10(k) == (c * 10) * rest) by (nonlinear_arith)
                requires
                    pow10(k) == 10 * rest,
            ;
            if !coefficient_fits(c * 10) {
                assert(!coefficient_fits((c * 10) * rest)) by (nonlinear_arith)
                    requires
                        rest >= 1,
                        !coefficient_fits(c * 10),
                ;
            } else {
                Dec64::lemma_raise_steps(c * 10, e - 1);
            }
        }
    }

    /// Cutting the digits one at a time gives the same.
    pub proof fn lemma_lower_steps(c: int, e: int)
        requires
            e <= MIN_EXP,
            c != 0,
        ensures
            Dec64::lower(c, e) == Dec64::lowered(c, e),
        decreases -e,
    {
        let k = (MIN_EXP - e) as nat;
        if e >= MIN_EXP {
            assert(pow10(0) == 1);
        } else {
            let rest = pow10((k - 1) as nat);
            lemma_pow10_grows(0, (k - 1) as nat);
            lemma_trunc_div_twice(c, 10, rest);
            if trunc_div(c, 10) == 0 {
            } else {
                Dec64::lemma_lower_steps(trunc_div(c, 10), e + 1);
            }
        }
    }

    /// The canonical value, with the exponent brought into range one step at
    /// a time.
    pub proof fn lemma_new_steps(c: int, e: int)
        requires
            c != 0,
        ensures
            e > MAX_EXP ==> Dec64::new_spec(c, e) == Dec64::raise(c, e),
            e <= MAX_EXP ==> Dec64::new_spec(c, e) == Dec64::lower(c, e),
    {
        if e > MAX_EXP {
            Dec64::lemma_raise_steps(c, e);
        } else if e < MIN_EXP {
            Dec64::lemma_lower_steps(c, e);
        }
    }

    /// A value shortened from a coefficient of some length is canonical.
    pub proof fn lemma_shrink_canonical(c: int, e: int)
        requires
            magnitude(c) >= 100,
            exponent_fits(e),
        ensures
            Dec64::shrink(c, e).is_canonical(),
        decreases magnitude(c),
    {
        let q = trunc_div(c, 10);
        let rounded = q + round_step(trunc_rem(c, 10));
        if e >= MAX_EXP {
        } else if coefficient_fits(q) && coefficient_fits(rounded) {
            Dec64::lemma_parts_fields(rounded, e + 1);
        } else {
            Dec64::lemma_shrink_canonical(q, e + 1);
        }
    }

    /// The canonical value of any pair is in canonical form.
    pub proof fn lemma_new_canonical(c: int, e: int)
        ensures
            Dec64::new_spec(c, e).is_canonical(),
    {
        if c == 0 {
        } else if e > MAX_EXP {
            Dec64::lemma_new_steps(c, e);
            Dec64::lemma_raise_canonical(c, e);
        } else if e < MIN_EXP {
            Dec64::lemma_new_steps(c, e);
            Dec64::lemma_lower_canonical(c, e);
        } else {
            Dec64::lemma_fit_canonical(c, e);
        }
    }

    /// A coefficient other than 0 with an exponent in range gives a canonical
    /// value.
    pub proof fn lemma_fit_canonical(c: int, e: int)
        requires
            c != 0,
            exponent_fits(e),
        ensures
            Dec64::fit(c, e).is_canonical(),
    {
        if coefficient_fits(c) {
            Dec64::lemma_parts_fields(c, e);
        } else {
            Dec64::lemma_shrink_canonical(c, e);
        }
    }

    /// Bringing an exponent down to 127 gives a canonical value.
    pub proof fn lemma_raise_canonical(c: int, e: int)
        requires
            c != 0,
            e >= MAX_EXP,
            e > MAX_EXP || coefficient_fits(c),
        ensures
            Dec64::raise(c, e).is_canonical(),
        decreases e,
    {
        if e <= MAX_EXP {
            Dec64::lemma_parts_fields(c, e);
        } else if !coefficient_fits(c * 10) {
        } else {
            Dec64::lemma_raise_canonical(c * 10, e - 1);
        }
    }

    /// Bringing an exponent up to -127 gives a canonical value.
    pub proof fn lemma_lower_canonical(c: int, e: int)
        requires
            c != 0,
            e <= MIN_EXP,
        ensures
            Dec64::lower(c, e).is_canonical(),
        decreases -e,
    {
        if e >= MIN_EXP {
            Dec64::lemma_fit_canonical(c, e);
        } else if trunc_div(c, 10) == 0 {
        } else {
            Dec64::lemma_lower_canonical(trunc_div(c, 10), e + 1);
        }
    }

    /// The canonical value of `coefficient * 10^exponent`. A zero comes out
    /// as the one canonical zero; a coefficient or exponent out of range is
    /// brought into range by moving powers of ten between the two, rounding
    /// half away from zero where digits of a long coefficient are cut; what
    /// is too large for the format is NaN and what is too small is zero.
    pub fn new(coefficient: i64, exponent: i32) -> (r: Dec64)
        ensures
            r == Dec64::new_spec(coefficient as int, exponent as int),
            r.is_canonical(),
            coefficient == 0 ==> r == Dec64::zero(),
            coefficient != 0 && coefficient_fits(coefficient as int) && exponent_fits(
                exponent as int,
            ) ==> r.coefficient_spec() == coefficient && r.exponent_spec() == exponent,
    {
        proof {
            Dec64::lemma_new_canonical(coefficient as int, exponent as int);
        }
        if coefficient == 0 {
            return consts::zero();
        }
        proof {
            Dec64::lemma_new_steps(coefficient as int, exponent as int);
        }
        let mut c: i64 = coefficient;
        let mut e: i32 = exponent;
        if e > 127 {
            // The exponent is too large: lend powers of ten to the coefficient.
            while e > 127
                invariant
                    e >= 127,
                    c != 0,
                    e > 127 || coefficient_fits(c as int),
                    Dec64::raise(c as int, e as int) == Dec64::new_spec(
                        coefficient as int,
                        exponent as int,
                    ),
                decreases e,
            {
                if c > MAX_COEFFICIENT / 10 || c < MIN_COEFFICIENT / 10 {
                    return consts::nan();
                }
                c = c * 10;
                e = e - 1;
            }
            return Dec64::from_parts(c, e as i8);
        }
        while e < -127
            invariant
                e <= 127,
                c != 0,
                Dec64::lower(c as int, e as int) == Dec64::new_spec(
                    coefficient as int,
                    exponent as int,
                ),
            decreases -e,
        {
            // The exponent is too small: drop digits of the coefficient.
            c = c / 10;
            if c == 0 {
                return consts::zero();
            }
            e = e + 1;
        }
        if Dec64::coefficient_in_range(c as i128) {
            return Dec64::from_parts(c, e as i8);
        }
        // The coefficient is too long: cut digits from its end.
        loop
            invariant
                exponent_fits(e as int),
                magnitude(c as int) >= 100,
                Dec64::shrink(c as int, e as int) == Dec64::new_spec(
                    coefficient as int,
                    exponent as int,
                ),
            decreases magnitude(c as int),
        {
            if e >= 127 {
                return consts::nan();
            }
            e = e + 1;
            let rem: i64 = c % 10;
            c = c / 10;
            if Dec64::coefficient_in_range(c as i128) {
                let rounded: i64 = if rem <= -5 {
                    c - 1
                } else if rem >= 5 {
                    c + 1
                } else {
                    c
                };
                if Dec64::coefficient_in_range(rounded as i128) {
                    return Dec64::from_parts(rounded, e as i8);
                }
            }
        }
    }

    /// The canonical value of `coefficient * 10^exponent` for a coefficient
    /// of up to 128 bits: as `new`, which takes over once enough digits are
    /// cut for 64 bits.
    pub fn new_wide(coefficient: i128, exponent: i32) -> (r: Dec64)
        ensures
            r == Dec64::new_spec(coefficient as int, exponent as int),
            r.is_canonical(),
    {
        proof {
            Dec64::lemma_new_canonical(coefficient as int, exponent as int);
        }
        if coefficient == 0 {
            return consts::zero();
        }
        proof {
            Dec64::lemma_new_steps(coefficient as int, exponent as int);
        }
        if exponent > 127 {
            if -0x8000_0000_0000_0000 <= coefficient && coefficient <= 0x7FFF_FFFF_FFFF_FFFF {
                return Dec64::new(coefficient as i64, exponent);
            }
            return consts::nan();
        }
        let mut c: i128 = coefficient;
        let mut e: i32 = exponent;
        while c < -0x8000_0000_0000_0000 || c > 0x7FFF_FFFF_FFFF_FFFF
            invariant
                e <= 127,
                c != 0,
                Dec64::lower(c as int, e as int) == Dec64::new_spec(
                    coefficient as int,
                    exponent as int,
                ),
            decreases magnitude(c as int),
        {
            if e >= 127 {
                return consts::nan();
            }
            proof {
                Dec64::lemma_long_step(c as int, e as int);
            }
            c = c / 10;
            e = e + 1;
        }
        proof {
            Dec64::lemma_new_steps(c as int, e as int);
        }
        Dec64::new(c as i64, e)
    }

    /// One digit cut from a coefficient that is an order of magnitude too
    /// long changes nothing in what the pair stands for.
    proof fn lemma_long_step(c: int, e: int)
        requires
            c < -0x8000_0000_0000_0000 || c > 0x7FFF_FFFF_FFFF_FFFF,
            e < MAX_EXP,
        ensures
            Dec64::lower(c, e) == Dec64::lower(trunc_div(c, 10), e + 1),
            trunc_div(c, 10) != 0,
            magnitude(trunc_div(c, 10)) < magnitude(c),
    {
        let q = trunc_div(c, 10);
        if e >= MIN_EXP {
            assert(!coefficient_fits(q));
            assert(Dec64::lower(c, e) == Dec64::shrink(c, e));
            assert(Dec64::shrink(c, e) == Dec64::shrink(q, e + 1));
            assert(Dec64::lower(q, e + 1) == Dec64::fit(q, e + 1));
        } else {
        }
    }
}

} // verus!
