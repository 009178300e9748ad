//! What holds of the operations taken together.

use vstd::prelude::*;
use crate::decimal::{magnitude, pow10, trunc_div};
use crate::lemmas::{
    lemma_ceil_of_fraction,
    lemma_ceil_of_small,
    lemma_floor_of_fraction,
    lemma_floor_of_small,
    lemma_multiple_is_integer,
    lemma_place,
    lemma_place_facts,
    lemma_rounded_multiple,
    lemma_shrink_is_near,
    lemma_stretch_whole,
    lemma_stretch_zero,
};
use crate::{coefficient_fits, exponent_fits, Dec64, MAX_EXP, MIN_COEFFICIENT};

verus! {

/// A coefficient other than 0 and an exponent, both in range, come back from
/// the canonical value as they went in. (A coefficient of 0 does not bring
/// its exponent back: every zero is made the canonical one.)
pub proof fn law_new_keeps_fields(c: int, e: int)
    requires
        coefficient_fits(c),
        exponent_fits(e),
        c != 0,
    ensures
        Dec64::new_spec(c, e).coefficient_spec() == c,
        Dec64::new_spec(c, e).exponent_spec() == e,
{
    Dec64::lemma_parts_fields(c, e);
}

/// The canonical value of a zero coefficient is the canonical zero, whatever
/// the exponent.
pub proof fn law_new_of_zero(e: int)
    ensures
        Dec64::new_spec(0, e) == Dec64::zero(),
        Dec64::new_spec(0, e).is_zero_spec(),
        Dec64::new_spec(0, e).coefficient_spec() == 0,
        Dec64::new_spec(0, e).exponent_spec() == 0,
{
}

/// A coefficient too long for the format is rounded to the nearest that
/// the format holds: the coefficient that comes out, put back at the
/// exponent that went in, is off by at most half a unit of its last digit.
pub proof fn law_shrink_is_nearest(c: int, e: int)
    requires
        !coefficient_fits(c),
        exponent_fits(e),
        !Dec64::new_spec(c, e).is_nan_spec(),
    ensures
        Dec64::new_spec(c, e).exponent_spec() > e,
        2 * magnitude(
            c - Dec64::new_spec(c, e).coefficient_spec() * pow10(
                (Dec64::new_spec(c, e).exponent_spec() - e) as nat,
            ),
        ) <= pow10((Dec64::new_spec(c, e).exponent_spec() - e) as nat),
{
    assert(pow10(0) == 1);
    lemma_shrink_is_near(c, 0, c, e);
}

/// NaN goes through every operator: a sum, a difference, a product or a
/// quotient with a NaN operand is the canonical NaN. So is every quotient
/// by a zero.
pub proof fn law_nan_absorbs(a: Dec64, b: Dec64)
    ensures
        a.is_nan_spec() || b.is_nan_spec() ==> a.sum(b) == Dec64::nan() && a.difference(b)
            == Dec64::nan() && a.product(b) == Dec64::nan() && a.quotient(b) == Dec64::nan(),
        b.is_zero_spec() ==> a.quotient(b) == Dec64::nan(),
        a.is_nan_spec() ==> a.negation() == Dec64::nan(),
{
}

/// The sum does not depend on the order of its operands: the two sums are
/// the same word, so they are equal. This holds of NaN too.
pub proof fn law_sum_commutes(a: Dec64, b: Dec64)
    ensures
        a.sum(b) == b.sum(a),
        a.sum(b).same(b.sum(a)),
{
}

/// The product does not depend on the order of its operands: the two
/// products are the same word, so they are equal. This holds of NaN too.
pub proof fn law_product_commutes(a: Dec64, b: Dec64)
    ensures
        a.product(b) == b.product(a),
        a.product(b).same(b.product(a)),
{
    vstd::arithmetic::mul::lemma_mul_is_commutative(a.coefficient_spec(), b.coefficient_spec());
}

/// Where the operand with the greater exponent has room, in a signed 64-bit
/// word, for the powers of ten down to the exponent of the other, nothing is
/// lost before the sum: the sum is the canonical value of the exact sum of
/// the two, at the lesser exponent. (With equal exponents a sum that fits is
/// packed as it is, so a sum of 0 keeps the exponent.)
pub proof fn law_sum_is_exact(a: Dec64, b: Dec64)
    requires
        !a.is_nan_spec(),
        !b.is_nan_spec(),
        a.exponent_spec() >= b.exponent_spec(),
        a.exponent_spec() > b.exponent_spec() ==> b.coefficient_spec() != 0,
        crate::ops::word_fits(
            a.coefficient_spec() * pow10((a.exponent_spec() - b.exponent_spec()) as nat),
        ),
    ensures
        ({
            let exact = a.coefficient_spec() * pow10(
                (a.exponent_spec() - b.exponent_spec()) as nat,
            ) + b.coefficient_spec();
            if exact == 0 && a.exponent_spec() == b.exponent_spec() {
                a.sum(b) == Dec64::parts(0, b.exponent_spec())
            } else {
                a.sum(b) == Dec64::new_spec(exact, b.exponent_spec())
            }
        }),
{
    let e = b.exponent_spec();
    a.lemma_parts_of_fields();
    b.lemma_parts_of_fields();
    assert(pow10(0) == 1);
    if a.exponent_spec() == e {
        assert(a.coefficient_spec() * pow10(0) == a.coefficient_spec()) by (nonlinear_arith)
            requires
                pow10(0) == 1,
        ;
    } else {
        lemma_stretch_whole(a.coefficient_spec(), a.exponent_spec(), e);
        assert(trunc_div(b.coefficient_spec(), pow10(0)) == b.coefficient_spec());
    }
}

/// Adding the canonical zero changes nothing: the sum is equal to the
/// number, and is the same word unless the number is itself a zero.
pub proof fn law_zero_is_neutral(a: Dec64)
    requires
        !a.is_nan_spec(),
    ensures
        a.sum(Dec64::zero()).same(a),
        !a.is_zero_spec() ==> a.sum(Dec64::zero()) == a,
{
    let c = a.coefficient_spec();
    let e = a.exponent_spec();
    a.lemma_parts_of_fields();
    if e < 0 && c != 0 {
        lemma_stretch_zero(0, e);
        assert(trunc_div(c, pow10(0)) == c);
    }
}

/// Multiplying by one changes nothing: the product is equal to the number,
/// and is the same word unless the number is a zero.
pub proof fn law_one_is_neutral(a: Dec64)
    requires
        !a.is_nan_spec(),
    ensures
        a.product(Dec64::parts(1, 0)).same(a),
        !a.is_zero_spec() ==> a.product(Dec64::parts(1, 0)) == a,
{
    let c = a.coefficient_spec();
    let e = a.exponent_spec();
    a.lemma_parts_of_fields();
    Dec64::lemma_parts_fields(1, 0);
    if c != 0 {
        assert(c * 1 == c);
        assert(Dec64::scaled(c, e, 0) == Dec64::fit(c, e));
    }
}

/// Negating a number twice gives a value equal to the number. Where the
/// coefficient is the least one, which has no counterpart, the first
/// negation costs the last digit: the result is then equal but not the same
/// word, and at exponent 127, where the digit cannot go, it is NaN, which
/// is left out here.
pub proof fn law_double_negation(a: Dec64)
    requires
        !a.is_nan_spec(),
        a.coefficient_spec() != MIN_COEFFICIENT || a.exponent_spec() < MAX_EXP,
    ensures
        a.negation().negation().same(a),
        a.coefficient_spec() != 0 && a.coefficient_spec() != MIN_COEFFICIENT
            ==> a.negation().negation() == a,
{
    let c = a.coefficient_spec();
    let e = a.exponent_spec();
    a.lemma_parts_of_fields();
    if c == MIN_COEFFICIENT {
        reveal_with_fuel(Dec64::shrink, 2);
        Dec64::lemma_parts_fields(3602879701896397, e + 1);
        Dec64::lemma_parts_fields(-3602879701896397, e + 1);
        let once = a.negation();
        let twice = once.negation();
        assert(once == Dec64::parts(3602879701896397, e + 1));
        assert(twice == Dec64::parts(-3602879701896397, e + 1));
        assert(twice.difference(a) == Dec64::parts(0, e + 1));
        Dec64::lemma_parts_fields(0, e + 1);
    } else if c != 0 {
        Dec64::lemma_parts_fields(-c, e);
    }
}

/// A number lies between its two roundings to an integer: rounded down it
/// is at most itself, and itself it is at most what it is rounded up to, in
/// the order of the type. NaN is left out.
pub proof fn law_floor_ceil_bracket(x: Dec64)
    requires
        !x.is_nan_spec(),
    ensures
        x.floor_spec().at_most(x),
        x.at_most(x.ceil_spec()),
{
    let e = x.exponent_spec();
    if e >= 0 {
    } else if e <= -19 {
        lemma_floor_of_small(x);
        lemma_ceil_of_small(x);
    } else {
        lemma_floor_of_fraction(x);
        lemma_ceil_of_fraction(x);
    }
}

/// Rounding a number down or up gives an integer.
pub proof fn law_floor_and_ceil_are_integers(x: Dec64)
    requires
        !x.is_nan_spec(),
    ensures
        x.floor_spec().is_integer_spec(),
        x.ceil_spec().is_integer_spec(),
{
    let c = x.coefficient_spec();
    let e = x.exponent_spec();
    x.lemma_parts_of_fields();
    if e >= 0 {
    } else if e <= -19 {
        Dec64::lemma_parts_fields(-1, 0);
        Dec64::lemma_parts_fields(1, 0);
    } else {
        let one = pow10((-e) as nat);
        lemma_place(e);
        lemma_place_facts(one, c);
        lemma_place_facts(one, -c);
        lemma_rounded_multiple(c, one, one);
        lemma_rounded_multiple(-c, one, one);
        crate::decimal::lemma_mod_negation((-c) - (-c) % one, one);
        lemma_multiple_is_integer(c - c % one, e);
        lemma_multiple_is_integer(c + (-c) % one, e);
    }
}

} // verus!
