//! The lemmas behind the laws: what the canonical constructor does to signs
//! and to round numbers, and how rounded numbers compare with what they were
//! rounded from.

use vstd::prelude::*;
use crate::decimal::{
    lemma_pow10_grows,
    lemma_trunc_div_magnitudes,
    lemma_trunc_div_shrinks,
    lemma_trunc_div_twice,
    magnitude,
    pow10,
    round_step,
    trunc_div,
    trunc_rem,
};
use crate::ops::stretch;
use crate::{coefficient_fits, exponent_fits, Dec64, MAX_COEFFICIENT, MAX_EXP, MIN_COEFFICIENT, MIN_EXP};

verus! {

/// Cutting a digit and rounding by it leaves the nearest multiple: with `c`
/// for `far` without its digits below `unit`, the rounded quotient of `c` by
/// ten, put back at ten times `unit`, is off from `far` by at most half of
/// that.
pub proof fn lemma_round_is_near(far: int, unit: int, c: int)
    requires
        unit > 0,
        c == trunc_div(far, unit),
    ensures
        2 * magnitude(
            far - (trunc_div(c, 10) + round_step(trunc_rem(c, 10))) * (10 * unit),
        ) <= 10 * unit,
{
    let q = trunc_div(c, 10);
    let d = trunc_rem(c, 10);
    let t = trunc_rem(far, unit);
    lemma_trunc_div_magnitudes(far, unit);
    lemma_trunc_div_magnitudes(c, 10);
    assert(far == unit * c + t);
    assert(c == 10 * q + d);
    let step = round_step(d);
    assert(far - (q + step) * (10 * unit) == unit * d + t - step * (10 * unit))
        by (nonlinear_arith)
        requires
            far == unit * c + t,
            c == 10 * q + d,
    ;
    assert(2 * magnitude(unit * d + t - step * (10 * unit)) <= 10 * unit) by (nonlinear_arith)
        requires
            unit > 0,
            -10 < d < 10,
            -unit < t < unit,
            (d >= 0 && t >= 0) || (d <= 0 && t <= 0),
            step == round_step(d),
    ;
}

/// The same of a coefficient that is shortened, which stands itself for
/// `far` without its digits below ten to the `below`.
pub proof fn lemma_shrink_is_near(far: int, below: nat, c: int, e: int)
    requires
        c == trunc_div(far, pow10(below)),
        magnitude(c) >= 100,
        exponent_fits(e),
        !Dec64::shrink(c, e).is_nan_spec(),
    ensures
        Dec64::shrink(c, e).exponent_spec() > e,
        2 * magnitude(
            far - Dec64::shrink(c, e).coefficient_spec() * pow10(
                (below + Dec64::shrink(c, e).exponent_spec() - e) as nat,
            ),
        ) <= pow10((below + Dec64::shrink(c, e).exponent_spec() - e) as nat),
    decreases magnitude(c),
{
    let q = trunc_div(c, 10);
    let rounded = q + round_step(trunc_rem(c, 10));
    let unit = pow10(below);
    lemma_pow10_grows(0, below);
    assert(pow10(below + 1) == 10 * unit);
    if coefficient_fits(q) && coefficient_fits(rounded) {
        Dec64::lemma_parts_fields(rounded, e + 1);
        lemma_round_is_near(far, unit, c);
    } else {
        lemma_trunc_div_twice(far, unit, 10);
        assert(unit * 10 == 10 * unit);
        lemma_shrink_is_near(far, below + 1, q, e + 1);
    }
}

/// The canonical value of a pair has the sign of the coefficient, or is zero
/// or NaN.
pub proof fn lemma_new_sign(c: int, e: int)
    ensures
        c <= 0 ==> Dec64::new_spec(c, e).coefficient_spec() <= 0,
        c >= 0 ==> Dec64::new_spec(c, e).coefficient_spec() >= 0,
{
    if c == 0 {
    } else if e > MAX_EXP {
        Dec64::lemma_new_steps(c, e);
        lemma_raise_sign(c, e);
    } else if e < MIN_EXP {
        Dec64::lemma_new_steps(c, e);
        lemma_lower_sign(c, e);
    } else {
        lemma_fit_sign(c, e);
    }
}

/// The same of a pair whose exponent is in range.
pub proof fn lemma_fit_sign(c: int, e: int)
    requires
        exponent_fits(e),
    ensures
        c <= 0 ==> Dec64::fit(c, e).coefficient_spec() <= 0,
        c >= 0 ==> Dec64::fit(c, e).coefficient_spec() >= 0,
{
    if coefficient_fits(c) {
        Dec64::lemma_parts_fields(c, e);
    } else {
        lemma_shrink_sign(c, e);
    }
}

/// The same of a coefficient that is shortened.
pub proof fn lemma_shrink_sign(c: int, e: int)
    requires
        exponent_fits(e),
    ensures
        c <= 0 ==> Dec64::shrink(c, e).coefficient_spec() <= 0,
        c >= 0 ==> Dec64::shrink(c, e).coefficient_spec() >= 0,
    decreases magnitude(c),
{
    let q = trunc_div(c, 10);
    let rounded = q + round_step(trunc_rem(c, 10));
    if e >= MAX_EXP {
    } else if coefficient_fits(q) && coefficient_fits(rounded) {
        Dec64::lemma_parts_fields(rounded, e + 1);
    } else {
        lemma_shrink_sign(q, e + 1);
    }
}

/// The same of an exponent brought down to 127.
pub proof fn lemma_raise_sign(c: int, e: int)
    requires
        e >= MAX_EXP,
        e > MAX_EXP || coefficient_fits(c),
    ensures
        c <= 0 ==> Dec64::raise(c, e).coefficient_spec() <= 0,
        c >= 0 ==> Dec64::raise(c, e).coefficient_spec() >= 0,
    decreases e,
{
    if e <= MAX_EXP {
        Dec64::lemma_parts_fields(c, e);
    } else if !coefficient_fits(c * 10) {
    } else {
        lemma_raise_sign(c * 10, e - 1);
    }
}

/// The same of an exponent brought up to -127.
pub proof fn lemma_lower_sign(c: int, e: int)
    requires
        e <= MIN_EXP,
    ensures
        c <= 0 ==> Dec64::lower(c, e).coefficient_spec() <= 0,
        c >= 0 ==> Dec64::lower(c, e).coefficient_spec() >= 0,
    decreases -e,
{
    if e >= MIN_EXP {
        lemma_fit_sign(c, e);
    } else if trunc_div(c, 10) == 0 {
    } else {
        lemma_lower_sign(trunc_div(c, 10), e + 1);
    }
}

/// A coefficient that has room for all the powers of ten down to the
/// exponent aimed at takes them all up.
pub proof fn lemma_stretch_whole(c: int, e: int, target: int)
    requires
        target <= e,
        crate::ops::word_fits(c * pow10((e - target) as nat)),
    ensures
        stretch(c, e, target) == (c * pow10((e - target) as nat), target),
    decreases e - target,
{
    let k = (e - target) as nat;
    if e <= target {
        assert(c * pow10(0) == c) by (nonlinear_arith)
            requires
                pow10(0) == 1,
        ;
    } else {
        let rest = pow10((k - 1) as nat);
        lemma_pow10_grows(0, (k - 1) as nat);
        assert(c * pow10(k) == (c * 10) * rest) by (nonlinear_arith)
            requires
                pow10(k) == 10 * rest,
        ;
        assert(crate::ops::word_fits(c * 10)) by (nonlinear_arith)
            requires
                rest >= 1,
                crate::ops::word_fits((c * 10) * rest),
        ;
        lemma_stretch_whole(c * 10, e - 1, target);
    }
}

/// A zero coefficient stretches all the way to the exponent aimed at.
pub proof fn lemma_stretch_zero(e: int, target: int)
    requires
        target <= e,
    ensures
        stretch(0, e, target) == (0int, target),
    decreases e - target,
{
    if e > target {
        lemma_stretch_zero(e - 1, target);
    }
}

/// A difference whose coefficient is not positive puts the first value
/// before the second, or makes them equal.
pub proof fn lemma_at_most_by_difference(a: Dec64, b: Dec64)
    requires
        a == b || a.difference(b).coefficient_spec() <= 0,
    ensures
        a.at_most(b),
{
}

/// What is added to a unit and a number of 19 or more decimal places: the
/// unit stretches to 18 places, and the number loses the rest.
pub proof fn lemma_unit_against_small(unit: Dec64, small: Dec64)
    requires
        unit == Dec64::parts(-1, 0) || unit == Dec64::parts(1, 0),
        !small.is_nan_spec(),
        small.exponent_spec() <= -18,
        small.coefficient_spec() != 0,
    ensures
        unit.sum(small) == Dec64::new_spec(
            unit.coefficient_spec() * 1000000000000000000 + trunc_div(
                small.coefficient_spec(),
                pow10((-18 - small.exponent_spec()) as nat),
            ),
            -18,
        ),
{
    Dec64::lemma_parts_fields(-1, 0);
    Dec64::lemma_parts_fields(1, 0);
    reveal_with_fuel(stretch, 20);
}

/// Rounding down a number of 19 or more decimal places gives a value that
/// is at most the number.
pub proof fn lemma_floor_of_small(x: Dec64)
    requires
        !x.is_nan_spec(),
        x.exponent_spec() <= -19,
    ensures
        x.floor_spec().at_most(x),
{
    let c = x.coefficient_spec();
    let e = x.exponent_spec();
    let f = x.floor_spec();
    let nx = x.negation();
    x.lemma_parts_of_fields();
    if c == 0 {
        assert(f.difference(x) == Dec64::parts(0, 0));
        Dec64::lemma_parts_fields(0, 0);
    } else if c > 0 {
        Dec64::lemma_parts_fields(-c, e);
        lemma_stretch_zero(0, e);
        assert(trunc_div(-c, pow10(0)) == -c);
        lemma_new_sign(-c, e);
    } else {
        Dec64::lemma_new_canonical(-c, e);
        lemma_new_sign(-c, e);
        if c == MIN_COEFFICIENT {
            reveal_with_fuel(Dec64::shrink, 2);
            Dec64::lemma_parts_fields(3602879701896397, e + 1);
            assert(nx == Dec64::parts(3602879701896397, e + 1));
        } else {
            Dec64::lemma_parts_fields(-c, e);
        }
        lemma_unit_against_small(f, nx);
        let cut = pow10((-18 - nx.exponent_spec()) as nat);
        crate::decimal::lemma_pow10_grows(0, (-18 - nx.exponent_spec()) as nat);
        lemma_trunc_div_shrinks(nx.coefficient_spec(), cut);
        Dec64::lemma_parts_fields(-1, 0);
        lemma_new_sign(-1000000000000000000 + trunc_div(nx.coefficient_spec(), cut), -18);
    }
    lemma_at_most_by_difference(f, x);
}

/// Rounding up a number of 19 or more decimal places gives a value that is
/// at least the number.
pub proof fn lemma_ceil_of_small(x: Dec64)
    requires
        !x.is_nan_spec(),
        x.exponent_spec() <= -19,
    ensures
        x.at_most(x.ceil_spec()),
{
    let c = x.coefficient_spec();
    let e = x.exponent_spec();
    let g = x.ceil_spec();
    let ng = g.negation();
    x.lemma_parts_of_fields();
    if c == 0 {
        assert(x.difference(g) == Dec64::zero());
    } else if c < 0 {
        assert(ng == Dec64::zero());
        lemma_stretch_zero(0, e);
        assert(trunc_div(c, pow10(0)) == c);
        lemma_new_sign(c, e);
    } else {
        Dec64::lemma_parts_fields(1, 0);
        Dec64::lemma_parts_fields(-1, 0);
        assert(ng == Dec64::parts(-1, 0));
        lemma_unit_against_small(ng, x);
        let cut = pow10((-18 - e) as nat);
        crate::decimal::lemma_pow10_grows(0, (-18 - e) as nat);
        lemma_trunc_div_shrinks(c, cut);
        lemma_new_sign(-1000000000000000000 + trunc_div(c, cut), -18);
    }
    lemma_at_most_by_difference(x, g);
}

/// Whether `one` is a power of ten from 10 up to the greatest that a signed
/// 64-bit word holds.
pub open spec fn is_place(one: int) -> bool {
    one == 10 || one == 100 || one == 1000 || one == 10000 || one == 100000 || one == 1000000
        || one == 10000000 || one == 100000000 || one == 1000000000 || one == 10000000000
        || one == 100000000000 || one == 1000000000000 || one == 10000000000000 || one
        == 100000000000000 || one == 1000000000000000 || one == 10000000000000000 || one
        == 100000000000000000 || one == 1000000000000000000
}

/// The unit of a number of 1 to 18 decimal places is such a power.
pub proof fn lemma_place(e: int)
    requires
        -18 <= e <= -1,
    ensures
        is_place(pow10((-e) as nat)),
{
    crate::decimal::lemma_pow10_values();
    let k = (-e) as nat;
    assert(k == 1 || k == 2 || k == 3 || k == 4 || k == 5 || k == 6 || k == 7 || k == 8 || k == 9
        || k == 10 || k == 11 || k == 12 || k == 13 || k == 14 || k == 15 || k == 16 || k == 17
        || k == 18);
}

/// A number without its remainder by `one` is a multiple of every divisor
/// of `one`.
pub proof fn lemma_rounded_multiple(c: int, one: int, d: int)
    requires
        one > 0,
        d > 0,
        one % d == 0,
    ensures
        (c - c % one) % d == 0,
{
    let q = c / one;
    let t = one / d;
    vstd::arithmetic::div_mod::lemma_fundamental_div_mod(c, one);
    vstd::arithmetic::div_mod::lemma_fundamental_div_mod(one, d);
    assert(c - c % one == (t * q) * d) by (nonlinear_arith)
        requires
            c == one * q + c % one,
            one == d * t,
    ;
    vstd::arithmetic::div_mod::lemma_mod_multiples_basic(t * q, d);
}

/// No such power divides the least coefficient, and each is a multiple of
/// ten.
pub proof fn lemma_place_facts(one: int, c: int)
    requires
        is_place(one),
    ensures
        MIN_COEFFICIENT as int % one != 0,
        (c - c % one) % 10 == 0,
        one >= 100 ==> (c - c % one) % 100 == 0,
        0 <= c % one < one,
        c >= 0 ==> c % one <= c,
        (-c) % one == 0 <==> c % one == 0,
{
    crate::decimal::lemma_mod_negation(c, one);
    vstd::arithmetic::div_mod::lemma_mod_bound(c, one);
    lemma_rounded_multiple(c, one, 10);
    if one >= 100 {
        lemma_rounded_multiple(c, one, 100);
    }
    if c >= 0 {
        vstd::arithmetic::div_mod::lemma_mod_decreases(c as nat, one as nat);
    }
}

/// Rounding down a number of up to 18 decimal places gives a value that is
/// at most the number.
pub proof fn lemma_floor_of_fraction(x: Dec64)
    requires
        !x.is_nan_spec(),
        -18 <= x.exponent_spec() <= -1,
    ensures
        x.floor_spec().at_most(x),
{
    let c = x.coefficient_spec();
    let e = x.exponent_spec();
    let one = pow10((-e) as nat);
    let fc = c - c % one;
    let f = x.floor_spec();
    let nx = x.negation();
    lemma_place(e);
    lemma_place_facts(one, c);
    x.lemma_parts_of_fields();
    assert(f == Dec64::new_spec(fc, e));
    if fc == 0 {
        if c == 0 {
            assert(f.difference(x) == Dec64::parts(0, 0));
            Dec64::lemma_parts_fields(0, 0);
        } else {
            Dec64::lemma_parts_fields(-c, e);
            lemma_stretch_zero(0, e);
            assert(trunc_div(-c, pow10(0)) == -c);
            lemma_new_sign(-c, e);
        }
    } else if coefficient_fits(fc) {
        Dec64::lemma_parts_fields(fc, e);
        assert(c != MIN_COEFFICIENT);
        Dec64::lemma_parts_fields(-c, e);
        Dec64::lemma_parts_fields(fc - c, e);
        lemma_new_sign(fc - c, e);
    } else {
        lemma_floor_beyond(c, e, fc);
    }
    lemma_at_most_by_difference(f, x);
}

/// The sum of two numbers whose exponents are at most two apart, `high`
/// having the greater one and room for the powers of ten between: the
/// coefficient of `high` takes them up, and the sum of the coefficients is
/// made canonical.
pub proof fn lemma_sum_of_near(high: int, high_e: int, low: int, low_e: int)
    requires
        coefficient_fits(high),
        coefficient_fits(low),
        low != 0,
        exponent_fits(high_e),
        exponent_fits(low_e),
        1 <= high_e - low_e <= 2,
        crate::ops::word_fits(high * 100),
    ensures
        Dec64::parts(high, high_e).sum(Dec64::parts(low, low_e)) == Dec64::new_spec(
            high * pow10((high_e - low_e) as nat) + low,
            low_e,
        ),
        Dec64::parts(low, low_e).sum(Dec64::parts(high, high_e)) == Dec64::new_spec(
            high * pow10((high_e - low_e) as nat) + low,
            low_e,
        ),
{
    Dec64::lemma_parts_fields(high, high_e);
    Dec64::lemma_parts_fields(low, low_e);
    crate::decimal::lemma_pow10_values();
    assert(trunc_div(low, pow10(0)) == low);
    assert(stretch(high, high_e, low_e) == (high * pow10((high_e - low_e) as nat), low_e)) by {
        reveal_with_fuel(stretch, 3);
    }
}

/// A multiple of ten just too long for a coefficient comes out of the
/// constructor without the zeros at its end: the coefficient that comes out,
/// and how many zeros were cut, one or two.
pub proof fn lemma_cut_form(rc: int, e: int) -> (r: (int, int))
    requires
        -18 <= e <= -1,
        !coefficient_fits(rc),
        magnitude(rc) < 1000000000000000000 + 0x80_0000_0000_0000,
        rc % 10 == 0,
        !coefficient_fits(trunc_div(rc, 10)) ==> rc % 100 == 0,
    ensures
        coefficient_fits(r.0),
        r.0 != 0,
        (r.1 == 1 && rc == 10 * r.0) || (r.1 == 2 && rc == 100 * r.0),
        Dec64::new_spec(rc, e) == Dec64::parts(r.0, e + r.1),
{
    let q1 = trunc_div(rc, 10);
    assert(rc == 10 * q1);
    if coefficient_fits(q1) {
        assert(Dec64::new_spec(rc, e) == Dec64::parts(q1, e + 1));
        (q1, 1)
    } else {
        let q2 = trunc_div(q1, 10);
        assert(q1 == 10 * q2);
        assert(Dec64::shrink(rc, e) == Dec64::shrink(q1, e + 1));
        assert(Dec64::new_spec(rc, e) == Dec64::parts(q2, e + 2));
        (q2, 2)
    }
}

/// The same where the rounded coefficient `fc` passes the least one.
pub proof fn lemma_floor_beyond(c: int, e: int, fc: int)
    requires
        coefficient_fits(c),
        -18 <= e <= -1,
        c < 0,
        c - 1000000000000000000 < fc <= c,
        fc < MIN_COEFFICIENT,
        fc % 10 == 0,
        fc < 10 * MIN_COEFFICIENT ==> fc % 100 == 0,
    ensures
        Dec64::new_spec(fc, e).sum(Dec64::new_spec(-c, e)).coefficient_spec() <= 0,
{
    let (q, j) = lemma_cut_form(fc, e);
    lemma_floor_cut(c, e, fc, q, j);
}

/// The same, given that the rounded coefficient `fc` comes out of the
/// constructor as `q` with `j` digits fewer.
pub proof fn lemma_floor_cut(c: int, e: int, fc: int, q: int, j: int)
    requires
        coefficient_fits(c),
        -18 <= e <= -1,
        c < 0,
        c - 1000000000000000000 < fc <= c,
        fc < MIN_COEFFICIENT,
        coefficient_fits(q),
        (j == 1 && fc == 10 * q) || (j == 2 && fc == 100 * q),
        Dec64::new_spec(fc, e) == Dec64::parts(q, e + j),
    ensures
        Dec64::new_spec(fc, e).sum(Dec64::new_spec(-c, e)).coefficient_spec() <= 0,
{
    crate::decimal::lemma_pow10_values();
    if c == MIN_COEFFICIENT {
        let n = 3602879701896397int;
        assert(Dec64::new_spec(-c, e) == Dec64::parts(n, e + 1)) by {
            reveal_with_fuel(Dec64::shrink, 2);
        }
        if j == 1 {
            Dec64::lemma_parts_fields(q, e + 1);
            Dec64::lemma_parts_fields(n, e + 1);
            Dec64::lemma_parts_fields(q + n, e + 1);
            lemma_new_sign(q + n, e + 1);
        } else {
            lemma_sum_of_near(q, e + 2, n, e + 1);
            lemma_new_sign(q * 10 + n, e + 1);
        }
    } else {
        assert(Dec64::new_spec(-c, e) == Dec64::parts(-c, e));
        lemma_sum_of_near(q, e + j, -c, e);
        lemma_new_sign(fc - c, e);
    }
}

/// Rounding up a number of up to 18 decimal places gives a value that is at
/// least the number.
pub proof fn lemma_ceil_of_fraction(x: Dec64)
    requires
        !x.is_nan_spec(),
        -18 <= x.exponent_spec() <= -1,
    ensures
        x.at_most(x.ceil_spec()),
{
    let c = x.coefficient_spec();
    let e = x.exponent_spec();
    let one = pow10((-e) as nat);
    let gc = c + (-c) % one;
    let g = x.ceil_spec();
    lemma_place(e);
    lemma_place_facts(one, c);
    lemma_place_facts(one, -c);
    x.lemma_parts_of_fields();
    assert(g == Dec64::new_spec(gc, e));
    if gc == 0 {
        assert(g.negation() == Dec64::zero());
        if c != 0 {
            lemma_stretch_zero(0, e);
            assert(trunc_div(c, pow10(0)) == c);
            lemma_new_sign(c, e);
        }
    } else if coefficient_fits(gc) {
        Dec64::lemma_parts_fields(gc, e);
        assert(gc != MIN_COEFFICIENT);
        Dec64::lemma_parts_fields(-gc, e);
        Dec64::lemma_parts_fields(c - gc, e);
        lemma_new_sign(c - gc, e);
    } else {
        assert(gc == -((-c) - (-c) % one));
        lemma_ceil_beyond(c, e, gc);
    }
    lemma_at_most_by_difference(x, g);
}

/// The same where the rounded coefficient `gc` passes the greatest one.
pub proof fn lemma_ceil_beyond(c: int, e: int, gc: int)
    requires
        coefficient_fits(c),
        -18 <= e <= -1,
        c > 0,
        c <= gc < c + 1000000000000000000,
        gc > MAX_COEFFICIENT,
        gc % 10 == 0,
        gc > 10 * MAX_COEFFICIENT ==> gc % 100 == 0,
    ensures
        Dec64::parts(c, e).sum(Dec64::new_spec(gc, e).negation()).coefficient_spec() <= 0,
{
    let (q, j) = lemma_cut_form(gc, e);
    lemma_ceil_cut(c, e, gc, q, j);
}

/// The same, given that the rounded coefficient `gc` comes out of the
/// constructor as `q` with `j` digits fewer.
pub proof fn lemma_ceil_cut(c: int, e: int, gc: int, q: int, j: int)
    requires
        coefficient_fits(c),
        -18 <= e <= -1,
        c > 0,
        c <= gc < c + 1000000000000000000,
        coefficient_fits(q),
        q > 0,
        (j == 1 && gc == 10 * q) || (j == 2 && gc == 100 * q),
        Dec64::new_spec(gc, e) == Dec64::parts(q, e + j),
    ensures
        Dec64::parts(c, e).sum(Dec64::new_spec(gc, e).negation()).coefficient_spec() <= 0,
{
    crate::decimal::lemma_pow10_values();
    Dec64::lemma_parts_fields(q, e + j);
    assert(Dec64::parts(q, e + j).negation() == Dec64::parts(-q, e + j));
    lemma_sum_of_near(-q, e + j, c, e);
    lemma_new_sign(c - gc, e);
}

/// A number is a multiple of `p` when its product with `b` is a multiple of
/// the product of `p` with `b`.
pub proof fn lemma_cancel_factor(q: int, b: int, p: int)
    requires
        b > 0,
        p > 0,
        (b * q) % (b * p) == 0,
    ensures
        q % p == 0,
{
    vstd::arithmetic::mul::lemma_mul_strictly_positive(b, p);
    if q >= 0 {
        vstd::arithmetic::div_mod::lemma_truncate_middle(q, b, p);
        assert(q % p == 0) by (nonlinear_arith)
            requires
                b * (q % p) == 0,
                b > 0,
        ;
    } else {
        crate::decimal::lemma_mod_negation(b * q, b * p);
        assert(-(b * q) == b * (-q)) by (nonlinear_arith);
        vstd::arithmetic::div_mod::lemma_truncate_middle(-q, b, p);
        assert((-q) % p == 0) by (nonlinear_arith)
            requires
                b * ((-q) % p) == 0,
                b > 0,
        ;
        crate::decimal::lemma_mod_negation(-q, p);
    }
}

/// The canonical value of a multiple of the unit of its decimal places is an
/// integer.
pub proof fn lemma_multiple_is_integer(rc: int, e: int)
    requires
        -18 <= e <= -1,
        rc % pow10((-e) as nat) == 0,
        magnitude(rc) < pow10((-e) as nat) + 0x80_0000_0000_0000,
    ensures
        Dec64::new_spec(rc, e).is_integer_spec(),
{
    let one = pow10((-e) as nat);
    lemma_place(e);
    crate::decimal::lemma_pow10_values();
    if rc == 0 {
    } else if coefficient_fits(rc) {
        Dec64::lemma_parts_fields(rc, e);
    } else {
        lemma_rounded_multiple(rc, one, 10);
        if one >= 100 {
            lemma_rounded_multiple(rc, one, 100);
        }
        let (q, j) = lemma_cut_form(rc, e);
        Dec64::lemma_parts_fields(q, e + j);
        if e + j < 0 {
            let p = pow10((-(e + j)) as nat);
            lemma_pow10_grows(0, (-(e + j)) as nat);
            if j == 1 {
                assert(one == 10 * p);
                lemma_cancel_factor(q, 10, p);
            } else {
                assert(pow10((-(e + 1)) as nat) == 10 * p);
                assert(one == 100 * p);
                lemma_cancel_factor(q, 100, p);
            }
        }
    }
}

} // verus!
