//! Integer arithmetic that the decimal operations are stated over: division
//! that rounds toward zero, the rounding rule, and powers of ten.

use vstd::prelude::*;

verus! {

/// The quotient of `a` by `b`, rounded toward zero (`b` is not zero).
pub open spec fn trunc_div(a: int, b: int) -> int {
    if a >= 0 {
        if b > 0 {
            a / b
        } else {
            -(a / (-b))
        }
    } else {
        if b > 0 {
            -((-a) / b)
        } else {
            (-a) / (-b)
        }
    }
}

/// What is left of `a` after `trunc_div(a, b)`: it has the sign of `a`.
pub open spec fn trunc_rem(a: int, b: int) -> int {
    a - b * trunc_div(a, b)
}

/// The magnitude of `a`.
pub open spec fn magnitude(a: int) -> int {
    if a < 0 {
        -a
    } else {
        a
    }
}

/// -1, 0 or 1 as `a` is negative, zero or positive.
pub open spec fn signum(a: int) -> int {
    if a < 0 {
        -1int
    } else if a > 0 {
        1int
    } else {
        0int
    }
}

/// The step away from zero that a discarded digit `r` (with the sign of the
/// number it was cut from) asks for: one unit when its magnitude is 5 or more.
pub open spec fn round_step(r: int) -> int {
    if r <= -5 {
        -1int
    } else if r >= 5 {
        1int
    } else {
        0int
    }
}

/// Division that rounds toward zero is division of the magnitudes: the
/// quotient and the remainder of the magnitudes are the magnitudes of the
/// quotient and the remainder.
pub proof fn lemma_trunc_div_magnitudes(a: int, b: int)
    requires
        b != 0,
    ensures
        magnitude(trunc_div(a, b)) == magnitude(a) / magnitude(b),
        magnitude(trunc_rem(a, b)) == magnitude(a) % magnitude(b),
        magnitude(a) == magnitude(b) * magnitude(trunc_div(a, b)) + magnitude(trunc_rem(a, b)),
        magnitude(trunc_rem(a, b)) < magnitude(b),
        trunc_rem(a, b) != 0 ==> signum(trunc_rem(a, b)) == signum(a),
        trunc_div(a, b) != 0 ==> signum(trunc_div(a, b)) == signum(a) * signum(b),
{
    let ma = magnitude(a);
    let mb = magnitude(b);
    vstd::arithmetic::div_mod::lemma_fundamental_div_mod(ma, mb);
    vstd::arithmetic::div_mod::lemma_mod_pos_bound(ma, mb);
    vstd::arithmetic::div_mod::lemma_div_pos_is_pos(ma, mb);
    let q = ma / mb;
    let r = ma % mb;
    assert(ma == mb * q + r);
    assert(magnitude(trunc_div(a, b)) == q);
    if (a >= 0) == (b > 0) {
        assert(trunc_div(a, b) == q);
        assert(b * q == signum(b) * (mb * q)) by (nonlinear_arith)
            requires
                b == signum(b) * mb,
                signum(b) == 1 || signum(b) == -1,
        ;
    } else {
        assert(trunc_div(a, b) == -q);
        assert(b * (-q) == -signum(b) * (mb * q)) by (nonlinear_arith)
            requires
                b == signum(b) * mb,
                signum(b) == 1 || signum(b) == -1,
        ;
    }
    assert(trunc_rem(a, b) == r || trunc_rem(a, b) == -r);
}

/// Dividing by a positive number, rounding toward zero, brings a number
/// toward zero and never across it.
pub proof fn lemma_trunc_div_shrinks(a: int, b: int)
    requires
        b > 0,
    ensures
        a >= 0 ==> 0 <= trunc_div(a, b) <= a,
        a <= 0 ==> a <= trunc_div(a, b) <= 0,
{
    vstd::arithmetic::div_mod::lemma_div_basics_5(magnitude(a), b);
    vstd::arithmetic::div_mod::lemma_div_basics_4(magnitude(a), b);
}

/// Dividing twice, rounding toward zero each time, is dividing by the
/// product.
pub proof fn lemma_trunc_div_twice(a: int, b: int, c: int)
    requires
        b > 0,
        c > 0,
    ensures
        b * c > 0,
        trunc_div(trunc_div(a, b), c) == trunc_div(a, b * c),
{
    vstd::arithmetic::div_mod::lemma_div_denominator(magnitude(a), b, c);
    vstd::arithmetic::mul::lemma_mul_strictly_positive(b, c);
    lemma_trunc_div_shrinks(a, b);
}

/// Ten to the power `n`.
pub open spec fn pow10(n: nat) -> int
    decreases n,
{
    if n == 0 {
        1int
    } else {
        10 * pow10((n - 1) as nat)
    }
}

/// Powers of ten are positive and grow with the exponent.
pub proof fn lemma_pow10_grows(n: nat, m: nat)
    requires
        n <= m,
    ensures
        1 <= pow10(n) <= pow10(m),
    decreases m,
{
    if m == 0 {
    } else if n == m {
        lemma_pow10_grows((n - 1) as nat, (m - 1) as nat);
    } else {
        lemma_pow10_grows(n, (m - 1) as nat);
    }
}

/// The powers of ten that fit a signed 64-bit word, by value.
pub proof fn lemma_pow10_values()
    ensures
        pow10(0) == 1,
        pow10(1) == 10,
        pow10(2) == 100,
        pow10(3) == 1000,
        pow10(4) == 10000,
        pow10(5) == 100000,
        pow10(6) == 1000000,
        pow10(7) == 10000000,
        pow10(8) == 100000000,
        pow10(9) == 1000000000,
        pow10(10) == 10000000000,
        pow10(11) == 100000000000,
        pow10(12) == 1000000000000,
        pow10(13) == 10000000000000,
        pow10(14) == 100000000000000,
        pow10(15) == 1000000000000000,
        pow10(16) == 10000000000000000,
        pow10(17) == 100000000000000000,
        pow10(18) == 1000000000000000000,
        pow10(19) == 10000000000000000000,
{
    reveal_with_fuel(pow10, 20);
}

/// Ten to the power `n`, for the powers that fit a signed 64-bit word.
pub(crate) fn power_of_ten(n: u32) -> (p: i64)
    requires
        n <= 18,
    ensures
        p == pow10(n as nat),
        1 <= p <= 1000000000000000000,
{
    let mut p: i64 = 1;
    let mut i: u32 = 0;
    while i < n
        invariant
            i <= n <= 18,
            p == pow10(i as nat),
        decreases n - i,
    {
        proof {
            lemma_pow10_values();
            lemma_pow10_grows((i + 1) as nat, 18);
        }
        p = p * 10;
        i = i + 1;
    }
    proof {
        lemma_pow10_values();
        lemma_pow10_grows(n as nat, 18);
    }
    p
}

/// The remainder of a negated number: nothing when the number is a multiple
/// of `s`, else what the remainder of the number lacks to `s`.
pub proof fn lemma_mod_negation(x: int, s: int)
    requires
        s > 0,
    ensures
        (-x) % s == (if x % s == 0 {
            0
        } else {
            s - x % s
        }),
{
    vstd::arithmetic::div_mod::lemma_fundamental_div_mod(x, s);
    vstd::arithmetic::div_mod::lemma_mod_bound(x, s);
    let q = x / s;
    let r = x % s;
    if r == 0 {
        assert(-x == (-q) * s + 0) by (nonlinear_arith)
            requires
                x == s * q,
        ;
        vstd::arithmetic::div_mod::lemma_fundamental_div_mod_converse(-x, s, -q, 0);
    } else {
        assert(-x == (-q - 1) * s + (s - r)) by (nonlinear_arith)
            requires
                x == s * q + r,
        ;
        vstd::arithmetic::div_mod::lemma_fundamental_div_mod_converse(-x, s, -q - 1, s - r);
    }
}

} // verus!
