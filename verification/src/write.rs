//! The decimal text of a value: plain digits with a point where they are
//! few, scientific notation where they are many.

use vstd::prelude::*;
use vstd::string::StringExecFns;
use crate::decimal::magnitude;
use crate::Dec64;

verus! {

/// The character of the decimal digit `d`.
pub open spec fn digit(d: int) -> char {
    if d == 0 {
        '0'
    } else if d == 1 {
        '1'
    } else if d == 2 {
        '2'
    } else if d == 3 {
        '3'
    } else if d == 4 {
        '4'
    } else if d == 5 {
        '5'
    } else if d == 6 {
        '6'
    } else if d == 7 {
        '7'
    } else if d == 8 {
        '8'
    } else {
        '9'
    }
}

/// Whether `c` is one of the ten digit characters.
pub open spec fn is_digit(c: char) -> bool {
    c == '0' || c == '1' || c == '2' || c == '3' || c == '4' || c == '5' || c == '6' || c == '7'
        || c == '8' || c == '9'
}

/// The decimal digits of `n`, the first one not 0 unless `n` is 0.
pub open spec fn numeral(n: nat) -> Seq<char>
    decreases n,
{
    if n < 10 {
        seq![digit(n as int)]
    } else {
        numeral(n / 10).push(digit((n % 10) as int))
    }
}

/// `n` times the digit 0.
pub open spec fn zeros(n: nat) -> Seq<char> {
    Seq::new(n, |i: int| '0')
}

/// How many times the digit 0 stands at the end of `d`.
pub open spec fn trailing_zeros(d: Seq<char>) -> nat
    decreases d.len(),
{
    if d.len() > 0 && d.last() == '0' {
        1 + trailing_zeros(d.drop_last())
    } else {
        0
    }
}

/// The exponent part of scientific notation: nothing for 0, else the letter
/// `e`, a minus sign for a negative exponent, and the digits.
pub open spec fn exponent_text(x: int) -> Seq<char> {
    if x == 0 {
        Seq::empty()
    } else if x < 0 {
        seq!['e', '-'] + numeral((-x) as nat)
    } else {
        seq!['e'] + numeral(x as nat)
    }
}

/// Scientific notation of the digits `s` at the exponent `x` of the first of
/// them: the first digit, a point and the others if there are any, and the
/// exponent part.
pub open spec fn scientific(s: Seq<char>, x: int) -> Seq<char> {
    if s.len() > 1 {
        seq![s[0], '.'] + s.skip(1) + exponent_text(x)
    } else {
        s + exponent_text(x)
    }
}

/// The text of the number with the digits `d` and the exponent `e`. With
/// `s` for the digits without the zeros at their end:
/// - `e` is 0 or more: the digits and `e` zeros, or scientific notation when
///   these are more than 20;
/// - the point falls before the digits: `0.`, the zeros between the point
///   and the digits, and `s`, or scientific notation when more than 18 places
///   follow the point;
/// - the point falls among the digits: the digits before it, the point, and
///   what `s` has after it.
pub open spec fn number_text(d: Seq<char>, e: int) -> Seq<char> {
    let n = d.len() as int;
    let s = d.take(n - trailing_zeros(d));
    let point = n + e;
    if e >= 0 {
        if point > 20 {
            scientific(s, point - 1)
        } else {
            d + zeros(e as nat)
        }
    } else if point <= 0 {
        if s.len() - point > 18 {
            scientific(s, point - 1)
        } else {
            seq!['0', '.'] + zeros((-point) as nat) + s
        }
    } else {
        d.take(point) + seq!['.'] + (if s.len() > point {
            s.skip(point)
        } else {
            Seq::empty()
        })
    }
}

impl Dec64 {
    /// The text of the value: `0` for every zero, `nan` for every NaN, else
    /// a minus sign for a negative number and the text of its magnitude.
    pub open spec fn text(self) -> Seq<char> {
        if self.is_zero_spec() {
            seq!['0']
        } else if self.is_nan_spec() {
            seq!['n', 'a', 'n']
        } else if self.coefficient_spec() < 0 {
            seq!['-'] + number_text(
                numeral(magnitude(self.coefficient_spec()) as nat),
                self.exponent_spec(),
            )
        } else {
            number_text(numeral(self.coefficient_spec() as nat), self.exponent_spec())
        }
    }
}

/// The digits of a number are digit characters, and at least one.
pub proof fn lemma_numeral_digits(n: nat)
    ensures
        numeral(n).len() >= 1,
        forall|i: int| 0 <= i < numeral(n).len() ==> is_digit(#[trigger] numeral(n)[i]),
        n > 0 ==> numeral(n)[0] != '0',
    decreases n,
{
    if n >= 10 {
        lemma_numeral_digits(n / 10);
    }
}

/// A number below ten to the `k` has at most `k` digits.
pub proof fn lemma_numeral_length(n: nat, k: nat)
    requires
        k >= 1,
        n < crate::decimal::pow10(k),
    ensures
        numeral(n).len() <= k,
    decreases k,
{
    if n >= 10 {
        assert(k >= 2) by {
            crate::decimal::lemma_pow10_values();
        }
        lemma_numeral_length(n / 10, (k - 1) as nat);
    }
}

/// Digits that do not end in 0 everywhere have fewer zeros at the end than
/// digits.
pub proof fn lemma_trailing_zeros_bound(d: Seq<char>)
    requires
        d.len() > 0,
        d[0] != '0',
    ensures
        trailing_zeros(d) < d.len(),
        forall|i: int| d.len() - trailing_zeros(d) <= i < d.len() ==> d[i] == '0',
        d[d.len() - trailing_zeros(d) - 1] != '0',
    decreases d.len(),
{
    if d.last() == '0' {
        assert(d.len() > 1);
        let rest = d.drop_last();
        assert(rest[0] == d[0]);
        lemma_trailing_zeros_bound(rest);
        assert forall|i: int| d.len() - trailing_zeros(d) <= i < d.len() implies d[i] == '0' by {
            if i < rest.len() {
                assert(rest[i] == d[i]);
            }
        }
        assert(rest[rest.len() - trailing_zeros(rest) - 1] == d[d.len() - trailing_zeros(d) - 1]);
    }
}

/// The character of a digit.
fn digit_of(d: u64) -> (c: char)
    requires
        d < 10,
    ensures
        c == digit(d as int),
        is_digit(c),
{
    if d == 0 {
        '0'
    } else if d == 1 {
        '1'
    } else if d == 2 {
        '2'
    } else if d == 3 {
        '3'
    } else if d == 4 {
        '4'
    } else if d == 5 {
        '5'
    } else if d == 6 {
        '6'
    } else if d == 7 {
        '7'
    } else if d == 8 {
        '8'
    } else {
        '9'
    }
}

/// The one-character text of a digit character.
fn digit_text(c: char) -> (s: &'static str)
    requires
        is_digit(c),
    ensures
        s@ == seq![c],
{
    proof {
        reveal_strlit("0");
        reveal_strlit("1");
        reveal_strlit("2");
        reveal_strlit("3");
        reveal_strlit("4");
        reveal_strlit("5");
        reveal_strlit("6");
        reveal_strlit("7");
        reveal_strlit("8");
        reveal_strlit("9");
    }
    let s: &'static str = if c == '0' {
        "0"
    } else if c == '1' {
        "1"
    } else if c == '2' {
        "2"
    } else if c == '3' {
        "3"
    } else if c == '4' {
        "4"
    } else if c == '5' {
        "5"
    } else if c == '6' {
        "6"
    } else if c == '7' {
        "7"
    } else if c == '8' {
        "8"
    } else {
        "9"
    };
    assert(s@ =~= seq![c]);
    s
}

/// The decimal digits of `m`.
fn numeral_of(m: u64) -> (d: Vec<char>)
    ensures
        d@ == numeral(m as nat),
{
    let mut d: Vec<char> = Vec::new();
    d.push(digit_of(m % 10));
    let mut x: u64 = m / 10;
    assert(numeral(m as nat) =~= (if x > 0 {
        numeral(x as nat)
    } else {
        Seq::empty()
    }) + d@);
    while x > 0
        invariant
            numeral(m as nat) == (if x > 0 {
                numeral(x as nat)
            } else {
                Seq::empty()
            }) + d@,
        decreases x,
    {
        let ghost before = d@;
        let c: char = digit_of(x % 10);
        d.insert(0, c);
        assert(d@ =~= seq![c] + before);
        let ghost y = x;
        x = x / 10;
        assert(numeral(y as nat) + before =~= (if x > 0 {
            numeral(x as nat)
        } else {
            Seq::empty()
        }) + d@);
    }
    assert(d@ =~= Seq::<char>::empty() + d@);
    d
}

/// Appends the digits of `d` from index `from` up to `to`.
fn write_digits(wr: &mut String, d: &Vec<char>, from: usize, to: usize)
    requires
        from <= to <= d.len(),
        forall|i: int| 0 <= i < d.len() ==> is_digit(#[trigger] d[i]),
    ensures
        final(wr)@ == old(wr)@ + d@.subrange(from as int, to as int),
{
    let mut i: usize = from;
    assert(wr@ =~= old(wr)@ + d@.subrange(from as int, i as int));
    while i < to
        invariant
            from <= i <= to <= d.len(),
            forall|i: int| 0 <= i < d.len() ==> is_digit(#[trigger] d[i]),
            wr@ == old(wr)@ + d@.subrange(from as int, i as int),
        decreases to - i,
    {
        wr.append(digit_text(d[i]));
        i = i + 1;
        assert(wr@ =~= old(wr)@ + d@.subrange(from as int, i as int)) by {
            assert(d@.subrange(from as int, i as int) =~= d@.subrange(from as int, i - 1).push(
                d@[i - 1],
            ));
        }
    }
}

/// Appends `n` times the digit 0.
fn write_zeros(wr: &mut String, n: usize)
    ensures
        final(wr)@ == old(wr)@ + zeros(n as nat),
{
    let mut i: usize = 0;
    assert(wr@ =~= old(wr)@ + zeros(0));
    while i < n
        invariant
            i <= n,
            wr@ == old(wr)@ + zeros(i as nat),
        decreases n - i,
    {
        proof {
            reveal_strlit("0");
        }
        wr.append("0");
        i = i + 1;
        assert(wr@ =~= old(wr)@ + zeros(i as nat));
    }
}

/// Appends the exponent part of scientific notation.
fn write_exponent(wr: &mut String, x: i32)
    requires
        -1000 <= x <= 1000,
    ensures
        final(wr)@ == old(wr)@ + exponent_text(x as int),
{
    if x == 0 {
        assert(wr@ =~= old(wr)@ + exponent_text(x as int));
        return ;
    }
    proof {
        reveal_strlit("e");
        reveal_strlit("-");
    }
    wr.append("e");
    let m: u64 = if x < 0 {
        wr.append("-");
        (-x) as u64
    } else {
        x as u64
    };
    let d: Vec<char> = numeral_of(m);
    proof {
        lemma_numeral_digits(m as nat);
    }
    write_digits(wr, &d, 0, d.len());
    assert(d@.subrange(0, d.len() as int) =~= d@);
    assert(wr@ =~= old(wr)@ + exponent_text(x as int));
}

/// Appends scientific notation of the first `count` digits of `d`.
fn write_scientific(wr: &mut String, d: &Vec<char>, count: usize, x: i32)
    requires
        1 <= count <= d.len(),
        forall|i: int| 0 <= i < d.len() ==> is_digit(#[trigger] d[i]),
        -1000 <= x <= 1000,
    ensures
        final(wr)@ == old(wr)@ + scientific(d@.take(count as int), x as int),
{
    let ghost s = d@.take(count as int);
    write_digits(wr, d, 0, 1);
    if 1 < count {
        proof {
            reveal_strlit(".");
        }
        wr.append(".");
        write_digits(wr, d, 1, count);
        assert(wr@ =~= old(wr)@ + (seq![s[0], '.'] + s.skip(1))) by {
            assert(d@.subrange(0, 1) =~= seq![s[0]]);
            assert(d@.subrange(1, count as int) =~= s.skip(1));
        }
    } else {
        assert(d@.subrange(0, 1) =~= s);
    }
    write_exponent(wr, x);
    assert(wr@ =~= old(wr)@ + scientific(s, x as int));
}

/// How many digits of `d` are left without the zeros at its end.
fn significant_count(d: &Vec<char>) -> (count: usize)
    requires
        d.len() > 0,
        d[0] != '0',
    ensures
        count == d.len() - trailing_zeros(d@),
        1 <= count <= d.len(),
{
    proof {
        lemma_trailing_zeros_bound(d@);
    }
    let n: usize = d.len();
    let mut z: usize = 0;
    while z < n && d[n - 1 - z] == '0'
        invariant
            n == d.len(),
            z <= trailing_zeros(d@) < n,
            forall|i: int| n - trailing_zeros(d@) <= i < n ==> d@[i] == '0',
            d@[n - trailing_zeros(d@) - 1] != '0',
        decreases n - z,
    {
        z = z + 1;
    }
    n - z
}

/// Appends a number without digits after the point.
fn write_whole(wr: &mut String, d: &Vec<char>, count: usize, e: i32)
    requires
        count == d.len() - trailing_zeros(d@),
        1 <= count <= d.len() <= 17,
        forall|i: int| 0 <= i < d.len() ==> is_digit(#[trigger] d[i]),
        0 <= e <= 127,
    ensures
        final(wr)@ == old(wr)@ + number_text(d@, e as int),
{
    let n: usize = d.len();
    let point: i32 = n as i32 + e;
    if point > 20 {
        write_scientific(wr, d, count, point - 1);
    } else {
        write_digits(wr, d, 0, n);
        write_zeros(wr, e as usize);
        assert(d@.subrange(0, n as int) =~= d@);
        assert(wr@ =~= old(wr)@ + (d@ + zeros(e as nat)));
    }
}

/// Appends a number whose digits all stand after the point.
fn write_fraction(wr: &mut String, d: &Vec<char>, count: usize, e: i32)
    requires
        count == d.len() - trailing_zeros(d@),
        1 <= count <= d.len() <= 17,
        forall|i: int| 0 <= i < d.len() ==> is_digit(#[trigger] d[i]),
        -127 <= e < 0,
        d.len() + e <= 0,
    ensures
        final(wr)@ == old(wr)@ + number_text(d@, e as int),
{
    let n: usize = d.len();
    let point: i32 = n as i32 + e;
    if count as i32 - point > 18 {
        write_scientific(wr, d, count, point - 1);
    } else {
        proof {
            reveal_strlit("0.");
        }
        wr.append("0.");
        assert(wr@ =~= old(wr)@ + seq!['0', '.']);
        write_zeros(wr, (-point) as usize);
        write_digits(wr, d, 0, count);
        assert(d@.subrange(0, count as int) =~= d@.take(count as int));
        assert(wr@ =~= old(wr)@ + (seq!['0', '.'] + zeros((-point) as nat) + d@.take(
            count as int,
        )));
    }
}

/// Appends a number with digits on both sides of the point.
fn write_mixed(wr: &mut String, d: &Vec<char>, count: usize, e: i32)
    requires
        count == d.len() - trailing_zeros(d@),
        1 <= count <= d.len() <= 17,
        forall|i: int| 0 <= i < d.len() ==> is_digit(#[trigger] d[i]),
        -127 <= e < 0,
        d.len() + e > 0,
    ensures
        final(wr)@ == old(wr)@ + number_text(d@, e as int),
{
    let n: usize = d.len();
    let point: usize = (n as i32 + e) as usize;
    proof {
        reveal_strlit(".");
    }
    write_digits(wr, d, 0, point);
    wr.append(".");
    assert(d@.subrange(0, point as int) =~= d@.take(point as int));
    assert(wr@ =~= old(wr)@ + (d@.take(point as int) + seq!['.']));
    if count > point {
        write_digits(wr, d, point, count);
        assert(d@.subrange(point as int, count as int) =~= d@.take(count as int).skip(
            point as int,
        ));
        assert(wr@ =~= old(wr)@ + (d@.take(point as int) + seq!['.'] + d@.take(
            count as int,
        ).skip(point as int)));
    } else {
        assert(wr@ =~= old(wr)@ + (d@.take(point as int) + seq!['.'] + Seq::<char>::empty()));
    }
}

/// Appends the text of the number with the magnitude `m` of its coefficient
/// and the exponent `e`.
fn write_number(wr: &mut String, m: u64, e: i32)
    requires
        0 < m <= 0x80_0000_0000_0000,
        -127 <= e <= 127,
    ensures
        final(wr)@ == old(wr)@ + number_text(numeral(m as nat), e as int),
{
    let d: Vec<char> = numeral_of(m);
    proof {
        lemma_numeral_digits(m as nat);
        crate::decimal::lemma_pow10_values();
        lemma_numeral_length(m as nat, 17);
    }
    let count: usize = significant_count(&d);
    if e >= 0 {
        write_whole(wr, &d, count, e);
    } else if d.len() as i32 + e <= 0 {
        write_fraction(wr, &d, count, e);
    } else {
        write_mixed(wr, &d, count, e);
    }
}

impl Dec64 {
    /// Appends the text of the value to `wr`.
    pub fn write(self, wr: &mut String)
        ensures
            final(wr)@ == old(wr)@ + self.text(),
    {
        if self.is_zero() {
            proof {
                reveal_strlit("0");
            }
            wr.append("0");
            assert(wr@ =~= old(wr)@ + self.text());
            return ;
        }
        if self.is_nan() {
            proof {
                reveal_strlit("nan");
            }
            wr.append("nan");
            assert(wr@ =~= old(wr)@ + self.text());
            return ;
        }
        let c: i64 = self.coefficient();
        let e: i32 = self.exponent() as i32;
        if c < 0 {
            proof {
                reveal_strlit("-");
            }
            wr.append("-");
            write_number(wr, (-c) as u64, e);
            assert(wr@ =~= old(wr)@ + (seq!['-'] + number_text(
                numeral(magnitude(c as int) as nat),
                e as int,
            )));
        } else {
            write_number(wr, c as u64, e);
        }
    }

    /// The text of the value.
    pub fn to_string(self) -> (s: String)
        ensures
            s@ == self.text(),
    {
        let mut s: String = String::new();
        self.write(&mut s);
        assert(s@ =~= self.text());
        s
    }
}

} // verus!
