//! Base-10 digit strings of unsigned integers: the spec-level digit string of
//! a number, the executable conversion that produces it, and the lemmas that
//! relate a digit string back to the number it denotes.

use vstd::prelude::*;

verus! {

/// The decimal digit character for `d`, for `0 <= d < 10`.
pub open spec fn digit_char(d: int) -> char {
    if d == 0 {
        '0'
    } else if d == 1 {
        '1'
    } else if d == 2 {
        '2'
    } else if d == 3 {
        '3'
    } else if d == 4 {
        '4'
    } else if d == 5 {
        '5'
    } else if d == 6 {
        '6'
    } else if d == 7 {
        '7'
    } else if d == 8 {
        '8'
    } else {
        '9'
    }
}

/// The numeric value of a decimal digit character; `-1` for any other character.
pub open spec fn digit_val(c: char) -> int {
    if c == '0' {
        0
    } else if c == '1' {
        1
    } else if c == '2' {
        2
    } else if c == '3' {
        3
    } else if c == '4' {
        4
    } else if c == '5' {
        5
    } else if c == '6' {
        6
    } else if c == '7' {
        7
    } else if c == '8' {
        8
    } else if c == '9' {
        9
    } else {
        -1
    }
}

/// Whether `c` is a decimal digit character.
pub open spec fn is_digit(c: char) -> bool {
    digit_val(c) >= 0
}

/// The base-10 digit string of `n`, most significant digit first, with no
/// sign and no leading zeros (a lone `'0'` for `n == 0`).
pub open spec fn udigits(n: nat) -> Seq<char>
    decreases n,
{
    if n < 10 {
        seq![digit_char(n as int)]
    } else {
        udigits(n / 10) + seq![digit_char((n % 10) as int)]
    }
}

/// The number denoted by a string of decimal digit characters, most
/// significant digit first.
pub open spec fn digits_value(s: Seq<char>) -> int
    decreases s.len(),
{
    if s.len() == 0 {
        0
    } else {
        digits_value(s.drop_last()) * 10 + digit_val(s.last())
    }
}

/// A digit string is never empty.
pub proof fn lemma_udigits_len(n: nat)
    ensures
        udigits(n).len() >= 1,
    decreases n,
{
    if n >= 10 {
        lemma_udigits_len(n / 10);
    }
}

/// Every character of a digit string is a decimal digit.
pub proof fn lemma_udigits_are_digits(n: nat)
    ensures
        forall|i: int| 0 <= i < udigits(n).len() ==> is_digit(#[trigger] udigits(n)[i]),
    decreases n,
{
    if n < 10 {
        assert(udigits(n)[0] == digit_char(n as int));
    } else {
        lemma_udigits_are_digits(n / 10);
        let a = udigits(n / 10);
        let b = seq![digit_char((n % 10) as int)];
        assert forall|i: int| 0 <= i < udigits(n).len() implies is_digit(
            #[trigger] udigits(n)[i],
        ) by {
            if i < a.len() {
                assert(udigits(n)[i] == a[i]);
            } else {
                assert(udigits(n)[i] == b[0]);
            }
        }
    }
}

/// Reading the digit string of `n` back as a number yields `n`.
pub proof fn lemma_digits_value_udigits(n: nat)
    ensures
        digits_value(udigits(n)) == n,
    decreases n,
{
    if n < 10 {
        let s = udigits(n);
        assert(s.len() == 1);
        assert(s.last() == digit_char(n as int));
        assert(s.drop_last() =~= Seq::<char>::empty());
        assert(digits_value(Seq::<char>::empty()) == 0);
        assert(digits_value(s) == digit_val(digit_char(n as int)));
    } else {
        lemma_digits_value_udigits(n / 10);
        let s = udigits(n);
        assert(s.drop_last() =~= udigits(n / 10));
        assert(s.last() == digit_char((n % 10) as int));
        assert(digits_value(s) == (n / 10) * 10 + (n % 10));
        assert(n == (n / 10) * 10 + (n % 10)) by {
            vstd::arithmetic::div_mod::lemma_fundamental_div_mod(n as int, 10);
        }
    }
}

/// Prepending a zero character to a digit string does not change its value.
pub proof fn lemma_digits_value_prepend_zero(s: Seq<char>)
    ensures
        digits_value(seq!['0'] + s) == digits_value(s),
    decreases s.len(),
{
    let z = seq!['0'] + s;
    if s.len() == 0 {
        assert(z =~= seq!['0']);
        assert(z.len() == 1);
        assert(z.last() == '0');
        assert(z.drop_last() =~= Seq::<char>::empty());
        assert(digits_value(Seq::<char>::empty()) == 0);
        assert(digits_value(z) == digits_value(z.drop_last()) * 10 + digit_val(z.last()));
    } else {
        lemma_digits_value_prepend_zero(s.drop_last());
        assert(z.drop_last() =~= seq!['0'] + s.drop_last());
        assert(z.last() == s.last());
        assert(digits_value(z) == digits_value(z.drop_last()) * 10 + digit_val(z.last()));
        assert(digits_value(s) == digits_value(s.drop_last()) * 10 + digit_val(s.last()));
    }
}

/// The decimal digit character for `d`, executable form.
fn digit_to_char(d: u128) -> (c: char)
    requires
        d < 10,
    ensures
        c == digit_char(d as int),
{
    match d {
        0 => '0',
        1 => '1',
        2 => '2',
        3 => '3',
        4 => '4',
        5 => '5',
        6 => '6',
        7 => '7',
        8 => '8',
        _ => '9',
    }
}

/// The base-10 digit string of `n` as a vector of characters.
pub fn udigit_chars(n: u128) -> (v: Vec<char>)
    ensures
        v@ == udigits(n as nat),
    decreases n,
{
    if n < 10 {
        let mut v: Vec<char> = Vec::new();
        v.push(digit_to_char(n));
        proof {
            assert(v@ =~= udigits(n as nat));
        }
        v
    } else {
        proof {
            assert(n / 10 < n) by (nonlinear_arith)
                requires
                    n >= 10,
            ;
        }
        let mut v = udigit_chars(n / 10);
        v.push(digit_to_char(n % 10));
        proof {
            assert(v@ =~= udigits((n / 10) as nat) + seq![digit_char((n % 10) as int)]);
            assert(udigits(n as nat) == udigits((n / 10) as nat) + seq![
                digit_char((n % 10) as int),
            ]);
        }
        v
    }
}

} // verus!
