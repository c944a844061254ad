//! The fixed-point decimal value type and its canonical string rendering.
//!
//! A [`Decimal`] represents the real number `value * 10^-decimals`. Its
//! rendering works on the plain base-10 digit string of `value` — including
//! the leading `'-'` of a negative value, which therefore counts toward the
//! length that is compared against `decimals` — and either left-pads it with
//! zeros under a `"0."` prefix or splits it with a `'.'` so that exactly
//! `decimals` characters follow the point. `decimals == 0` yields a trailing
//! `'.'` with an empty fractional part.

use vstd::prelude::*;

use crate::digits::is_digit;
use crate::digits::lemma_udigits_are_digits;
use crate::digits::udigit_chars;
use crate::digits::udigits;

verus! {

/// A fixed-point decimal: the real number `value * 10^-decimals`.
pub struct Decimal {
    /// The unscaled magnitude; may be negative.
    pub value: i128,
    /// The count of implied fractional digits.
    pub decimals: u32,
}

/// The base-10 digit string of `v`, with a leading `'-'` when `v` is negative.
pub open spec fn signed_digits(v: int) -> Seq<char> {
    if v >= 0 {
        udigits(v as nat)
    } else {
        seq!['-'] + udigits((-v) as nat)
    }
}

/// A sequence of `n` zero characters.
pub open spec fn zeros(n: nat) -> Seq<char> {
    Seq::new(n, |i: int| '0')
}

/// The canonical rendering of `v * 10^-d`: the digit string of `v` (sign
/// included), left-padded with zeros under a `"0."` prefix when it has at
/// most `d` characters, and otherwise split by a `'.'` so that exactly `d`
/// characters follow the point.
pub open spec fn rendered(v: int, d: nat) -> Seq<char> {
    let s = signed_digits(v);
    if s.len() <= d {
        seq!['0', '.'] + zeros((d - s.len()) as nat) + s
    } else {
        s.take(s.len() - d) + seq!['.'] + s.skip(s.len() - d)
    }
}

/// Whether `c` can occur in a rendering: a digit, a point, or a minus sign.
pub open spec fn is_render_char(c: char) -> bool {
    is_digit(c) || c == '.' || c == '-'
}

/// Every character of a rendering is a digit, a point, or a minus sign.
pub proof fn lemma_rendered_chars(v: int, d: nat)
    ensures
        forall|i: int| 0 <= i < rendered(v, d).len() ==> is_render_char(#[trigger] rendered(v, d)[i]),
{
    lemma_signed_digits_chars(v);
    let s = signed_digits(v);
    let r = rendered(v, d);
    if s.len() <= d {
        assert forall|i: int| 0 <= i < r.len() implies is_render_char(#[trigger] r[i]) by {
            if i >= 2 + (d - s.len()) {
                assert(r[i] == s[i - 2 - (d - s.len())]);
            }
        }
    } else {
        assert forall|i: int| 0 <= i < r.len() implies is_render_char(#[trigger] r[i]) by {
            if i < s.len() - d {
                assert(r[i] == s[i]);
            } else if i > s.len() - d {
                assert(r[i] == s.skip(s.len() - d)[i - (s.len() - d) - 1]);
            }
        }
    }
}

/// Every character of a signed digit string is a digit or a minus sign.
pub proof fn lemma_signed_digits_chars(v: int)
    ensures
        forall|i: int| 0 <= i < signed_digits(v).len() ==> is_digit(#[trigger] signed_digits(v)[i])
            || signed_digits(v)[i] == '-',
{
    if v >= 0 {
        lemma_udigits_are_digits(v as nat);
    } else {
        lemma_udigits_are_digits((-v) as nat);
        let u = udigits((-v) as nat);
        assert forall|i: int| 0 <= i < signed_digits(v).len() implies is_digit(
            #[trigger] signed_digits(v)[i],
        ) || signed_digits(v)[i] == '-' by {
            if i >= 1 {
                assert(signed_digits(v)[i] == u[i - 1]);
            }
        }
    }
}

/// The one-character string slice holding `c`, for any character a rendering
/// can contain.
fn char_str(c: char) -> (s: &'static str)
    requires
        is_render_char(c),
    ensures
        s@ == seq![c],
{
    let s: &'static str = match c {
        '-' => "-",
        '.' => ".",
        '0' => "0",
        '1' => "1",
        '2' => "2",
        '3' => "3",
        '4' => "4",
        '5' => "5",
        '6' => "6",
        '7' => "7",
        '8' => "8",
        _ => "9",
    };
    proof {
        reveal_strlit("-");
        reveal_strlit(".");
        reveal_strlit("0");
        reveal_strlit("1");
        reveal_strlit("2");
        reveal_strlit("3");
        reveal_strlit("4");
        reveal_strlit("5");
        reveal_strlit("6");
        reveal_strlit("7");
        reveal_strlit("8");
        reveal_strlit("9");
        assert(s@ =~= seq![c]);
    }
    s
}

/// Builds the string holding exactly the given rendering characters.
fn chars_to_string(v: &Vec<char>) -> (s: String)
    requires
        forall|i: int| 0 <= i < v@.len() ==> is_render_char(#[trigger] v@[i]),
    ensures
        s@ == v@,
{
    let mut s = String::new();
    let mut i: usize = 0;
    while i < v.len()
        invariant
            i <= v@.len(),
            s@ == v@.take(i as int),
            forall|k: int| 0 <= k < v@.len() ==> is_render_char(#[trigger] v@[k]),
        decreases v@.len() - i,
    {
        s.append(char_str(v[i]));
        proof {
            assert(s@ =~= v@.take(i as int + 1));
        }
        i = i + 1;
    }
    proof {
        assert(v@.take(v@.len() as int) =~= v@);
    }
    s
}

/// The digit string of `v` as characters, with a leading `'-'` when `v` is
/// negative.
fn signed_digit_chars(v: i128) -> (s: Vec<char>)
    ensures
        s@ == signed_digits(v as int),
{
    if v >= 0 {
        udigit_chars(v as u128)
    } else {
        let mag: u128 = if v == i128::MIN {
            170141183460469231731687303715884105728u128
        } else {
            (-v) as u128
        };
        proof {
            assert(mag as nat == (-(v as int)) as nat);
        }
        let mut s: Vec<char> = Vec::new();
        s.push('-');
        let mut digits = udigit_chars(mag);
        s.append(&mut digits);
        proof {
            assert(s@ =~= signed_digits(v as int));
        }
        s
    }
}

impl Decimal {
    /// Wraps an unscaled magnitude and a count of fractional digits; total,
    /// stores both fields verbatim.
    pub fn new(value: i128, decimals: u32) -> (d: Decimal)
        ensures
            d.value == value,
            d.decimals == decimals,
    {
        Decimal { value, decimals }
    }

    /// The canonical rendering of this value as a decimal string, with no
    /// exponent notation, no rounding and no grouping.
    pub fn render(&self) -> (s: String)
        ensures
            s@ == rendered(self.value as int, self.decimals as nat),
    {
        let digits = signed_digit_chars(self.value);
        let l = digits.len();
        let d = self.decimals as usize;
        let mut out: Vec<char> = Vec::new();
        if l <= d {
            out.push('0');
            out.push('.');
            proof {
                assert(out@ =~= seq!['0', '.'] + zeros(0));
            }
            let pad = d - l;
            let mut i: usize = 0;
            while i < pad
                invariant
                    i <= pad,
                    out@ == seq!['0', '.'] + zeros(i as nat),
                decreases pad - i,
            {
                out.push('0');
                proof {
                    assert(out@ =~= seq!['0', '.'] + zeros(i as nat + 1));
                }
                i = i + 1;
            }
            let mut j: usize = 0;
            while j < l
                invariant
                    j <= l,
                    l == digits@.len(),
                    out@ == seq!['0', '.'] + zeros(pad as nat) + digits@.take(j as int),
                    pad == d - l,
                    l <= d,
                decreases l - j,
            {
                out.push(digits[j]);
                proof {
                    assert(out@ =~= seq!['0', '.'] + zeros(pad as nat) + digits@.take(
                        j as int + 1,
                    ));
                }
                j = j + 1;
            }
            proof {
                assert(digits@.take(l as int) =~= digits@);
                assert(out@ =~= rendered(self.value as int, self.decimals as nat));
            }
        } else {
            let split = l - d;
            let mut j: usize = 0;
            while j < split
                invariant
                    j <= split,
                    split <= l,
                    l == digits@.len(),
                    out@ == digits@.take(j as int),
                decreases split - j,
            {
                out.push(digits[j]);
                proof {
                    assert(out@ =~= digits@.take(j as int + 1));
                }
                j = j + 1;
            }
            out.push('.');
            proof {
                assert(out@ =~= digits@.take(split as int) + seq!['.'] + digits@.skip(
                    split as int,
                ).take(0));
            }
            while j < l
                invariant
                    split <= j <= l,
                    split == l - d,
                    d < l,
                    l == digits@.len(),
                    out@ == digits@.take(split as int) + seq!['.'] + digits@.skip(
                        split as int,
                    ).take(j - split),
                decreases l - j,
            {
                out.push(digits[j]);
                proof {
                    assert(digits@.skip(split as int)[j - split] == digits@[j as int]);
                    assert(out@ =~= digits@.take(split as int) + seq!['.'] + digits@.skip(
                        split as int,
                    ).take(j + 1 - split));
                }
                j = j + 1;
            }
            proof {
                assert(digits@.skip(split as int).take(l - split) =~= digits@.skip(split as int));
                assert(out@ =~= rendered(self.value as int, self.decimals as nat));
            }
        }
        proof {
            lemma_rendered_chars(self.value as int, self.decimals as nat);
        }
        chars_to_string(&out)
    }
}

} // verus!
