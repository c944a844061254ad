//! The laws of the canonical rendering, stated and proved once for all
//! inputs: the exact shape of the padded and the split form, the
//! trailing-point form at zero precision, determinism, and the round trip
//! from a rendered string back to the pair it was rendered from.

use vstd::prelude::*;

use crate::decimal::rendered;
use crate::decimal::signed_digits;
use crate::decimal::zeros;
use crate::decimal::Decimal;
use crate::digits::digits_value;
use crate::digits::is_digit;
use crate::digits::lemma_digits_value_prepend_zero;
use crate::digits::lemma_digits_value_udigits;
use crate::digits::lemma_udigits_are_digits;
use crate::digits::lemma_udigits_len;
use crate::digits::udigits;

verus! {

/// A non-negative value whose digit string has at most `d` characters
/// renders as `"0."`, then `d - L` zeros, then the digit string itself.
pub proof fn lemma_render_pads_short_values(v: int, d: nat)
    requires
        v >= 0,
        udigits(v as nat).len() <= d,
    ensures
        rendered(v, d) == seq!['0', '.'] + zeros((d - udigits(v as nat).len()) as nat) + udigits(
            v as nat,
        ),
{
}

/// A non-negative value whose digit string has more than `d` characters
/// renders as that digit string with a point inserted at offset `L - d`.
pub proof fn lemma_render_splits_long_values(v: int, d: nat)
    requires
        v >= 0,
        udigits(v as nat).len() > d,
    ensures
        rendered(v, d) == udigits(v as nat).take(udigits(v as nat).len() - d) + seq!['.'] + udigits(
            v as nat,
        ).skip(udigits(v as nat).len() - d),
{
}

/// At zero precision the rendering is the full digit string (sign included)
/// followed by a trailing point and an empty fractional part.
pub proof fn lemma_render_zero_decimals(v: int)
    ensures
        rendered(v, 0) == signed_digits(v) + seq!['.'],
{
    let s = signed_digits(v);
    if v >= 0 {
        lemma_udigits_len(v as nat);
    } else {
        lemma_udigits_len((-v) as nat);
    }
    assert(s.len() > 0);
    assert(s.take(s.len() as int) =~= s);
    assert(s.skip(s.len() as int) =~= Seq::<char>::empty());
    assert(rendered(v, 0) =~= s + seq!['.']);
}

/// Rendering is a pure function of the two fields: decimals with equal
/// fields render to one and the same string. Together with the
/// postcondition of [`Decimal::render`] — the result equals
/// `rendered(value, decimals)` — any two calls on one value yield identical
/// output.
pub proof fn lemma_render_deterministic(a: Decimal, b: Decimal)
    requires
        a.value == b.value,
        a.decimals == b.decimals,
    ensures
        rendered(a.value as int, a.decimals as nat) == rendered(b.value as int, b.decimals as nat),
{
}

/// The offset of the decimal point in `rendered(v, d)`.
pub open spec fn dot_pos(v: int, d: nat) -> int {
    if signed_digits(v).len() <= d {
        1
    } else {
        signed_digits(v).len() - d
    }
}

/// The pair read back from a rendered string split at point position `p`:
/// the number denoted by the concatenated remaining digits, and the count of
/// characters after the point.
pub open spec fn parsed_back(s: Seq<char>, p: int) -> (int, nat) {
    (digits_value(s.take(p) + s.skip(p + 1)), (s.len() - p - 1) as nat)
}

/// Prepending `k` zero characters to a digit string does not change the
/// number it denotes.
proof fn lemma_digits_value_prepend_zeros(k: nat, s: Seq<char>)
    ensures
        digits_value(zeros(k) + s) == digits_value(s),
    decreases k,
{
    if k == 0 {
        assert(zeros(0) + s =~= s);
    } else {
        lemma_digits_value_prepend_zeros((k - 1) as nat, s);
        assert(zeros(k) + s =~= seq!['0'] + (zeros((k - 1) as nat) + s));
        lemma_digits_value_prepend_zero(zeros((k - 1) as nat) + s);
    }
}

/// Round trip: the rendering of a non-negative value contains exactly one
/// point, and splitting on it and concatenating the remaining digits
/// reproduces the original pair `(v, d)`.
pub proof fn lemma_render_parse_round_trip(v: int, d: nat)
    requires
        v >= 0,
    ensures
        ({
            let s = rendered(v, d);
            let p = dot_pos(v, d);
            &&& 0 <= p < s.len()
            &&& s[p] == '.'
            &&& forall|i: int| 0 <= i < s.len() && i != p ==> s[i] != '.'
            &&& parsed_back(s, p) == (v, d)
        }),
{
    let u = udigits(v as nat);
    let l = u.len();
    let s = rendered(v, d);
    let p = dot_pos(v, d);
    lemma_udigits_len(v as nat);
    lemma_udigits_are_digits(v as nat);
    lemma_digits_value_udigits(v as nat);
    if l <= d {
        assert(s =~= seq!['0', '.'] + zeros((d - l) as nat) + u);
        assert(p == 1);
        assert(s[1] == '.');
        assert forall|i: int| 0 <= i < s.len() && i != 1 implies s[i] != '.' by {
            if i == 0 {
                assert(s[0] == '0');
            } else if i < 2 + (d - l) {
                assert(s[i] == zeros((d - l) as nat)[i - 2]);
            } else {
                assert(s[i] == u[i - 2 - (d - l)]);
                assert(is_digit(s[i]));
            }
        }
        assert(s.take(1) + s.skip(2) =~= zeros((d - l + 1) as nat) + u);
        lemma_digits_value_prepend_zeros((d - l + 1) as nat, u);
        assert(s.len() - p - 1 == d);
    } else {
        assert(s =~= u.take(l - d) + seq!['.'] + u.skip(l - d));
        assert(p == l - d);
        assert(s[p] == '.');
        assert forall|i: int| 0 <= i < s.len() && i != p implies s[i] != '.' by {
            if i < p {
                assert(s[i] == u[i]);
                assert(is_digit(s[i]));
            } else {
                assert(s[i] == u.skip(l - d)[i - p - 1]);
                assert(s[i] == u[i - 1]);
                assert(is_digit(s[i]));
            }
        }
        assert(s.take(p) + s.skip(p + 1) =~= u);
        assert(s.len() - p - 1 == d);
    }
}

} // verus!
