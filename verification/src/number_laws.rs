//! What the number syntax accepts and what integers it reads, stated over
//! the bytes themselves.

use vstd::prelude::*;
use crate::number::{
    digits_text, digits_value, exp_split, exponent_text, float_text, int_value, is_digit,
    is_exp_mark, lemma_digits_value_nonneg, lower_is, mantissa_text, number_text, word_inf, word_nan,
};

verus! {

/// Every byte of `s` is an ASCII digit `0`..=`9`.
pub open spec fn ascii_digits(s: Seq<u8>) -> bool {
    forall|i: int| 0 <= i < s.len() ==> 48 <= #[trigger] s[i] <= 57
}

proof fn lemma_number_no_exp(t: Seq<u8>)
    requires
        forall|i: int| 0 <= i < t.len() ==> (48 <= #[trigger] t[i] <= 57) || t[i] == 46,
        forall|i: int, j: int| 0 <= i < j < t.len() ==> !(#[trigger] t[i] == 46 && #[trigger] t[j] == 46),
        exists|i: int| 0 <= i < t.len() && 48 <= #[trigger] t[i] <= 57,
    ensures
        number_text(t),
{
    assert(exp_split(t, t.len() as int));
    assert(t.take(t.len() as int) =~= t);
    let k = choose|i: int| 0 <= i < t.len() && 48 <= #[trigger] t[i] <= 57;
    assert(is_digit(t.take(t.len() as int)[k]));
    assert(mantissa_text(t.take(t.len() as int)));
}

/// A run of one or more digits is read as an `f64`.
pub proof fn law_float_digits(d: Seq<u8>)
    requires
        d.len() > 0,
        ascii_digits(d),
    ensures
        float_text(d),
{
    assert(48 <= d[0] <= 57);
    lemma_number_no_exp(d);
}

/// Digits, a point, digits (at least one digit in all) are read as an `f64`.
pub proof fn law_float_point(a: Seq<u8>, b: Seq<u8>)
    requires
        ascii_digits(a),
        ascii_digits(b),
        a.len() + b.len() > 0,
    ensures
        float_text(a + seq![46u8] + b),
{
    let t = a + seq![46u8] + b;
    assert forall|i: int| 0 <= i < t.len() implies (48 <= #[trigger] t[i] <= 57) || t[i] == 46 by {
        if i < a.len() {
            assert(t[i] == a[i]);
        } else if i > a.len() {
            assert(t[i] == b[i - a.len() - 1]);
        }
    }
    assert forall|i: int, j: int| 0 <= i < j < t.len() implies !(#[trigger] t[i] == 46
        && #[trigger] t[j] == 46) by {
        if i < a.len() {
            assert(t[i] == a[i]);
        } else if i > a.len() {
            assert(t[i] == b[i - a.len() - 1]);
        }
        if j < a.len() {
            assert(t[j] == a[j]);
        } else if j > a.len() {
            assert(t[j] == b[j - a.len() - 1]);
        }
    }
    if a.len() > 0 {
        assert(t[0] == a[0]);
        assert(48 <= t[0] <= 57);
    } else {
        assert(t[1] == b[0]);
        assert(48 <= t[1] <= 57);
    }
    assert(!(t.len() > 0 && (t[0] == 43 || t[0] == 45)));
    lemma_number_no_exp(t);
}

/// A sign before a number text read as an `f64` keeps it one.
pub proof fn law_float_signed(sign: u8, d: Seq<u8>)
    requires
        sign == 43 || sign == 45,
        d.len() > 0,
        ascii_digits(d),
    ensures
        float_text(seq![sign] + d),
{
    let t = seq![sign] + d;
    assert(t.drop_first() =~= d);
    law_float_digits(d);
    assert(!(d.len() > 0 && (d[0] == 43 || d[0] == 45)));
}

/// Digits, `e` or `E`, an optional sign and digits are read as an `f64`.
pub proof fn law_float_exponent(m: Seq<u8>, e: u8, sign: Seq<u8>, d: Seq<u8>)
    requires
        m.len() > 0,
        ascii_digits(m),
        e == 101 || e == 69,
        sign.len() == 0 || (sign.len() == 1 && (sign[0] == 43 || sign[0] == 45)),
        d.len() > 0,
        ascii_digits(d),
    ensures
        float_text(m + seq![e] + sign + d),
{
    let t = m + seq![e] + sign + d;
    let k = m.len() as int;
    assert(t[0] == m[0]);
    assert(exp_split(t, k)) by {
        assert(t[k] == e);
        assert forall|i: int| 0 <= i < k implies !is_exp_mark(#[trigger] t[i]) by {
            assert(t[i] == m[i]);
        }
    }
    assert(t.take(k) =~= m);
    assert(is_digit(m[0]));
    assert forall|i: int| 0 <= i < m.len() implies is_digit(#[trigger] m[i]) || m[i] == 46 by {}
    assert(mantissa_text(m));
    let v = t.skip(k + 1);
    assert(v =~= sign + d);
    if sign.len() == 1 {
        assert(v.drop_first() =~= d);
    }
    assert forall|i: int| 0 <= i < d.len() implies is_digit(#[trigger] d[i]) by {}
    assert(exponent_text(v));
    assert(number_text(t));
}

/// `nan` in any mix of cases is read as an `f64`.
pub proof fn law_float_nan_any_case(s: Seq<u8>)
    requires
        s.len() == 3,
        s[0] == 110 || s[0] == 78,
        s[1] == 97 || s[1] == 65,
        s[2] == 110 || s[2] == 78,
    ensures
        float_text(s),
{
    assert(lower_is(s, word_nan()));
}

/// `inf` in any mix of cases is read as an `f64`.
pub proof fn law_float_inf_any_case(s: Seq<u8>)
    requires
        s.len() == 3,
        s[0] == 105 || s[0] == 73,
        s[1] == 110 || s[1] == 78,
        s[2] == 102 || s[2] == 70,
    ensures
        float_text(s),
{
    assert(lower_is(s, word_inf()));
}

/// The empty text, and any text with two points, are not read as an `f64`.
pub proof fn law_float_rejects(s: Seq<u8>, i: int, j: int)
    requires
        s.len() == 0 || (0 <= i < j < s.len() && s[i] == 46 && s[j] == 46),
    ensures
        !float_text(s),
{
    if s.len() > 0 {
        let t = if is_sign_byte(s[0]) {
            s.drop_first()
        } else {
            s
        };
        if number_text(t) {
            let m = choose|m: int|
                exp_split(t, m) && mantissa_text(#[trigger] t.take(m)) && (m < t.len()
                    ==> exponent_text(t.skip(m + 1)));
            let off: int = if is_sign_byte(s[0]) {
                1
            } else {
                0
            };
            assert(i >= off) by {
                if off == 1 {
                    assert(s[0] != 46);
                }
            }
            assert(t[i - off] == 46 && t[j - off] == 46);
            if j - off < m {
                assert(t.take(m)[i - off] == 46 && t.take(m)[j - off] == 46);
            } else if m < t.len() {
                let v = t.skip(m + 1);
                if i - off < m {
                    assert(v[j - off - m - 1] == 46);
                } else if i - off == m {
                    assert(!is_exp_mark(t[i - off]));
                } else {
                    assert(v[i - off - m - 1] == 46);
                }
                if v.len() > 0 && (v[0] == 43 || v[0] == 45) {
                    assert(v.drop_first()[j - off - m - 2] == 46);
                }
            }
        }
        assert(!lower_is(t, word_inf()) || t[i - (if is_sign_byte(s[0]) { 1int } else { 0 })] != 46);
    } else {
        assert(!number_text(s)) by {
            if number_text(s) {
                let m = choose|m: int|
                    exp_split(s, m) && mantissa_text(#[trigger] s.take(m)) && (m < s.len()
                        ==> exponent_text(s.skip(m + 1)));
                assert(s.take(m).len() == 0);
            }
        }
    }
}

/// `+` or `-`.
pub open spec fn is_sign_byte(b: u8) -> bool {
    b == 43 || b == 45
}

/// A single digit is read as the integer it stands for.
pub proof fn law_int_single_digit(b: u8)
    requires
        48 <= b <= 57,
    ensures
        int_value(seq![b]) == Some((b - 48) as i32),
{
    let s = seq![b];
    assert(s.drop_last() =~= Seq::<u8>::empty());
    assert(digits_value(Seq::<u8>::empty()) == 0);
    assert(digits_value(s) == b - 48);
    assert(digits_text(s));
}

/// Appending a digit to a digit string multiplies its value by ten and adds
/// the digit, as long as the result fits an `i32`.
pub proof fn law_int_append_digit(d: Seq<u8>, b: u8, v: i32)
    requires
        d.len() > 0,
        ascii_digits(d),
        48 <= b <= 57,
        int_value(d) == Some(v),
        10 * v + (b - 48) <= i32::MAX,
    ensures
        int_value(d.push(b)) == Some((10 * v + (b - 48)) as i32),
{
    let t = d.push(b);
    assert(!is_sign_byte(d[0]));
    assert(t[0] == d[0]);
    assert(t.drop_last() =~= d);
    assert(digits_value(d) == v);
    lemma_digits_value_nonneg(d);
    assert forall|i: int| 0 <= i < t.len() implies is_digit(#[trigger] t[i]) by {
        if i < d.len() {
            assert(t[i] == d[i]);
        }
    }
    assert(digits_value(t) == digits_value(d) * 10 + (b - 48));
}

/// A `-` before a digit string negates the integer read from it.
pub proof fn law_int_negative(d: Seq<u8>, v: i32)
    requires
        d.len() > 0,
        ascii_digits(d),
        int_value(d) == Some(v),
    ensures
        int_value(seq![45u8] + d) == Some((-v) as i32),
{
    let t = seq![45u8] + d;
    assert(t.drop_first() =~= d);
    assert(!is_sign_byte(d[0]));
    lemma_digits_value_nonneg(d);
    assert(digits_value(d) == v);
}

/// A `+` before a text that does not start with a sign changes nothing of
/// what is read.
pub proof fn law_int_plus(d: Seq<u8>)
    requires
        !(d.len() > 0 && is_sign_byte(d[0])),
    ensures
        int_value(seq![43u8] + d) == int_value(d),
{
    let t = seq![43u8] + d;
    assert(t.drop_first() =~= d);
}

/// No integer is read from an empty text, from a lone sign, or from a text
/// with a byte other than a digit after its optional leading sign.
pub proof fn law_int_rejects(s: Seq<u8>, i: int)
    requires
        s.len() == 0 || (s.len() == 1 && is_sign_byte(s[0])) || (0 <= i < s.len() && !(48 <= s[i]
            <= 57) && !(i == 0 && is_sign_byte(s[0]))),
    ensures
        int_value(s) is None,
{
    if s.len() > 0 && is_sign_byte(s[0]) {
        let d = s.drop_first();
        if s.len() > 1 {
            assert(d[i - 1] == s[i]);
        }
    }
}

} // verus!
