//! The number syntax of map text: which texts Rust reads as an `f64`, and
//! the value of texts read as an `i32`.

use vstd::prelude::*;

verus! {

pub open spec fn is_digit(b: u8) -> bool {
    48 <= b <= 57
}

pub open spec fn is_sign(b: u8) -> bool {
    b == 43 || b == 45
}

/// `e` or `E`.
pub open spec fn is_exp_mark(b: u8) -> bool {
    b == 101 || b == 69
}

/// ASCII lower case of a byte.
pub open spec fn to_lower(b: u8) -> u8 {
    if 65 <= b <= 90 {
        (b + 32) as u8
    } else {
        b
    }
}

/// `s` equals the lower-case ASCII `word` when lower-cased.
pub open spec fn lower_is(s: Seq<u8>, word: Seq<u8>) -> bool {
    s.len() == word.len() && forall|i: int| 0 <= i < s.len() ==> to_lower(s[i]) == word[i]
}

/// `inf`
pub open spec fn word_inf() -> Seq<u8> {
    seq![105u8, 110, 102]
}

/// `infinity`
pub open spec fn word_infinity() -> Seq<u8> {
    seq![105u8, 110, 102, 105, 110, 105, 116, 121]
}

/// `nan`
pub open spec fn word_nan() -> Seq<u8> {
    seq![110u8, 97, 110]
}

/// One or more decimal digits.
pub open spec fn digits_text(s: Seq<u8>) -> bool {
    s.len() > 0 && forall|i: int| 0 <= i < s.len() ==> is_digit(#[trigger] s[i])
}

/// `Digit+ | Digit+ '.' Digit* | Digit* '.' Digit+`: digits and at most one
/// point, with at least one digit.
pub open spec fn mantissa_text(u: Seq<u8>) -> bool {
    &&& forall|i: int| 0 <= i < u.len() ==> is_digit(#[trigger] u[i]) || u[i] == 46
    &&& forall|i: int, j: int| 0 <= i < j < u.len() ==> !(#[trigger] u[i] == 46 && #[trigger] u[j] == 46)
    &&& exists|i: int| 0 <= i < u.len() && is_digit(#[trigger] u[i])
}

/// `Sign? Digit+`
pub open spec fn exponent_text(v: Seq<u8>) -> bool {
    if v.len() > 0 && is_sign(v[0]) {
        digits_text(v.drop_first())
    } else {
        digits_text(v)
    }
}

/// `m` is where the exponent mark of `t` stands (its first `e` or `E`), or
/// the length of `t` when there is none.
pub open spec fn exp_split(t: Seq<u8>, m: int) -> bool {
    &&& 0 <= m <= t.len()
    &&& m < t.len() ==> is_exp_mark(t[m])
    &&& forall|i: int| 0 <= i < m ==> !is_exp_mark(#[trigger] t[i])
}

/// `Number ::= Mantissa ('e' Sign? Digit+)?`, case-insensitive in the `e`.
pub open spec fn number_text(t: Seq<u8>) -> bool {
    exists|m: int|
        exp_split(t, m) && mantissa_text(#[trigger] t.take(m)) && (m < t.len() ==> exponent_text(
            t.skip(m + 1),
        ))
}

/// `inf | infinity | nan | Number`, case-insensitive.
pub open spec fn unsigned_float_text(t: Seq<u8>) -> bool {
    lower_is(t, word_inf()) || lower_is(t, word_infinity()) || lower_is(t, word_nan())
        || number_text(t)
}

/// Whether Rust's `f64::from_str` accepts the text `s`: the grammar
/// `Sign? ( 'inf' | 'infinity' | 'nan' | Number )` of its documentation, with
/// letters in any case and no surrounding whitespace.
pub open spec fn float_text(s: Seq<u8>) -> bool {
    if s.len() > 0 && is_sign(s[0]) {
        unsigned_float_text(s.drop_first())
    } else {
        unsigned_float_text(s)
    }
}

fn lower_is_exec(s: &[u8], from: usize, word: &[u8]) -> (r: bool)
    requires
        from <= s@.len(),
    ensures
        r == lower_is(s@.skip(from as int), word@),
{
    let n = s.len();
    if n - from != word.len() {
        return false;
    }
    let mut i: usize = 0;
    while i < word.len()
        invariant
            from <= s@.len(),
            from + word@.len() == s@.len(),
            n == s@.len(),
            i <= word@.len(),
            forall|k: int| 0 <= k < i ==> to_lower(s@.skip(from as int)[k]) == word@[k],
        decreases word.len() - i,
    {
        assert(i < word@.len());
        assert(from + i < n);
        let b = s[from + i];
        let l = if 65 <= b && b <= 90 {
            b + 32
        } else {
            b
        };
        if l != word[i] {
            assert(to_lower(s@.skip(from as int)[i as int]) != word@[i as int]);
            return false;
        }
        i += 1;
    }
    true
}

/// Whether `s[from..to]` is one or more digits.
fn digits_exec(s: &[u8], from: usize, to: usize) -> (r: bool)
    requires
        from <= to <= s@.len(),
    ensures
        r == digits_text(s@.subrange(from as int, to as int)),
{
    if from == to {
        return false;
    }
    let mut i = from;
    while i < to
        invariant
            from <= i <= to <= s@.len(),
            forall|k: int| from <= k < i ==> is_digit(s@[k]),
        decreases to - i,
    {
        if !(48 <= s[i] && s[i] <= 57) {
            assert(!is_digit(s@.subrange(from as int, to as int)[i - from]));
            return false;
        }
        i += 1;
    }
    let ghost u = s@.subrange(from as int, to as int);
    assert forall|k: int| 0 <= k < u.len() implies is_digit(#[trigger] u[k]) by {
        assert(u[k] == s@[from + k]);
    }
    true
}

/// Whether `s[from..to]` is an exponent: `Sign? Digit+`.
fn exponent_exec(s: &[u8], from: usize, to: usize) -> (r: bool)
    requires
        from <= to <= s@.len(),
    ensures
        r == exponent_text(s@.subrange(from as int, to as int)),
{
    let ghost v = s@.subrange(from as int, to as int);
    if from < to && (s[from] == 43 || s[from] == 45) {
        assert(v.drop_first() =~= s@.subrange(from + 1, to as int));
        digits_exec(s, from + 1, to)
    } else {
        digits_exec(s, from, to)
    }
}

/// Whether `s[from..to]` is a mantissa.
fn mantissa_exec(s: &[u8], from: usize, to: usize) -> (r: bool)
    requires
        from <= to <= s@.len(),
    ensures
        r == mantissa_text(s@.subrange(from as int, to as int)),
{
    let ghost u = s@.subrange(from as int, to as int);
    let mut seen_point = false;
    let mut seen_digit = false;
    let mut i = from;
    while i < to
        invariant
            from <= i <= to <= s@.len(),
            u == s@.subrange(from as int, to as int),
            forall|k: int| 0 <= k < i - from ==> is_digit(#[trigger] u[k]) || u[k] == 46,
            forall|k: int, l: int|
                0 <= k < l < i - from ==> !(#[trigger] u[k] == 46 && #[trigger] u[l] == 46),
            seen_point <==> exists|k: int| 0 <= k < i - from && #[trigger] u[k] == 46,
            seen_digit <==> exists|k: int| 0 <= k < i - from && is_digit(#[trigger] u[k]),
        decreases to - i,
    {
        let b = s[i];
        assert(u[i - from] == b);
        if 48 <= b && b <= 57 {
            seen_digit = true;
        } else if b == 46 {
            if seen_point {
                let ghost k = choose|k: int| 0 <= k < i - from && #[trigger] u[k] == 46;
                assert(u[k] == 46 && u[i - from] == 46);
                return false;
            }
            seen_point = true;
        } else {
            assert(!(is_digit(u[i - from]) || u[i - from] == 46));
            return false;
        }
        i += 1;
    }
    seen_digit
}

/// Whether Rust reads `s` as an `f64`.
pub fn is_float_text(s: &[u8]) -> (r: bool)
    ensures
        r == float_text(s@),
{
    let start: usize = if s.len() > 0 && (s[0] == 43 || s[0] == 45) {
        1
    } else {
        0
    };
    let ghost t = s@.skip(start as int);
    assert(start == 1 ==> s@.drop_first() =~= t);
    assert(start == 0 ==> s@ =~= t);
    let inf: [u8; 3] = [105, 110, 102];
    let infinity: [u8; 8] = [105, 110, 102, 105, 110, 105, 116, 121];
    let nan: [u8; 3] = [110, 97, 110];
    assert(inf@ =~= word_inf());
    assert(infinity@ =~= word_infinity());
    assert(nan@ =~= word_nan());
    if lower_is_exec(s, start, inf.as_slice()) || lower_is_exec(s, start, infinity.as_slice())
        || lower_is_exec(s, start, nan.as_slice()) {
        return true;
    }
    // find the exponent mark
    let mut m = start;
    while m < s.len()
        invariant
            start <= m <= s@.len(),
            t == s@.skip(start as int),
            forall|i: int| 0 <= i < m - start ==> !is_exp_mark(#[trigger] t[i]),
        ensures
            start <= m <= s@.len(),
            forall|i: int| 0 <= i < m - start ==> !is_exp_mark(#[trigger] t[i]),
            m < s@.len() ==> is_exp_mark(s@[m as int]),
        decreases s.len() - m,
    {
        if s[m] == 101 || s[m] == 69 {
            break;
        }
        m += 1;
    }
    let ghost mm = m - start;
    assert(m < s@.len() ==> t[mm] == s@[m as int]);
    assert(exp_split(t, mm));
    assert(t.take(mm) =~= s@.subrange(start as int, m as int));
    let ok = if mantissa_exec(s, start, m) {
        if m < s.len() {
            assert(t.skip(mm + 1) =~= s@.subrange(m + 1, s@.len() as int));
            exponent_exec(s, m + 1, s.len())
        } else {
            true
        }
    } else {
        false
    };
    proof {
        if ok {
            assert(number_text(t));
        } else if number_text(t) {
            let m2 = choose|m2: int|
                exp_split(t, m2) && mantissa_text(#[trigger] t.take(m2)) && (m2 < t.len()
                    ==> exponent_text(t.skip(m2 + 1)));
            if m2 < mm {
                assert(!is_exp_mark(t[m2]));
            } else if m2 > mm {
                assert(!is_exp_mark(t[mm]));
            }
            assert(m2 == mm);
        }
    }
    ok
}

/// Value of a digit string, most significant digit first.
pub open spec fn digits_value(s: Seq<u8>) -> int
    decreases s.len(),
{
    if s.len() == 0 {
        0
    } else {
        digits_value(s.drop_last()) * 10 + (s.last() - 48)
    }
}

/// What Rust's `i32::from_str` reads from `s`: an optional `+` or `-`
/// followed by one or more digits, whose value fits an `i32`; `None` for
/// any other text.
pub open spec fn int_value(s: Seq<u8>) -> Option<i32> {
    let neg = s.len() > 0 && s[0] == 45;
    let d = if s.len() > 0 && is_sign(s[0]) {
        s.drop_first()
    } else {
        s
    };
    let v = if neg {
        -digits_value(d)
    } else {
        digits_value(d)
    };
    if digits_text(d) && i32::MIN <= v <= i32::MAX {
        Some(v as i32)
    } else {
        None
    }
}

pub proof fn lemma_digits_value_nonneg(s: Seq<u8>)
    requires
        forall|i: int| 0 <= i < s.len() ==> is_digit(#[trigger] s[i]),
    ensures
        digits_value(s) >= 0,
    decreases s.len(),
{
    if s.len() > 0 {
        lemma_digits_value_nonneg(s.drop_last());
    }
}

/// The `i32` that Rust reads from `s`, if any.
pub fn parse_i32(s: &[u8]) -> (r: Option<i32>)
    ensures
        r == int_value(s@),
{
    let neg = s.len() > 0 && s[0] == 45;
    let start: usize = if s.len() > 0 && (s[0] == 43 || s[0] == 45) {
        1
    } else {
        0
    };
    let ghost d = s@.skip(start as int);
    assert(start == 1 ==> s@.drop_first() =~= d);
    assert(start == 0 ==> s@ =~= d);
    assert(d =~= s@.subrange(start as int, s@.len() as int));
    if !digits_exec(s, start, s.len()) {
        return None;
    }
    // accumulate, noting once the magnitude exceeds 2^31
    let mut acc: u64 = 0;
    let mut over = false;
    let mut i = start;
    while i < s.len()
        invariant
            start <= i <= s@.len(),
            d == s@.skip(start as int),
            digits_text(d),
            !over ==> acc == digits_value(d.take(i - start)) && acc <= 0x8000_0000,
            over ==> digits_value(d.take(i - start)) > 0x8000_0000,
        decreases s.len() - i,
    {
        let ghost pre = d.take(i - start);
        let ghost nxt = d.take(i - start + 1);
        assert(nxt.drop_last() =~= pre);
        assert(nxt.last() == s@[i as int]);
        assert(is_digit(d[i - start]));
        proof {
            lemma_digits_value_nonneg(pre);
        }
        let dig = (s[i] - 48) as u64;
        if !over {
            acc = acc * 10 + dig;
            if acc > 0x8000_0000 {
                over = true;
            }
        }
        i += 1;
    }
    assert(d.take(s@.len() - start) =~= d);
    if over {
        return None;
    }
    if neg {
        Some((0 - (acc as i64)) as i32)
    } else if acc <= 0x7fff_ffff {
        Some(acc as i32)
    } else {
        None
    }
}

} // verus!
