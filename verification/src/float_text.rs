use vstd::prelude::*;

use crate::num::{all_digits, is_digit};
use crate::text::is_whitespace_char;

verus! {

// The probe reports temperature, pressure, acceleration and GPS coordinates
// in floating point. Records carry those fields as the raw token text,
// validated against the grammar that the standard textual parsers for
// floating point document:
//
//   Float  ::= Sign? ( 'inf' | 'infinity' | 'nan' | Number )
//   Number ::= ( Digit+ | Digit+ '.' Digit* | Digit* '.' Digit+ ) Exp?
//   Exp    ::= 'e' Sign? Digit+
//
// letters compared ignoring ASCII case. Every string matching this grammar
// parses to a value (out-of-range magnitudes round to infinity or zero, which
// is not an error), and every other string is rejected, so the grammar is
// exactly per-field validity. Consumers parse the text into their own
// floating-point values at the edge.

/// `c` is the lowercase ASCII letter `l`, ignoring case.
pub open spec fn matches_ci(c: char, l: char) -> bool {
    c == l || c as u32 + 32 == l as u32
}

/// Runtime test for [`matches_ci`].
pub fn char_matches_ci(c: char, l: char) -> (r: bool)
    ensures
        r == matches_ci(c, l),
{
    c == l || (c as u32) + 32 == l as u32
}

/// `s` without one leading sign character, if one is there.
pub open spec fn strip_sign(s: Seq<char>) -> Seq<char> {
    if s.len() > 0 && (s[0] == '+' || s[0] == '-') {
        s.drop_first()
    } else {
        s
    }
}

/// The keyword `nan`, ignoring case.
pub open spec fn is_nan_body(b: Seq<char>) -> bool {
    b.len() == 3 && matches_ci(b[0], 'n') && matches_ci(b[1], 'a') && matches_ci(b[2], 'n')
}

/// The keyword `inf` or `infinity`, ignoring case.
pub open spec fn is_inf_body(b: Seq<char>) -> bool {
    (b.len() == 3 && matches_ci(b[0], 'i') && matches_ci(b[1], 'n') && matches_ci(b[2], 'f'))
        || (b.len() == 8 && matches_ci(b[0], 'i') && matches_ci(b[1], 'n') && matches_ci(
        b[2],
        'f',
    ) && matches_ci(b[3], 'i') && matches_ci(b[4], 'n') && matches_ci(b[5], 'i') && matches_ci(
        b[6],
        't',
    ) && matches_ci(b[7], 'y'))
}

/// Scan of a mantissa from position `i` on: digits with at most one period
/// overall, and at least one digit somewhere.
pub open spec fn mantissa_from(m: Seq<char>, i: int, seen_dot: bool, seen_digit: bool) -> bool
    decreases m.len() - i,
{
    if i < 0 {
        false
    } else if i >= m.len() {
        seen_digit
    } else if is_digit(m[i]) {
        mantissa_from(m, i + 1, seen_dot, true)
    } else if m[i] == '.' && !seen_dot {
        mantissa_from(m, i + 1, true, seen_digit)
    } else {
        false
    }
}

/// `Digit+ | Digit+ '.' Digit* | Digit* '.' Digit+`
pub open spec fn is_mantissa(m: Seq<char>) -> bool {
    mantissa_from(m, 0, false, false)
}

/// What follows the exponent marker: `Sign? Digit+`.
pub open spec fn is_exp_body(e: Seq<char>) -> bool {
    let d = strip_sign(e);
    d.len() >= 1 && all_digits(d)
}

/// Index of the first exponent marker (`e` or `E`) in `s`, or `s.len()`.
pub open spec fn find_exp(s: Seq<char>) -> int
    decreases s.len(),
{
    if s.len() == 0 {
        0
    } else if s[0] == 'e' || s[0] == 'E' {
        0
    } else {
        1 + find_exp(s.drop_first())
    }
}

pub proof fn lemma_find_exp(s: Seq<char>)
    ensures
        0 <= find_exp(s) <= s.len(),
        forall|j: int| 0 <= j < find_exp(s) ==> s[j] != 'e' && s[j] != 'E',
        find_exp(s) < s.len() ==> (s[find_exp(s)] == 'e' || s[find_exp(s)] == 'E'),
    decreases s.len(),
{
    if s.len() > 0 && s[0] != 'e' && s[0] != 'E' {
        let t = s.drop_first();
        lemma_find_exp(t);
        assert forall|j: int| 0 <= j < find_exp(s) implies s[j] != 'e' && s[j] != 'E' by {
            if j > 0 {
                assert(s[j] == t[j - 1]);
            }
        }
    }
}

proof fn lemma_find_exp_is(s: Seq<char>, i: int)
    requires
        0 <= i <= s.len(),
        forall|j: int| 0 <= j < i ==> s[j] != 'e' && s[j] != 'E',
        i < s.len() ==> (s[i] == 'e' || s[i] == 'E'),
    ensures
        find_exp(s) == i,
    decreases i,
{
    if s.len() == 0 || i == 0 {
    } else {
        let t = s.drop_first();
        assert(forall|j: int| 0 <= j < i - 1 ==> t[j] != 'e' && t[j] != 'E');
        lemma_find_exp_is(t, i - 1);
    }
}

/// `Mantissa Exp?`: the part before the first exponent marker is a mantissa,
/// and what follows the marker, if any, is `Sign? Digit+`.
pub open spec fn is_number_body(b: Seq<char>) -> bool {
    let i = find_exp(b);
    if i == b.len() {
        is_mantissa(b)
    } else {
        is_mantissa(b.subrange(0, i)) && is_exp_body(b.subrange(i + 1, b.len() as int))
    }
}

/// One floating-point token, as the standard textual parser accepts it.
pub open spec fn is_float_token(s: Seq<char>) -> bool {
    let b = strip_sign(s);
    is_nan_body(b) || is_inf_body(b) || is_number_body(b)
}

/// A token that parses to a NaN: an optional sign before the keyword `nan`.
pub open spec fn is_nan_token(s: Seq<char>) -> bool {
    is_nan_body(strip_sign(s))
}

/// Runtime test for [`is_nan_token`].
pub fn nan_token(s: &str) -> (r: bool)
    ensures
        r == is_nan_token(s@),
{
    let n = s.unicode_len();
    let start: usize = if n > 0 && (s.get_char(0) == '+' || s.get_char(0) == '-') {
        1
    } else {
        0
    };
    let ghost b = strip_sign(s@);
    proof {
        assert(b =~= s@.subrange(start as int, n as int));
    }
    n - start == 3 && char_matches_ci(s.get_char(start), 'n') && char_matches_ci(
        s.get_char(start + 1),
        'a',
    ) && char_matches_ci(s.get_char(start + 2), 'n')
}

/// Runtime test for [`is_float_token`].
pub fn float_token(s: &str) -> (r: bool)
    ensures
        r == is_float_token(s@),
{
    let n = s.unicode_len();
    let start: usize = if n > 0 && (s.get_char(0) == '+' || s.get_char(0) == '-') {
        1
    } else {
        0
    };
    let ghost b = strip_sign(s@);
    proof {
        assert(b =~= s@.subrange(start as int, n as int));
    }
    let rest = n - start;
    if rest == 3 && char_matches_ci(s.get_char(start), 'n') && char_matches_ci(
        s.get_char(start + 1),
        'a',
    ) && char_matches_ci(s.get_char(start + 2), 'n') {
        return true;
    }
    if rest == 3 && char_matches_ci(s.get_char(start), 'i') && char_matches_ci(
        s.get_char(start + 1),
        'n',
    ) && char_matches_ci(s.get_char(start + 2), 'f') {
        return true;
    }
    if rest == 8 && char_matches_ci(s.get_char(start), 'i') && char_matches_ci(
        s.get_char(start + 1),
        'n',
    ) && char_matches_ci(s.get_char(start + 2), 'f') && char_matches_ci(s.get_char(start + 3), 'i')
        && char_matches_ci(s.get_char(start + 4), 'n') && char_matches_ci(s.get_char(start + 5), 'i')
        && char_matches_ci(s.get_char(start + 6), 't') && char_matches_ci(s.get_char(start + 7), 'y')
    {
        return true;
    }
    proof {
        assert(!is_nan_body(b));
        assert(!is_inf_body(b));
    }
    // The token is a float exactly when it is `Mantissa Exp?`.
    let mut j = start;
    while j < n && !(s.get_char(j) == 'e' || s.get_char(j) == 'E')
        invariant
            start <= j <= n,
            n == s@.len(),
            forall|k: int| start <= k < j ==> s@[k] != 'e' && s@[k] != 'E',
        decreases n - j,
    {
        j = j + 1;
    }
    proof {
        assert(forall|k: int| 0 <= k < j - start ==> b[k] != 'e' && b[k] != 'E');
        lemma_find_exp_is(b, j - start);
    }
    let ghost mant = b.subrange(0, j - start);
    let mut i = start;
    let mut seen_dot = false;
    let mut seen_digit = false;
    let mut ok = true;
    while i < j && ok
        invariant
            start <= i <= j <= n,
            n == s@.len(),
            b =~= s@.subrange(start as int, n as int),
            mant == b.subrange(0, j - start),
            is_mantissa(mant) == (if ok {
                mantissa_from(mant, i - start, seen_dot, seen_digit)
            } else {
                false
            }),
        decreases j - i,
    {
        let c = s.get_char(i);
        proof {
            assert(c == mant[i - start]);
        }
        let cv = c as u32;
        if 48 <= cv && cv <= 57 {
            seen_digit = true;
        } else if c == '.' && !seen_dot {
            seen_dot = true;
        } else {
            ok = false;
        }
        i = i + 1;
    }
    let mant_ok = ok && seen_digit;
    proof {
        if ok {
            assert(mantissa_from(mant, j - start, seen_dot, seen_digit) == seen_digit);
        }
        assert(mant_ok == is_mantissa(mant));
    }
    if j == n {
        proof {
            assert(mant =~= b);
        }
        return mant_ok;
    }
    // Exponent part after the marker: `Sign? Digit+`.
    let ghost e = b.subrange(j - start + 1, n - start);
    let mut k = j + 1;
    if k < n && (s.get_char(k) == '+' || s.get_char(k) == '-') {
        k = k + 1;
    }
    let ghost d = strip_sign(e);
    proof {
        assert(d =~= s@.subrange(k as int, n as int));
    }
    if k == n {
        proof {
            assert(!is_exp_body(e));
        }
        return false;
    }
    let mut exp_ok = true;
    let mut p = k;
    while p < n && exp_ok
        invariant
            k <= p <= n,
            n == s@.len(),
            d =~= s@.subrange(k as int, n as int),
            exp_ok ==> forall|q: int| 0 <= q < p - k ==> is_digit(#[trigger] d[q]),
            !exp_ok ==> !all_digits(d),
        decreases n - p,
    {
        let c = s.get_char(p);
        proof {
            assert(c == d[p - k]);
        }
        let cv = c as u32;
        if !(48 <= cv && cv <= 57) {
            proof {
                assert(!is_digit(d[p - k]));
            }
            exp_ok = false;
        }
        p = p + 1;
    }
    proof {
        if exp_ok {
            assert(all_digits(d));
        }
        assert((exp_ok && d.len() >= 1) == is_exp_body(e));
    }
    mant_ok && exp_ok
}

/// A mantissa holds only digits and periods from the scanned position on.
proof fn lemma_mantissa_chars(m: Seq<char>, i: int, seen_dot: bool, seen_digit: bool)
    requires
        0 <= i,
        mantissa_from(m, i, seen_dot, seen_digit),
    ensures
        forall|j: int| i <= j < m.len() ==> is_digit(#[trigger] m[j]) || m[j] == '.',
    decreases m.len() - i,
{
    if i < m.len() {
        if is_digit(m[i]) {
            lemma_mantissa_chars(m, i + 1, seen_dot, true);
        } else {
            lemma_mantissa_chars(m, i + 1, true, seen_digit);
        }
    }
}

/// A scan over digits alone succeeds as soon as one digit was seen or one
/// position is left.
proof fn lemma_mantissa_digits(m: Seq<char>, i: int, seen_dot: bool, seen_digit: bool)
    requires
        all_digits(m),
        0 <= i <= m.len(),
    ensures
        mantissa_from(m, i, seen_dot, seen_digit) == (seen_digit || i < m.len()),
    decreases m.len() - i,
{
    if i < m.len() {
        lemma_mantissa_digits(m, i + 1, seen_dot, true);
    }
}

/// A non-empty string of decimal digits is a floating-point token.
pub proof fn lemma_digits_float_token(s: Seq<char>)
    requires
        s.len() >= 1,
        all_digits(s),
    ensures
        is_float_token(s),
{
    assert(is_digit(s[0]));
    assert(strip_sign(s) == s);
    lemma_find_exp_is(s, s.len() as int);
    lemma_mantissa_digits(s, 0, false, false);
}

/// No character of a floating-point token is whitespace; in particular none
/// is a tab or a line break, and the token is not empty.
pub proof fn lemma_float_token_plain(s: Seq<char>)
    requires
        is_float_token(s),
    ensures
        s.len() > 0,
        forall|i: int| 0 <= i < s.len() ==> !is_whitespace_char(#[trigger] s[i]),
{
    let b = strip_sign(s);
    assert forall|i: int| 0 <= i < b.len() implies !is_whitespace_char(#[trigger] b[i]) by {
        if is_nan_body(b) || is_inf_body(b) {
        } else {
            let j = find_exp(b);
            lemma_find_exp(b);
            if j == b.len() {
                lemma_mantissa_chars(b, 0, false, false);
            } else {
                let mant = b.subrange(0, j);
                let e = b.subrange(j + 1, b.len() as int);
                lemma_mantissa_chars(mant, 0, false, false);
                let d = strip_sign(e);
                if i < j {
                    assert(b[i] == mant[i]);
                    assert(is_digit(b[i]) || b[i] == '.');
                } else if i == j {
                } else {
                    assert(b[i] == e[i - j - 1]);
                    if e.len() > 0 && (e[0] == '+' || e[0] == '-') {
                        if i - j - 1 > 0 {
                            assert(e[i - j - 1] == d[i - j - 2]);
                            assert(is_digit(b[i]));
                        }
                    } else {
                        assert(e[i - j - 1] == d[i - j - 1]);
                        assert(is_digit(b[i]));
                    }
                }
            }
        }
    }
    if b.len() == 0 {
        assert(!is_mantissa(b));
        assert(b.subrange(0, 0) =~= b);
    }
    assert forall|i: int| 0 <= i < s.len() implies !is_whitespace_char(#[trigger] s[i]) by {
        if s.len() > 0 && (s[0] == '+' || s[0] == '-') {
            if i > 0 {
                assert(s[i] == b[i - 1]);
            }
        } else {
            assert(s[i] == b[i]);
        }
    }
}

} // verus!
