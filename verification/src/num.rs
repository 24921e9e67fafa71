use vstd::prelude::*;

use crate::text::is_whitespace_char;

verus! {

/// A decimal digit.
pub open spec fn is_digit(c: char) -> bool {
    48 <= c as u32 && c as u32 <= 57
}

/// The numeric value of a decimal digit.
pub open spec fn digit_val(c: char) -> int {
    c as u32 - 48
}

/// The decimal digit with value `d`.
pub open spec fn digit_char(d: int) -> char {
    if d == 0 {
        '0'
    } else if d == 1 {
        '1'
    } else if d == 2 {
        '2'
    } else if d == 3 {
        '3'
    } else if d == 4 {
        '4'
    } else if d == 5 {
        '5'
    } else if d == 6 {
        '6'
    } else if d == 7 {
        '7'
    } else if d == 8 {
        '8'
    } else {
        '9'
    }
}

/// Every character of `s` is a decimal digit.
pub open spec fn all_digits(s: Seq<char>) -> bool {
    forall|i: int| 0 <= i < s.len() ==> is_digit(#[trigger] s[i])
}

/// The numeric value of a digit string, most significant digit first.
pub open spec fn digits_val(s: Seq<char>) -> int
    decreases s.len(),
{
    if s.len() == 0 {
        0
    } else {
        digits_val(s.drop_last()) * 10 + digit_val(s.last())
    }
}

/// The digit portion of a numeric token: `u8`/`u32` textual parsers accept
/// one optional leading `+` sign before the digits.
pub open spec fn unsigned_body(s: Seq<char>) -> Seq<char> {
    if s.len() > 0 && s[0] == '+' {
        s.drop_first()
    } else {
        s
    }
}

/// What `str::parse::<u32>` returns: an optional `+` sign, then at least one
/// digit, and a value that fits in 32 bits.
pub open spec fn parse_u32_spec(s: Seq<char>) -> Option<u32> {
    let ds = unsigned_body(s);
    if ds.len() > 0 && all_digits(ds) && digits_val(ds) <= u32::MAX {
        Some(digits_val(ds) as u32)
    } else {
        None
    }
}

/// What `str::parse::<u8>` returns.
pub open spec fn parse_u8_spec(s: Seq<char>) -> Option<u8> {
    let ds = unsigned_body(s);
    if ds.len() > 0 && all_digits(ds) && digits_val(ds) <= u8::MAX {
        Some(digits_val(ds) as u8)
    } else {
        None
    }
}

/// A digit string has a non-negative value.
pub proof fn lemma_digits_val_nonneg(s: Seq<char>)
    requires
        all_digits(s),
    ensures
        digits_val(s) >= 0,
    decreases s.len(),
{
    if s.len() > 0 {
        lemma_digits_val_nonneg(s.drop_last());
    }
}

/// Extending a digit prefix by one digit multiplies its value by ten and adds
/// the digit.
proof fn lemma_digits_val_extend(s: Seq<char>, i: int)
    requires
        0 <= i < s.len(),
    ensures
        digits_val(s.subrange(0, i + 1)) == digits_val(s.subrange(0, i)) * 10 + digit_val(s[i]),
{
    let t = s.subrange(0, i + 1);
    assert(t.drop_last() =~= s.subrange(0, i));
    assert(t.last() == s[i]);
}

/// The value of a digit string is at least the value of any of its prefixes.
pub proof fn lemma_digits_val_prefix_le(s: Seq<char>, i: int)
    requires
        all_digits(s),
        0 <= i <= s.len(),
    ensures
        digits_val(s.subrange(0, i)) <= digits_val(s),
    decreases s.len() - i,
{
    if i == s.len() {
        assert(s.subrange(0, i) =~= s);
    } else {
        let p = s.subrange(0, i);
        assert(all_digits(p));
        lemma_digits_val_nonneg(p);
        lemma_digits_val_extend(s, i);
        assert(digits_val(s.subrange(0, i + 1)) >= digits_val(p));
        lemma_digits_val_prefix_le(s, i + 1);
    }
}

/// Parse an unsigned 32-bit decimal token, as `str::parse::<u32>` does.
pub fn parse_u32(s: &str) -> (r: Option<u32>)
    ensures
        r == parse_u32_spec(s@),
{
    let n = s.unicode_len();
    let start: usize = if n > 0 && s.get_char(0) == '+' {
        1
    } else {
        0
    };
    let ghost ds = unsigned_body(s@);
    proof {
        assert(ds =~= s@.subrange(start as int, n as int));
    }
    if start == n {
        return None;
    }
    let mut acc: u32 = 0;
    let mut i = start;
    while i < n
        invariant
            start <= i <= n,
            n == s@.len(),
            ds == unsigned_body(s@),
            ds =~= s@.subrange(start as int, n as int),
            forall|j: int| 0 <= j < i - start ==> is_digit(#[trigger] ds[j]),
            acc == digits_val(ds.subrange(0, i - start)),
        decreases n - i,
    {
        let c = s.get_char(i);
        let cv = c as u32;
        proof {
            assert(c == ds[i - start]);
        }
        if !(48 <= cv && cv <= 57) {
            assert(!is_digit(ds[i - start]));
            assert(!all_digits(ds));
            return None;
        }
        let d = cv - 48;
        proof {
            lemma_digits_val_extend(ds, i - start);
        }
        let widened = match acc.checked_mul(10) {
            Some(m) => m.checked_add(d),
            None => None,
        };
        match widened {
            Some(next) => {
                acc = next;
            },
            None => {
                proof {
                    if all_digits(ds) {
                        lemma_digits_val_nonneg(ds.subrange(0, i - start));
                        lemma_digits_val_prefix_le(ds, i - start + 1);
                    }
                }
                return None;
            },
        }
        i = i + 1;
    }
    proof {
        assert(ds.subrange(0, n - start) =~= ds);
    }
    Some(acc)
}

/// Parse an unsigned 8-bit decimal token, as `str::parse::<u8>` does.
pub fn parse_u8(s: &str) -> (r: Option<u8>)
    ensures
        r == parse_u8_spec(s@),
{
    let wide = parse_u32(s);
    proof {
        let ds = unsigned_body(s@);
        if ds.len() > 0 && all_digits(ds) {
            lemma_digits_val_nonneg(ds);
        }
    }
    match wide {
        Some(v) if v <= 255 => Some(v as u8),
        _ => None,
    }
}

/// The decimal digits of `n`, most significant first and without leading
/// zeros, as `u32`'s `Display` writes them.
pub open spec fn dec_digits(n: int) -> Seq<char>
    decreases n,
{
    if n < 10 {
        seq![digit_char(n)]
    } else {
        dec_digits(n / 10) + seq![digit_char(n % 10)]
    }
}

/// The digits of `n` are digits, carry the value `n`, and begin with a digit
/// (never a sign or whitespace).
pub proof fn lemma_dec_digits(n: int)
    requires
        n >= 0,
    ensures
        dec_digits(n).len() >= 1,
        all_digits(dec_digits(n)),
        digits_val(dec_digits(n)) == n,
    decreases n,
{
    if n < 10 {
        assert(digits_val(seq![digit_char(n)].drop_last()) == 0);
    } else {
        lemma_dec_digits(n / 10);
        let s = dec_digits(n);
        assert(s.drop_last() =~= dec_digits(n / 10));
        assert(s.last() == digit_char(n % 10));
        assert(forall|i: int|
            0 <= i < s.len() ==> #[trigger] s[i] == if i < s.len() - 1 {
                dec_digits(n / 10)[i]
            } else {
                digit_char(n % 10)
            });
    }
}

/// No decimal digit is whitespace, a tab, a sign or a dash.
pub proof fn lemma_digits_plain(s: Seq<char>)
    requires
        all_digits(s),
    ensures
        forall|i: int|
            0 <= i < s.len() ==> !is_whitespace_char(#[trigger] s[i]) && s[i] != '\t' && s[i] != '+'
                && s[i] != '-' && s[i] != '\n',
{
}

/// Formatting an unsigned 32-bit value and parsing the digits back returns
/// the same value.
pub proof fn lemma_parse_dec_digits(n: int)
    requires
        0 <= n <= u32::MAX,
    ensures
        parse_u32_spec(dec_digits(n)) == Some(n as u32),
        n <= u8::MAX ==> parse_u8_spec(dec_digits(n)) == Some(n as u8),
{
    lemma_dec_digits(n);
    let s = dec_digits(n);
    assert(is_digit(s[0]));
    assert(s[0] != '+');
    assert(unsigned_body(s) == s);
}

/// The decimal digit with value `d`, as text.
fn digit_str(d: u32) -> (r: &'static str)
    requires
        d < 10,
    ensures
        r@ =~= seq![digit_char(d as int)],
{
    proof {
        reveal_strlit("0");
        reveal_strlit("1");
        reveal_strlit("2");
        reveal_strlit("3");
        reveal_strlit("4");
        reveal_strlit("5");
        reveal_strlit("6");
        reveal_strlit("7");
        reveal_strlit("8");
        reveal_strlit("9");
    }
    match d {
        0 => "0",
        1 => "1",
        2 => "2",
        3 => "3",
        4 => "4",
        5 => "5",
        6 => "6",
        7 => "7",
        8 => "8",
        _ => "9",
    }
}

/// Write `n` in decimal, as `u32`'s `Display` does.
pub fn format_u32(n: u32) -> (r: String)
    ensures
        r@ == dec_digits(n as int),
    decreases n,
{
    if n < 10 {
        let mut r = String::new();
        r.append(digit_str(n));
        proof {
            assert(r@ =~= seq![digit_char(n as int)]);
        }
        r
    } else {
        let mut r = format_u32(n / 10);
        r.append(digit_str(n % 10));
        proof {
            assert(r@ =~= dec_digits((n / 10) as int) + seq![digit_char((n % 10) as int)]);
        }
        r
    }
}

} // verus!
