use vstd::prelude::*;

verus! {

/// The Unicode `White_Space` characters, the set `str::trim` strips.
pub open spec fn is_whitespace_char(c: char) -> bool {
    let n = c as u32;
    n == 0x09 || n == 0x0A || n == 0x0B || n == 0x0C || n == 0x0D || n == 0x20 || n == 0x85
        || n == 0xA0 || n == 0x1680 || (0x2000 <= n && n <= 0x200A) || n == 0x2028 || n == 0x2029
        || n == 0x202F || n == 0x205F || n == 0x3000
}

/// Runtime test for [`is_whitespace_char`].
pub fn whitespace_char(c: char) -> (r: bool)
    ensures
        r == is_whitespace_char(c),
{
    let n = c as u32;
    n == 0x09 || n == 0x0A || n == 0x0B || n == 0x0C || n == 0x0D || n == 0x20 || n == 0x85
        || n == 0xA0 || n == 0x1680 || (0x2000 <= n && n <= 0x200A) || n == 0x2028 || n == 0x2029
        || n == 0x202F || n == 0x205F || n == 0x3000
}

/// The characters left after stripping leading whitespace.
pub open spec fn trim_start_spec(s: Seq<char>) -> Seq<char>
    decreases s.len(),
{
    if s.len() > 0 && is_whitespace_char(s[0]) {
        trim_start_spec(s.drop_first())
    } else {
        s
    }
}

/// The characters left after stripping trailing whitespace.
pub open spec fn trim_end_spec(s: Seq<char>) -> Seq<char>
    decreases s.len(),
{
    if s.len() > 0 && is_whitespace_char(s.last()) {
        trim_end_spec(s.drop_last())
    } else {
        s
    }
}

/// The characters left after stripping whitespace from both ends.
pub open spec fn trim_spec(s: Seq<char>) -> Seq<char> {
    trim_end_spec(trim_start_spec(s))
}

proof fn lemma_trim_start_subrange(s: Seq<char>, i: int)
    requires
        0 <= i <= s.len(),
        forall|j: int| 0 <= j < i ==> is_whitespace_char(s[j]),
        i < s.len() ==> !is_whitespace_char(s[i]),
    ensures
        trim_start_spec(s) == s.subrange(i, s.len() as int),
    decreases i,
{
    if i == 0 {
        if s.len() == 0 || !is_whitespace_char(s[0]) {
            assert(trim_start_spec(s) == s);
            assert(s.subrange(0, s.len() as int) =~= s);
        }
    } else {
        let t = s.drop_first();
        assert(is_whitespace_char(s[0]));
        assert(forall|j: int| 0 <= j < i - 1 ==> is_whitespace_char(t[j]));
        lemma_trim_start_subrange(t, i - 1);
        assert(t.subrange(i - 1, t.len() as int) =~= s.subrange(i, s.len() as int));
    }
}

proof fn lemma_trim_end_subrange(s: Seq<char>, i: int)
    requires
        0 <= i <= s.len(),
        forall|j: int| i <= j < s.len() ==> is_whitespace_char(s[j]),
        i > 0 ==> !is_whitespace_char(s[i - 1]),
    ensures
        trim_end_spec(s) == s.subrange(0, i),
    decreases s.len() - i,
{
    if i == s.len() {
        if s.len() == 0 || !is_whitespace_char(s.last()) {
            assert(trim_end_spec(s) == s);
            assert(s.subrange(0, s.len() as int) =~= s);
        }
    } else {
        let t = s.drop_last();
        assert(is_whitespace_char(s.last()));
        assert(forall|j: int| i <= j < t.len() ==> is_whitespace_char(t[j]));
        lemma_trim_end_subrange(t, i);
        assert(t.subrange(0, i) =~= s.subrange(0, i));
    }
}

/// Strip leading and trailing whitespace, as `str::trim` does.
pub fn trim(s: &str) -> (r: &str)
    ensures
        r@ == trim_spec(s@),
{
    let n = s.unicode_len();
    let mut start: usize = 0;
    while start < n && whitespace_char(s.get_char(start))
        invariant
            0 <= start <= n,
            n == s@.len(),
            forall|j: int| 0 <= j < start ==> is_whitespace_char(s@[j]),
        decreases n - start,
    {
        start = start + 1;
    }
    proof {
        lemma_trim_start_subrange(s@, start as int);
    }
    let mut end: usize = n;
    while end > start && whitespace_char(s.get_char(end - 1))
        invariant
            start <= end <= n,
            n == s@.len(),
            forall|j: int| end <= j < n ==> is_whitespace_char(s@[j]),
        decreases end,
    {
        end = end - 1;
    }
    proof {
        let t = s@.subrange(start as int, n as int);
        assert(forall|j: int| end - start <= j < t.len() ==> is_whitespace_char(t[j]));
        lemma_trim_end_subrange(t, end - start);
        assert(t.subrange(0, end - start) =~= s@.subrange(start as int, end as int));
    }
    s.substring_char(start, end)
}

/// Index of the first occurrence of `c` in `s`, or `s.len()` if `c` does not
/// occur.
pub open spec fn find_char(s: Seq<char>, c: char) -> int
    decreases s.len(),
{
    if s.len() == 0 {
        0
    } else if s[0] == c {
        0
    } else {
        1 + find_char(s.drop_first(), c)
    }
}

pub proof fn lemma_find_char(s: Seq<char>, c: char)
    ensures
        0 <= find_char(s, c) <= s.len(),
        forall|j: int| 0 <= j < find_char(s, c) ==> s[j] != c,
        find_char(s, c) < s.len() ==> s[find_char(s, c)] == c,
    decreases s.len(),
{
    if s.len() > 0 && s[0] != c {
        let t = s.drop_first();
        lemma_find_char(t, c);
        assert forall|j: int| 0 <= j < find_char(s, c) implies s[j] != c by {
            if j > 0 {
                assert(s[j] == t[j - 1]);
            }
        }
    }
}

/// `find_char` is determined by its characterization: the first index holding
/// `c`, or the length when none does.
pub proof fn lemma_find_char_is(s: Seq<char>, c: char, i: int)
    requires
        0 <= i <= s.len(),
        forall|j: int| 0 <= j < i ==> s[j] != c,
        i < s.len() ==> s[i] == c,
    ensures
        find_char(s, c) == i,
    decreases i,
{
    if s.len() == 0 {
    } else if i == 0 {
    } else {
        assert(s[0] != c);
        let t = s.drop_first();
        assert(forall|j: int| 0 <= j < i - 1 ==> t[j] != c);
        lemma_find_char_is(t, c, i - 1);
    }
}

/// The chunks of `s` between occurrences of the separator `c`; always at
/// least one chunk, as `str::split` yields.
pub open spec fn split_char(s: Seq<char>, c: char) -> Seq<Seq<char>>
    decreases s.len(),
    via split_char_decreases
{
    let i = find_char(s, c);
    if i == s.len() {
        seq![s]
    } else {
        seq![s.subrange(0, i)] + split_char(s.subrange(i + 1, s.len() as int), c)
    }
}

#[via_fn]
proof fn split_char_decreases(s: Seq<char>, c: char) {
    lemma_find_char(s, c);
}

/// Every chunk `split_char` yields is free of the separator.
pub proof fn lemma_split_char_free(s: Seq<char>, c: char)
    ensures
        split_char(s, c).len() >= 1,
        forall|k: int, j: int|
            0 <= k < split_char(s, c).len() && 0 <= j < split_char(s, c)[k].len()
                ==> #[trigger] split_char(s, c)[k][j] != c,
    decreases s.len(),
{
    lemma_find_char(s, c);
    let i = find_char(s, c);
    if i < s.len() {
        lemma_split_char_free(s.subrange(i + 1, s.len() as int), c);
    }
}

/// Index of the first occurrence of `c` at or after `from`, or `s@.len()`.
fn find_char_from(s: &str, c: char, from: usize) -> (r: usize)
    requires
        from <= s@.len(),
    ensures
        from <= r <= s@.len(),
        r - from == find_char(s@.subrange(from as int, s@.len() as int), c),
{
    let n = s.unicode_len();
    let mut i = from;
    while i < n && s.get_char(i) != c
        invariant
            from <= i <= n,
            n == s@.len(),
            forall|j: int| from <= j < i ==> s@[j] != c,
        decreases n - i,
    {
        i = i + 1;
    }
    proof {
        let t = s@.subrange(from as int, n as int);
        assert(forall|j: int| 0 <= j < i - from ==> t[j] != c);
        lemma_find_char_is(t, c, i - from);
    }
    i
}

/// Split `s` on the separator `c`, as `str::split` does.
pub fn split(s: &str, c: char) -> (r: Vec<String>)
    ensures
        r@.len() == split_char(s@, c).len(),
        forall|k: int| 0 <= k < r@.len() ==> r@[k]@ == split_char(s@, c)[k],
    decreases s@.len(),
{
    let n = s.unicode_len();
    let i = find_char_from(s, c, 0);
    proof {
        assert(s@.subrange(0, n as int) =~= s@);
    }
    if i == n {
        let mut r: Vec<String> = Vec::new();
        r.push(String::from_str(s));
        r
    } else {
        let head = s.substring_char(0, i);
        let tail = s.substring_char(i + 1, n);
        let mut r: Vec<String> = Vec::new();
        r.push(String::from_str(head));
        let mut rest = split(tail, c);
        let ghost split_rest = split_char(tail@, c);
        let mut k: usize = 0;
        let ghost whole = split_char(s@, c);
        proof {
            assert(whole == seq![s@.subrange(0, i as int)] + split_rest);
        }
        while k < rest.len()
            invariant
                0 <= k <= rest.len(),
                rest@.len() == split_rest.len(),
                forall|j: int| 0 <= j < rest@.len() ==> rest@[j]@ == split_rest[j],
                r@.len() == 1 + k,
                r@[0]@ == s@.subrange(0, i as int),
                forall|j: int| 1 <= j < r@.len() ==> r@[j]@ == split_rest[j - 1],
            decreases rest.len() - k,
        {
            let piece = rest[k].clone();
            assert(piece@ == split_rest[k as int]);
            r.push(piece);
            k = k + 1;
        }
        r
    }
}

/// A string whose first and last characters are not whitespace is its own
/// trimming.
pub proof fn lemma_trim_id(s: Seq<char>)
    requires
        s.len() > 0,
        !is_whitespace_char(s[0]),
        !is_whitespace_char(s.last()),
    ensures
        trim_spec(s) == s,
{
}

/// The chunks, joined back with the separator between them.
pub open spec fn join_char(toks: Seq<Seq<char>>, c: char) -> Seq<char>
    decreases toks.len(),
{
    if toks.len() == 0 {
        Seq::empty()
    } else if toks.len() == 1 {
        toks[0]
    } else {
        toks[0] + seq![c] + join_char(toks.drop_first(), c)
    }
}

/// Joining one more chunk appends a separator and the chunk.
pub proof fn lemma_join_push(toks: Seq<Seq<char>>, c: char, t: Seq<char>)
    ensures
        join_char(toks.push(t), c) == if toks.len() == 0 {
            t
        } else {
            join_char(toks, c) + seq![c] + t
        },
    decreases toks.len(),
{
    let p = toks.push(t);
    if toks.len() == 0 {
        assert(p.len() == 1);
        assert(p[0] == t);
    } else {
        assert(p.drop_first() =~= toks.drop_first().push(t));
        lemma_join_push(toks.drop_first(), c, t);
        if toks.len() == 1 {
            assert(join_char(p, c) == p[0] + seq![c] + join_char(p.drop_first(), c));
            assert(join_char(p, c) == toks[0] + seq![c] + t);
            assert(join_char(toks, c) == toks[0]);
        } else {
            assert(join_char(p, c) == p[0] + seq![c] + join_char(p.drop_first(), c));
            assert(join_char(p.drop_first(), c) == join_char(toks.drop_first(), c) + seq![c] + t);
            assert(join_char(toks, c) == toks[0] + seq![c] + join_char(toks.drop_first(), c));
            assert(toks[0] + seq![c] + (join_char(toks.drop_first(), c) + seq![c] + t) =~= (toks[0]
                + seq![c] + join_char(toks.drop_first(), c)) + seq![c] + t);
        }
    }
}

/// The joined text starts with the first chunk's first character and ends
/// with the last chunk's last character.
pub proof fn lemma_join_ends(toks: Seq<Seq<char>>, c: char)
    requires
        toks.len() >= 1,
    ensures
        toks.len() >= 2 ==> join_char(toks, c).len() > 0,
        toks[0].len() > 0 ==> join_char(toks, c).len() > 0 && join_char(toks, c)[0] == toks[0][0],
        toks.last().len() > 0 ==> join_char(toks, c).len() > 0 && join_char(toks, c).last()
            == toks.last().last(),
    decreases toks.len(),
{
    if toks.len() == 1 {
    } else {
        let rest = toks.drop_first();
        lemma_join_ends(rest, c);
        assert(rest.last() == toks.last());
        let j = join_char(toks, c);
        assert(j == toks[0] + seq![c] + join_char(rest, c));
        assert(j.len() >= toks[0].len() + 1);
        if toks[0].len() > 0 {
            assert(j[0] == toks[0][0]);
        }
        if toks.last().len() > 0 {
            if rest.len() >= 2 {
                assert(join_char(rest, c).len() > 0);
                assert(j.last() == join_char(rest, c).last());
            } else {
                assert(join_char(rest, c) == rest[0]);
                assert(j.last() == join_char(rest, c).last());
            }
        }
    }
}

/// Splitting the joined chunks on the separator returns the chunks, as long
/// as no chunk holds the separator itself.
pub proof fn lemma_split_join(toks: Seq<Seq<char>>, c: char)
    requires
        toks.len() >= 1,
        forall|k: int, j: int|
            0 <= k < toks.len() && 0 <= j < toks[k].len() ==> #[trigger] toks[k][j] != c,
    ensures
        split_char(join_char(toks, c), c) == toks,
    decreases toks.len(),
{
    let j = join_char(toks, c);
    if toks.len() == 1 {
        assert(forall|i: int| 0 <= i < j.len() ==> j[i] != c);
        lemma_find_char_is(j, c, j.len() as int);
        assert(split_char(j, c) =~= toks);
    } else {
        let rest = toks.drop_first();
        let head = toks[0];
        assert(j == head + seq![c] + join_char(rest, c));
        assert forall|i: int| 0 <= i < head.len() implies j[i] != c by {
            assert(j[i] == head[i]);
        }
        assert(j[head.len() as int] == c);
        lemma_find_char_is(j, c, head.len() as int);
        assert(j.subrange(0, head.len() as int) =~= head);
        assert(j.subrange(head.len() as int + 1, j.len() as int) =~= join_char(rest, c));
        assert forall|k: int, j2: int|
            0 <= k < rest.len() && 0 <= j2 < rest[k].len() implies #[trigger] rest[k][j2] != c by {
            assert(rest[k] == toks[k + 1]);
            assert(toks[k + 1][j2] != c);
        }
        lemma_split_join(rest, c);
        assert(split_char(j, c) == seq![head] + split_char(join_char(rest, c), c));
        assert(seq![head] + rest =~= toks);
    }
}

/// `s` without a single trailing carriage return, if one is there.
pub open spec fn strip_cr(s: Seq<char>) -> Seq<char> {
    if s.len() > 0 && s.last() == '\r' {
        s.drop_last()
    } else {
        s
    }
}

/// The lines of `s`, as `str::lines` yields them: chunks split at `'\n'`,
/// with a `'\r'` directly before the `'\n'` stripped, and no final empty
/// chunk after a trailing line ending.
pub open spec fn lines_spec(s: Seq<char>) -> Seq<Seq<char>>
    decreases s.len(),
    via lines_spec_decreases
{
    if s.len() == 0 {
        Seq::empty()
    } else {
        let i = find_char(s, '\n');
        if i == s.len() {
            seq![s]
        } else {
            seq![strip_cr(s.subrange(0, i))] + lines_spec(s.subrange(i + 1, s.len() as int))
        }
    }
}

#[via_fn]
proof fn lines_spec_decreases(s: Seq<char>) {
    lemma_find_char(s, '\n');
}

/// Split `s` into lines, as `str::lines` does.
pub fn lines(s: &str) -> (r: Vec<String>)
    ensures
        r@.len() == lines_spec(s@).len(),
        forall|k: int| 0 <= k < r@.len() ==> r@[k]@ == lines_spec(s@)[k],
    decreases s@.len(),
{
    let n = s.unicode_len();
    if n == 0 {
        return Vec::new();
    }
    let i = find_char_from(s, '\n', 0);
    proof {
        assert(s@.subrange(0, n as int) =~= s@);
    }
    if i == n {
        let mut r: Vec<String> = Vec::new();
        r.push(String::from_str(s));
        r
    } else {
        let head_end = if i > 0 && s.get_char(i - 1) == '\r' {
            i - 1
        } else {
            i
        };
        let head = s.substring_char(0, head_end);
        proof {
            let chunk = s@.subrange(0, i as int);
            if i > 0 && s@[i as int - 1] == '\r' {
                assert(chunk.last() == '\r');
                assert(chunk.drop_last() =~= s@.subrange(0, i as int - 1));
            }
            assert(head@ == strip_cr(chunk));
        }
        let tail = s.substring_char(i + 1, n);
        let mut rest = lines(tail);
        let ghost rest_lines = lines_spec(tail@);
        let ghost whole = lines_spec(s@);
        proof {
            assert(whole == seq![strip_cr(s@.subrange(0, i as int))] + rest_lines);
        }
        let mut r: Vec<String> = Vec::new();
        r.push(String::from_str(head));
        let mut k: usize = 0;
        while k < rest.len()
            invariant
                0 <= k <= rest.len(),
                rest@.len() == rest_lines.len(),
                forall|j: int| 0 <= j < rest@.len() ==> rest@[j]@ == rest_lines[j],
                r@.len() == 1 + k,
                r@[0]@ == strip_cr(s@.subrange(0, i as int)),
                forall|j: int| 1 <= j < r@.len() ==> r@[j]@ == rest_lines[j - 1],
            decreases rest.len() - k,
        {
            let piece = rest[k].clone();
            assert(piece@ == rest_lines[k as int]);
            r.push(piece);
            k = k + 1;
        }
        r
    }
}

/// A banner line: the probe firmware marks session boundaries with a line
/// whose trimmed text starts with the two-character marker `--`.
pub open spec fn is_banner(s: Seq<char>) -> bool {
    s.len() >= 2 && s[0] == '-' && s[1] == '-'
}

/// Runtime test for [`is_banner`].
pub fn banner(s: &str) -> (r: bool)
    ensures
        r == is_banner(s@),
{
    s.unicode_len() >= 2 && s.get_char(0) == '-' && s.get_char(1) == '-'
}

} // verus!
