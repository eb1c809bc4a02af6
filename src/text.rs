use vstd::prelude::*;
use vstd::string::*;

verus! {

/// A fresh string holding the characters `from..to` of `s`.
pub fn slice_to_string(s: &str, from: usize, to: usize) -> (r: String)
    requires
        from <= to <= s@.len(),
    ensures
        r@ == s@.subrange(from as int, to as int),
{
    String::from_str(s.substring_char(from, to))
}

/// Whether the character `c` appears in `s` from position `from` on.
pub open spec fn occurs_from(s: Seq<char>, c: char, from: int) -> bool {
    exists|i: int| from <= i < s.len() && s[i] == c
}

/// Looks for `c` in `s` from position `from` on.
pub fn contains_char_from(s: &str, c: char, from: usize) -> (r: bool)
    requires
        from <= s@.len(),
    ensures
        r == occurs_from(s@, c, from as int),
{
    let n = s.unicode_len();
    let mut i: usize = from;
    while i < n
        invariant
            from <= i <= n,
            n == s@.len(),
            forall|j: int| from <= j < i ==> s@[j] != c,
        decreases n - i,
    {
        if s.get_char(i) == c {
            return true;
        }
        i = i + 1;
    }
    false
}

/// The position of the first `c` in `s` at or after `from`, or the length of
/// `s` when there is none.
pub open spec fn next_index_of(s: Seq<char>, c: char, from: int) -> int
    decreases s.len() - from,
{
    if from >= s.len() {
        s.len() as int
    } else if s[from] == c {
        from
    } else {
        next_index_of(s, c, from + 1)
    }
}

pub proof fn lemma_next_index_of(s: Seq<char>, c: char, from: int)
    requires
        0 <= from <= s.len(),
    ensures
        from <= next_index_of(s, c, from) <= s.len(),
        next_index_of(s, c, from) < s.len() ==> s[next_index_of(s, c, from)] == c,
        forall|j: int| from <= j < next_index_of(s, c, from) ==> s[j] != c,
    decreases s.len() - from,
{
    if from < s.len() && s[from] != c {
        lemma_next_index_of(s, c, from + 1);
    }
}

/// Finds the first `c` in `s` at or after `from`.
pub fn index_of_from(s: &str, n: usize, c: char, from: usize) -> (r: usize)
    requires
        n == s@.len(),
        from <= n,
    ensures
        r == next_index_of(s@, c, from as int),
{
    let mut i: usize = from;
    while i < n
        invariant
            from <= i <= n,
            n == s@.len(),
            next_index_of(s@, c, from as int) == next_index_of(s@, c, i as int),
        decreases n - i,
    {
        if s.get_char(i) == c {
            return i;
        }
        i = i + 1;
    }
    i
}

} // verus!

verus! {

/// `p` moved past one space, if a space stands there.
pub open spec fn skip_space(l: Seq<char>, p: int) -> int {
    if 0 <= p < l.len() && l[p] == ' ' {
        p + 1
    } else {
        p
    }
}

pub fn skip_space_exec(s: &str, n: usize, p: usize) -> (r: usize)
    requires
        n == s@.len(),
        p <= n,
    ensures
        r == skip_space(s@, p as int),
        r <= n,
{
    if p < n && s.get_char(p) == ' ' {
        p + 1
    } else {
        p
    }
}

/// The lines of a text from position `p` on, split at `\n`, with a `\r`
/// before the `\n` taken off; no empty line is made after a final `\n`.
pub open spec fn lines_from(s: Seq<char>, p: int) -> Seq<Seq<char>>
    decreases s.len() + 1 - p,
    via lines_from_decreases
{
    if p < 0 || p >= s.len() {
        Seq::empty()
    } else {
        let e = next_index_of(s, '\n', p);
        let end = if e < s.len() && e > p && s[e - 1] == '\r' {
            e - 1
        } else {
            e
        };
        seq![s.subrange(p, end)] + lines_from(s, e + 1)
    }
}

#[via_fn]
proof fn lines_from_decreases(s: Seq<char>, p: int) {
    if 0 <= p < s.len() {
        lemma_next_index_of(s, '\n', p);
    }
}

/// The lines of a text.
pub open spec fn lines_of(s: Seq<char>) -> Seq<Seq<char>> {
    lines_from(s, 0)
}

/// The views of a list of strings.
pub open spec fn views(v: Seq<String>) -> Seq<Seq<char>> {
    v.map_values(|x: String| x@)
}

/// Splits a text into its lines.
pub fn split_lines(s: &str) -> (r: Vec<String>)
    ensures
        views(r@) == lines_of(s@),
{
    let n = s.unicode_len();
    let mut out: Vec<String> = Vec::new();
    let mut p: usize = 0;
    while p < n
        invariant
            p <= n,
            n == s@.len(),
            lines_of(s@) == views(out@) + lines_from(s@, p as int),
        decreases n - p,
    {
        let e = index_of_from(s, n, '\n', p);
        proof {
            lemma_next_index_of(s@, '\n', p as int);
        }
        let end = if e < n && e > p && s.get_char(e - 1) == '\r' {
            e - 1
        } else {
            e
        };
        let line = slice_to_string(s, p, end);
        proof {
            assert(lines_from(s@, p as int) == seq![line@] + lines_from(s@, e + 1));
            assert(views(out@.push(line)) =~= views(out@).push(line@));
            assert(views(out@) + lines_from(s@, p as int) =~= views(out@.push(line))
                + lines_from(s@, e + 1));
        }
        out.push(line);
        if e < n {
            p = e + 1;
        } else {
            assert(lines_from(s@, e + 1) =~= lines_from(s@, n as int));
            p = n;
        }
    }
    assert(lines_from(s@, p as int) =~= Seq::<Seq<char>>::empty());
    assert(views(out@) + lines_from(s@, p as int) =~= views(out@));
    out
}

} // verus!

verus! {

/// The position of the last `c` among the first `end` characters of `s`, or
/// -1 when there is none.
pub open spec fn last_index_before(s: Seq<char>, c: char, end: int) -> int
    decreases end,
{
    if end <= 0 {
        -1
    } else if s[end - 1] == c {
        end - 1
    } else {
        last_index_before(s, c, end - 1)
    }
}

pub proof fn lemma_last_index_before(s: Seq<char>, c: char, end: int)
    requires
        0 <= end <= s.len(),
    ensures
        -1 <= last_index_before(s, c, end) < end,
        last_index_before(s, c, end) >= 0 ==> s[last_index_before(s, c, end)] == c,
    decreases end,
{
    if end > 0 && s[end - 1] != c {
        lemma_last_index_before(s, c, end - 1);
    }
}

/// Finds the last `c` among the first `n` characters of `s`.
pub fn last_index_of(s: &str, n: usize, c: char) -> (r: Option<usize>)
    requires
        n <= s@.len(),
    ensures
        match r {
            Some(i) => i as int == last_index_before(s@, c, n as int),
            None => last_index_before(s@, c, n as int) == -1,
        },
{
    let mut end: usize = n;
    while end > 0
        invariant
            end <= n,
            n <= s@.len(),
            last_index_before(s@, c, n as int) == last_index_before(s@, c, end as int),
        decreases end,
    {
        if s.get_char(end - 1) == c {
            return Some(end - 1);
        }
        end = end - 1;
    }
    None
}

} // verus!

verus! {

/// Whether text `a` comes after text `b` in the order of character codes,
/// a text coming after each of its proper prefixes.
pub open spec fn chars_after(a: Seq<char>, b: Seq<char>) -> bool
    decreases a.len(),
{
    if a.len() == 0 {
        false
    } else if b.len() == 0 {
        true
    } else if a[0] != b[0] {
        (a[0] as u32) > (b[0] as u32)
    } else {
        chars_after(a.drop_first(), b.drop_first())
    }
}

/// Compares two texts by character codes.
pub fn chars_after_exec(a: &str, b: &str) -> (r: bool)
    ensures
        r == chars_after(a@, b@),
{
    let n = a.unicode_len();
    let m = b.unicode_len();
    let mut i: usize = 0;
    assert(a@.subrange(0, n as int) =~= a@);
    assert(b@.subrange(0, m as int) =~= b@);
    while i < n && i < m
        invariant
            i <= n,
            i <= m,
            n == a@.len(),
            m == b@.len(),
            chars_after(a@, b@) == chars_after(
                a@.subrange(i as int, n as int),
                b@.subrange(i as int, m as int),
            ),
        decreases n - i,
    {
        let x = a.get_char(i);
        let y = b.get_char(i);
        proof {
            let sa = a@.subrange(i as int, n as int);
            let sb = b@.subrange(i as int, m as int);
            assert(sa[0] == x && sb[0] == y);
            assert(sa.drop_first() =~= a@.subrange(i + 1, n as int));
            assert(sb.drop_first() =~= b@.subrange(i + 1, m as int));
        }
        if x != y {
            return (x as u32) > (y as u32);
        }
        i = i + 1;
    }
    i < n
}

} // verus!
