//! Character-level helpers shared by the parsers: conversion between `&str`
//! and `Vec<char>`, Unicode whitespace, trimming.

use vstd::prelude::*;

verus! {

/// `char::is_whitespace`: the Unicode `White_Space` property.
pub open spec fn is_ws(c: char) -> bool {
    ||| c == '\t' || c == '\n' || c == '\u{0B}' || c == '\u{0C}' || c == '\r' || c == ' '
    ||| c == '\u{85}' || c == '\u{A0}' || c == '\u{1680}'
    ||| ('\u{2000}' <= c && c <= '\u{200A}')
    ||| c == '\u{2028}' || c == '\u{2029}' || c == '\u{202F}' || c == '\u{205F}' || c == '\u{3000}'
}

pub fn is_whitespace(c: char) -> (b: bool)
    ensures
        b == is_ws(c),
{
    c == '\t' || c == '\n' || c == '\u{0B}' || c == '\u{0C}' || c == '\r' || c == ' '
        || c == '\u{85}' || c == '\u{A0}' || c == '\u{1680}' || ('\u{2000}' <= c && c <= '\u{200A}')
        || c == '\u{2028}' || c == '\u{2029}' || c == '\u{202F}' || c == '\u{205F}' || c == '\u{3000}'
}

/// The characters of a string slice, in order.
pub fn chars_of(s: &str) -> (v: Vec<char>)
    ensures
        v@ == s@,
{
    let mut v: Vec<char> = Vec::new();
    for c in it: s.chars()
        invariant
            v@ == it.history(),
    {
        v.push(c);
    }
    v
}


/// Drop leading whitespace (`str::trim_start`).
pub open spec fn trim_start(s: Seq<char>) -> Seq<char>
    decreases s.len(),
{
    if s.len() > 0 && is_ws(s[0]) {
        trim_start(s.drop_first())
    } else {
        s
    }
}

/// Drop trailing whitespace (`str::trim_end`).
pub open spec fn trim_end(s: Seq<char>) -> Seq<char>
    decreases s.len(),
{
    if s.len() > 0 && is_ws(s.last()) {
        trim_end(s.drop_last())
    } else {
        s
    }
}

/// Drop whitespace on both sides (`str::trim`).
pub open spec fn trim(s: Seq<char>) -> Seq<char> {
    trim_end(trim_start(s))
}

/// The first position at or after `lo` (below `hi`) that is not whitespace.
pub fn skip_ws(v: &Vec<char>, lo: usize, hi: usize) -> (a: usize)
    requires
        lo <= hi <= v@.len(),
    ensures
        lo <= a <= hi,
        v@.subrange(a as int, hi as int) == trim_start(v@.subrange(lo as int, hi as int)),
{
    let mut i = lo;
    while i < hi && is_whitespace(v[i])
        invariant
            lo <= i <= hi <= v@.len(),
            trim_start(v@.subrange(i as int, hi as int)) == trim_start(v@.subrange(lo as int, hi as int)),
        decreases hi - i,
    {
        assert(v@.subrange(i as int, hi as int).drop_first() =~= v@.subrange(i + 1, hi as int));
        i = i + 1;
    }
    i
}

/// The end of the range `[lo, hi)` once trailing whitespace is dropped.
pub fn skip_ws_back(v: &Vec<char>, lo: usize, hi: usize) -> (b: usize)
    requires
        lo <= hi <= v@.len(),
    ensures
        lo <= b <= hi,
        v@.subrange(lo as int, b as int) == trim_end(v@.subrange(lo as int, hi as int)),
{
    let mut j = hi;
    while j > lo && is_whitespace(v[j - 1])
        invariant
            lo <= j <= hi <= v@.len(),
            trim_end(v@.subrange(lo as int, j as int)) == trim_end(v@.subrange(lo as int, hi as int)),
        decreases j - lo,
    {
        assert(v@.subrange(lo as int, j as int).drop_last() =~= v@.subrange(lo as int, j - 1));
        j = j - 1;
    }
    j
}

/// Bounds of `trim(v[lo..hi])` inside `v`.
pub fn trim_bounds(v: &Vec<char>, lo: usize, hi: usize) -> (r: (usize, usize))
    requires
        lo <= hi <= v@.len(),
    ensures
        lo <= r.0 <= r.1 <= hi,
        v@.subrange(r.0 as int, r.1 as int) == trim(v@.subrange(lo as int, hi as int)),
{
    let a = skip_ws(v, lo, hi);
    let b = skip_ws_back(v, a, hi);
    (a, b)
}

/// `String::push`: appends one character.
#[verifier::external_body]
pub(crate) fn push_char(s: &mut String, c: char)
    ensures
        final(s)@ == old(s)@.push(c),
{
    s.push(c);
}

/// The string made of `v[lo..hi]`.
pub fn string_of(v: &Vec<char>, lo: usize, hi: usize) -> (s: String)
    requires
        lo <= hi <= v@.len(),
    ensures
        s@ == v@.subrange(lo as int, hi as int),
{
    let mut s = String::new();
    let mut i = lo;
    while i < hi
        invariant
            lo <= i <= hi <= v@.len(),
            s@ == v@.subrange(lo as int, i as int),
        decreases hi - i,
    {
        push_char(&mut s, v[i]);
        assert(v@.subrange(lo as int, i + 1) =~= v@.subrange(lo as int, i as int).push(v@[i as int]));
        i = i + 1;
    }
    s
}

/// Whether `pat` occurs in `s` starting at position `i`.
pub open spec fn occurs_at(s: Seq<char>, i: int, pat: Seq<char>) -> bool {
    0 <= i && i + pat.len() <= s.len() && s.subrange(i, i + pat.len()) == pat
}

pub fn matches_at(v: &Vec<char>, i: usize, hi: usize, pat: &Vec<char>) -> (b: bool)
    requires
        i <= hi <= v@.len(),
    ensures
        b == occurs_at(v@.subrange(0, hi as int), i as int, pat@),
{
    if pat.len() > hi - i {
        return false;
    }
    let mut k: usize = 0;
    while k < pat.len()
        invariant
            i + pat@.len() <= hi <= v@.len(),
            k <= pat@.len(),
            forall|m: int| 0 <= m < k ==> v@[i + m] == pat@[m],
        decreases pat@.len() - k,
    {
        if v[i + k] != pat[k] {
            assert(v@.subrange(0, hi as int).subrange(i as int, i + pat@.len())[k as int] != pat@[k as int]);
            return false;
        }
        k = k + 1;
    }
    assert(v@.subrange(0, hi as int).subrange(i as int, i + pat@.len()) =~= pat@);
    true
}


/// A line without its `\r` terminator half (the `\r` of a `\r\n` pair).
pub open spec fn strip_cr(l: Seq<char>) -> Seq<char> {
    if l.len() > 0 && l.last() == '\r' {
        l.drop_last()
    } else {
        l
    }
}

/// Lines of `s[start..]` when the scan has reached `i` without meeting a
/// newline since `start`.
pub open spec fn lines_from(s: Seq<char>, start: int, i: int) -> Seq<Seq<char>>
    decreases s.len() - i,
{
    if i < 0 || i >= s.len() {
        if 0 <= start < s.len() {
            seq![s.subrange(start, s.len() as int)]
        } else {
            seq![]
        }
    } else if s[i] == '\n' {
        seq![strip_cr(s.subrange(start, i))] + lines_from(s, i + 1, i + 1)
    } else {
        lines_from(s, start, i + 1)
    }
}

/// `str::lines`: split at `\n` (dropping the `\r` of a `\r\n`); a final
/// line terminator does not open an empty last line.
pub open spec fn lines(s: Seq<char>) -> Seq<Seq<char>> {
    lines_from(s, 0, 0)
}

/// The character ranges of the lines of `v`, in order.
pub fn line_ranges(v: &Vec<char>) -> (r: Vec<(usize, usize)>)
    ensures
        r@.len() == lines(v@).len(),
        forall|k: int|
            #![trigger r@[k]]
            0 <= k < r@.len() ==> {
                &&& r@[k].0 <= r@[k].1 <= v@.len()
                &&& v@.subrange(r@[k].0 as int, r@[k].1 as int) == lines(v@)[k]
            },
{
    let mut r: Vec<(usize, usize)> = Vec::new();
    let ghost mut acc: Seq<Seq<char>> = seq![];
    let n = v.len();
    let mut start: usize = 0;
    let mut i: usize = 0;
    while i < n
        invariant
            n == v@.len(),
            start <= i <= n,
            acc + lines_from(v@, start as int, i as int) == lines(v@),
            r@.len() == acc.len(),
            forall|k: int|
                #![trigger r@[k]]
                0 <= k < r@.len() ==> {
                    &&& r@[k].0 <= r@[k].1 <= v@.len()
                    &&& v@.subrange(r@[k].0 as int, r@[k].1 as int) == acc[k]
                },
        decreases n - i,
    {
        if v[i] == '\n' {
            let end = if i > start && v[i - 1] == '\r' {
                i - 1
            } else {
                i
            };
            let ghost old_acc = acc;
            proof {
                let l = v@.subrange(start as int, i as int);
                assert(v@.subrange(start as int, end as int) =~= strip_cr(l));
                let rest = lines_from(v@, i + 1, i + 1);
                assert(lines_from(v@, start as int, i as int) == seq![strip_cr(l)] + rest);
                assert(acc.push(strip_cr(l)) + rest =~= acc + (seq![strip_cr(l)] + rest));
                acc = acc.push(strip_cr(l));
            }
            let ghost old_r = r@;
            r.push((start, end));
            proof {
                assert forall|k: int| #![trigger r@[k]] 0 <= k < r@.len() implies {
                    &&& r@[k].0 <= r@[k].1 <= v@.len()
                    &&& v@.subrange(r@[k].0 as int, r@[k].1 as int) == acc[k]
                } by {
                    if k < old_r.len() {
                        assert(r@[k] == old_r[k]);
                        assert(acc[k] == old_acc[k]);
                    }
                }
            }
            start = i + 1;
        }
        i = i + 1;
    }
    if start < n {
        let ghost old_acc = acc;
        proof {
            let l = v@.subrange(start as int, n as int);
            assert(lines_from(v@, start as int, n as int) == seq![l]);
            acc = acc.push(l);
        }
        let ghost old_r = r@;
        r.push((start, n));
        proof {
            assert forall|k: int| #![trigger r@[k]] 0 <= k < r@.len() implies {
                &&& r@[k].0 <= r@[k].1 <= v@.len()
                &&& v@.subrange(r@[k].0 as int, r@[k].1 as int) == acc[k]
            } by {
                if k < old_r.len() {
                    assert(r@[k] == old_r[k]);
                    assert(acc[k] == old_acc[k]);
                }
            }
        }
    } else {
        assert(acc + lines_from(v@, start as int, n as int) =~= acc);
    }
    assert(acc == lines(v@));
    assert forall|k: int| #![trigger r@[k]] 0 <= k < r@.len() implies {
        &&& r@[k].0 <= r@[k].1 <= v@.len()
        &&& v@.subrange(r@[k].0 as int, r@[k].1 as int) == lines(v@)[k]
    } by {
        assert(acc[k] == lines(v@)[k]);
    }
    r
}


/// A copy of `v[lo..hi]`.
pub fn sub_vec(v: &Vec<char>, lo: usize, hi: usize) -> (r: Vec<char>)
    requires
        lo <= hi <= v@.len(),
    ensures
        r@ == v@.subrange(lo as int, hi as int),
{
    let mut r: Vec<char> = Vec::new();
    let mut i = lo;
    while i < hi
        invariant
            lo <= i <= hi <= v@.len(),
            r@ == v@.subrange(lo as int, i as int),
        decreases hi - i,
    {
        r.push(v[i]);
        assert(v@.subrange(lo as int, i + 1) =~= v@.subrange(lo as int, i as int).push(v@[i as int]));
        i = i + 1;
    }
    r
}

/// Append `w` to `v`.
pub fn append_chars(v: &mut Vec<char>, w: &Vec<char>)
    ensures
        final(v)@ == old(v)@ + w@,
{
    let mut i: usize = 0;
    while i < w.len()
        invariant
            i <= w@.len(),
            v@ == old(v)@ + w@.subrange(0, i as int),
        decreases w@.len() - i,
    {
        v.push(w[i]);
        assert(old(v)@ + w@.subrange(0, i + 1) =~= (old(v)@ + w@.subrange(0, i as int)).push(w@[i as int]));
        i = i + 1;
    }
    assert(w@.subrange(0, w@.len() as int) =~= w@);
}

/// The string holding the characters of `v`.
pub fn string_from(v: &Vec<char>) -> (s: String)
    ensures
        s@ == v@,
{
    let s = string_of(v, 0, v.len());
    assert(v@.subrange(0, v@.len() as int) =~= v@);
    s
}

/// The views of a sequence of character vectors.
pub open spec fn views(cols: Seq<Vec<char>>) -> Seq<Seq<char>> {
    cols.map_values(|c: Vec<char>| c@)
}

/// The views of a sequence of strings.
pub open spec fn str_views(cols: Seq<String>) -> Seq<Seq<char>> {
    cols.map_values(|c: String| c@)
}

/// Strings made from each character vector.
pub fn strings_from(cols: &Vec<Vec<char>>) -> (r: Vec<String>)
    ensures
        str_views(r@) == views(cols@),
{
    let mut r: Vec<String> = Vec::new();
    let mut i: usize = 0;
    while i < cols.len()
        invariant
            i <= cols@.len(),
            r@.len() == i,
            forall|k: int| 0 <= k < i ==> #[trigger] r@[k]@ == cols@[k]@,
        decreases cols@.len() - i,
    {
        let s = string_from(&cols[i]);
        r.push(s);
        i = i + 1;
    }
    assert(str_views(r@) =~= views(cols@));
    r
}


/// Whether two strings hold the same characters.
pub fn same_text(a: &str, b: &str) -> (r: bool)
    ensures
        r == (a@ == b@),
{
    let x = chars_of(a);
    let y = chars_of(b);
    if x.len() != y.len() {
        return false;
    }
    let mut i: usize = 0;
    while i < x.len()
        invariant
            x@ == a@,
            y@ == b@,
            x@.len() == y@.len(),
            i <= x@.len(),
            forall|j: int| 0 <= j < i ==> x@[j] == y@[j],
        decreases x@.len() - i,
    {
        if x[i] != y[i] {
            assert(x@[i as int] != y@[i as int]);
            return false;
        }
        i = i + 1;
    }
    assert(x@ =~= y@);
    true
}

/// The prefix of `s` before the first character that satisfies `stop`.
pub open spec fn until(s: Seq<char>, stop: spec_fn(char) -> bool) -> Seq<char>
    decreases s.len(),
{
    if s.len() == 0 {
        s
    } else if stop(s[0]) {
        seq![]
    } else {
        seq![s[0]] + until(s.drop_first(), stop)
    }
}

/// The end of `until(v[lo..hi], stop)`, where `stop` is "equals `q1` or `q2`".
pub fn scan_until(v: &Vec<char>, lo: usize, hi: usize, q1: char, q2: char) -> (e: usize)
    requires
        lo <= hi <= v@.len(),
    ensures
        lo <= e <= hi,
        v@.subrange(lo as int, e as int) == until(
            v@.subrange(lo as int, hi as int),
            |c: char| c == q1 || c == q2,
        ),
{
    let ghost stop = |c: char| c == q1 || c == q2;
    let mut i = lo;
    while i < hi && v[i] != q1 && v[i] != q2
        invariant
            lo <= i <= hi <= v@.len(),
            stop == (|c: char| c == q1 || c == q2),
            until(v@.subrange(lo as int, hi as int), stop) == v@.subrange(lo as int, i as int)
                + until(v@.subrange(i as int, hi as int), stop),
        decreases hi - i,
    {
        let ghost t = v@.subrange(i as int, hi as int);
        assert(t.drop_first() =~= v@.subrange(i + 1, hi as int));
        assert(t[0] == v@[i as int]);
        assert(until(t, stop) == seq![t[0]] + until(t.drop_first(), stop));
        assert(v@.subrange(lo as int, i + 1) =~= v@.subrange(lo as int, i as int) + seq![t[0]]);
        assert(v@.subrange(lo as int, i as int) + (seq![t[0]] + until(t.drop_first(), stop))
            =~= v@.subrange(lo as int, i + 1) + until(t.drop_first(), stop));
        i = i + 1;
    }
    assert(until(v@.subrange(i as int, hi as int), stop) =~= seq![]);
    assert(v@.subrange(lo as int, i as int) + seq![] =~= v@.subrange(lo as int, i as int));
    i
}

/// A line that starts a top-level key (neither empty nor indented).
pub open spec fn is_top_line(line: Seq<char>) -> bool {
    line.len() > 0 && line[0] != ' ' && line[0] != '\t'
}

/// `s` starts with `p`.
pub open spec fn starts_with(s: Seq<char>, p: Seq<char>) -> bool {
    p.len() <= s.len() && s.take(p.len() as int) == p
}

/// Whether `v[lo..hi]` starts with `pat`.
pub fn has_prefix(v: &Vec<char>, lo: usize, hi: usize, pat: &Vec<char>) -> (b: bool)
    requires
        lo <= hi <= v@.len(),
    ensures
        b == starts_with(v@.subrange(lo as int, hi as int), pat@),
{
    if pat.len() > hi - lo {
        return false;
    }
    let m = matches_at(v, lo, hi, pat);
    assert(v@.subrange(0, hi as int).subrange(lo as int, lo + pat@.len()) =~= v@.subrange(
        lo as int,
        hi as int,
    ).take(pat@.len() as int));
    m
}

/// Each line followed by a newline.
pub open spec fn unlines(ls: Seq<Seq<char>>) -> Seq<char>
    decreases ls.len(),
{
    if ls.len() == 0 {
        seq![]
    } else {
        ls[0] + seq!['\n'] + unlines(ls.drop_first())
    }
}


/// Remove every `c` from the end of `s`.
pub open spec fn drop_trailing(s: Seq<char>, c: char) -> Seq<char>
    decreases s.len(),
{
    if s.len() > 0 && s.last() == c {
        drop_trailing(s.drop_last(), c)
    } else {
        s
    }
}

/// The end of `v[lo..hi]` once every trailing `c` is dropped.
pub fn trailing_end(v: &Vec<char>, lo: usize, hi: usize, c: char) -> (e: usize)
    requires
        lo <= hi <= v@.len(),
    ensures
        lo <= e <= hi,
        v@.subrange(lo as int, e as int) == drop_trailing(v@.subrange(lo as int, hi as int), c),
{
    let mut e = hi;
    while e > lo && v[e - 1] == c
        invariant
            lo <= e <= hi <= v@.len(),
            drop_trailing(v@.subrange(lo as int, e as int), c) == drop_trailing(
                v@.subrange(lo as int, hi as int),
                c,
            ),
        decreases e - lo,
    {
        assert(v@.subrange(lo as int, e as int).drop_last() =~= v@.subrange(lo as int, e - 1));
        e = e - 1;
    }
    e
}

// ---------------------------------------------------------------------------
// Lemmas on lines

/// No newline in `s[i..j)`.
pub open spec fn no_newline(s: Seq<char>) -> bool {
    forall|k: int| 0 <= k < s.len() ==> s[k] != '\n'
}

proof fn lemma_lines_from_skip(s: Seq<char>, start: int, i: int, j: int)
    requires
        0 <= start <= i <= j <= s.len(),
        forall|k: int| i <= k < j ==> s[k] != '\n',
    ensures
        lines_from(s, start, i) == lines_from(s, start, j),
    decreases j - i,
{
    if i < j {
        lemma_lines_from_skip(s, start, i + 1, j);
    }
}

proof fn lemma_lines_shift(s: Seq<char>, off: int, b: Seq<char>, st: int, i: int)
    requires
        0 <= off <= s.len(),
        s.skip(off) == b,
        0 <= st <= i <= b.len(),
    ensures
        lines_from(s, off + st, off + i) == lines_from(b, st, i),
    decreases b.len() - i,
{
    if i < b.len() {
        assert(s[off + i] == b[i]);
        if b[i] == '\n' {
            lemma_lines_shift(s, off, b, i + 1, i + 1);
            assert(s.subrange(off + st, off + i) =~= b.subrange(st, i));
        } else {
            lemma_lines_shift(s, off, b, st, i + 1);
        }
    } else {
        if st < b.len() {
            assert(s.subrange(off + st, s.len() as int) =~= b.subrange(st, b.len() as int));
        }
    }
}

/// The lines of a line, a newline, and more text.
pub proof fn lemma_lines_cons(a: Seq<char>, b: Seq<char>)
    requires
        no_newline(a),
    ensures
        lines(a + seq!['\n'] + b) == seq![strip_cr(a)] + lines(b),
{
    let s = a + seq!['\n'] + b;
    lemma_lines_from_skip(s, 0, 0, a.len() as int);
    assert(s[a.len() as int] == '\n');
    assert(s.subrange(0, a.len() as int) =~= a);
    assert(s.skip(a.len() + 1 as int) =~= b);
    lemma_lines_shift(s, a.len() + 1 as int, b, 0, 0);
}

/// Re-reading the lines of an `unlines` text gives the lines back, each
/// without a final `\r`.
pub proof fn lemma_lines_unlines(ls: Seq<Seq<char>>)
    requires
        forall|k: int| 0 <= k < ls.len() ==> no_newline(#[trigger] ls[k]),
    ensures
        lines(unlines(ls)) == ls.map_values(|l: Seq<char>| strip_cr(l)),
    decreases ls.len(),
{
    if ls.len() == 0 {
        assert(lines(seq![]) =~= seq![]);
        assert(ls.map_values(|l: Seq<char>| strip_cr(l)) =~= seq![]);
    } else {
        let rest = ls.drop_first();
        assert forall|k: int| 0 <= k < rest.len() implies no_newline(#[trigger] rest[k]) by {
            assert(rest[k] == ls[k + 1]);
        }
        lemma_lines_unlines(rest);
        assert(no_newline(ls[0]));
        lemma_lines_cons(ls[0], unlines(rest));
        assert(ls.map_values(|l: Seq<char>| strip_cr(l)) =~= seq![strip_cr(ls[0])]
            + rest.map_values(|l: Seq<char>| strip_cr(l)));
    }
}

/// Lines never hold a newline.
pub proof fn lemma_lines_no_newline(s: Seq<char>, start: int, i: int)
    requires
        0 <= start <= i <= s.len(),
        forall|k: int| start <= k < i ==> s[k] != '\n',
    ensures
        forall|k: int| 0 <= k < lines_from(s, start, i).len() ==> no_newline(#[trigger] lines_from(s, start, i)[k]),
    decreases s.len() - i,
{
    if i < s.len() {
        if s[i] == '\n' {
            lemma_lines_no_newline(s, i + 1, i + 1);
            let l = strip_cr(s.subrange(start, i));
            assert(no_newline(s.subrange(start, i)));
            assert(no_newline(l));
            let rest = lines_from(s, i + 1, i + 1);
            assert forall|k: int| 0 <= k < lines_from(s, start, i).len() implies no_newline(
                #[trigger] lines_from(s, start, i)[k],
            ) by {
                if k == 0 {
                    assert(lines_from(s, start, i)[0] == l);
                } else {
                    assert(lines_from(s, start, i)[k] == rest[k - 1]);
                }
            }
        } else {
            lemma_lines_no_newline(s, start, i + 1);
            assert(lines_from(s, start, i) == lines_from(s, start, i + 1));
        }
    } else if start < s.len() {
        assert(no_newline(s.subrange(start, s.len() as int)));
        assert(lines_from(s, start, i) == seq![s.subrange(start, s.len() as int)]);
        assert(lines_from(s, start, i)[0] == s.subrange(start, s.len() as int));
    } else {
        assert(lines_from(s, start, i) == Seq::<Seq<char>>::empty());
    }
}

// ---------------------------------------------------------------------------
// Lemmas on trimming and prefixes

pub proof fn lemma_trim_end_push_ws(x: Seq<char>, c: char)
    requires
        is_ws(c),
    ensures
        trim_end(x.push(c)) == trim_end(x),
{
    assert(x.push(c).drop_last() =~= x);
}

pub proof fn lemma_trim_start_push(x: Seq<char>, c: char)
    ensures
        trim_start(x.push(c)) == if trim_start(x).len() > 0 {
            trim_start(x).push(c)
        } else {
            trim_start(seq![c])
        },
    decreases x.len(),
{
    if x.len() == 0 {
        assert(x.push(c) =~= seq![c]);
    } else {
        assert(x.push(c)[0] == x[0]);
        assert(x.push(c).drop_first() =~= x.drop_first().push(c));
        if is_ws(x[0]) {
            lemma_trim_start_push(x.drop_first(), c);
        }
    }
}

/// A trailing whitespace character does not change the trimmed text.
pub proof fn lemma_trim_push_ws(x: Seq<char>, c: char)
    requires
        is_ws(c),
    ensures
        trim(x.push(c)) == trim(x),
{
    lemma_trim_start_push(x, c);
    if trim_start(x).len() > 0 {
        lemma_trim_end_push_ws(trim_start(x), c);
    } else {
        assert(seq![c].drop_first() =~= Seq::<char>::empty());
        assert(trim_start(seq![c]) == trim_start(Seq::<char>::empty()));
    }
}

pub proof fn lemma_until_push(x: Seq<char>, c: char, stop: spec_fn(char) -> bool)
    ensures
        until(x.push(c), stop) == if until(x, stop).len() < x.len() {
            until(x, stop)
        } else if stop(c) {
            x
        } else {
            x.push(c)
        },
        until(x, stop).len() <= x.len(),
        until(x, stop).len() == x.len() ==> until(x, stop) == x,
    decreases x.len(),
{
    if x.len() == 0 {
        assert(x.push(c) =~= seq![c]);
        assert(seq![c].drop_first() =~= Seq::<char>::empty());
        assert(until(Seq::<char>::empty(), stop) == Seq::<char>::empty());
        if !stop(c) {
            assert(seq![c] + Seq::<char>::empty() =~= seq![c]);
        }
    } else {
        assert(x.push(c)[0] == x[0]);
        assert(x.push(c).drop_first() =~= x.drop_first().push(c));
        lemma_until_push(x.drop_first(), c, stop);
        let x1 = x.drop_first();
        if !stop(x[0]) {
            assert(until(x.push(c), stop) == seq![x[0]] + until(x1.push(c), stop));
            assert(until(x, stop) == seq![x[0]] + until(x1, stop));
            assert(seq![x[0]] + x.drop_first() =~= x);
            assert(seq![x[0]] + x.drop_first().push(c) =~= x.push(c));
        }
    }
}

} // verus!
