//! Node notes: the comments that a subscription author writes next to the
//! entries of the `proxies:` section of `config.yaml`, read line by line and
//! attached to the node names.
//!
//! Two placements are recognised (a trailing comment wins over a comment line
//! directly above the entry):
//!
//! ```yaml
//! proxies:
//!   # vendor · region · IPv6        <- whole-line comment right above the entry
//!   - name: "Apollo"
//!   - name: "Venus"                # vendor · region · IPv4 / IPv6   <- trailing comment
//! ```
//!
//! A note is cut into at most three columns at `·`, `•`, `|` or `｜` (or, when
//! there are none, at runs of two or more spaces). A comment separated from the
//! next entry by a blank line describes a paragraph and is attached to nothing.

use crate::text::{
    append_chars, is_whitespace, is_ws, matches_at, occurs_at, skip_ws, sub_vec, trim, trim_bounds,
    trim_start, views, str_views, strings_from, string_of, lines, line_ranges, chars_of, until,
    scan_until, is_top_line,
};
use vstd::prelude::*;

verus! {

// ---------------------------------------------------------------------------
// Comments

/// Quote state `(inside '…', inside "…")` after reading `l`.
pub open spec fn quote_state(l: Seq<char>) -> (bool, bool)
    decreases l.len(),
{
    if l.len() == 0 {
        (false, false)
    } else {
        let (sq, dq) = quote_state(l.drop_last());
        let c = l.last();
        if c == '\'' && !dq {
            (!sq, dq)
        } else if c == '"' && !sq {
            (sq, !dq)
        } else {
            (sq, dq)
        }
    }
}

/// A `#` at position `i` opens a comment: outside quotes, and at the start of
/// the line or after whitespace (so that `pass#word` stays a value).
pub open spec fn comment_at(l: Seq<char>, i: int) -> bool {
    &&& 0 <= i < l.len()
    &&& l[i] == '#'
    &&& quote_state(l.take(i)) == (false, false)
    &&& (i == 0 || is_ws(l[i - 1]))
}

/// The first comment position at or after `i`, or -1.
pub open spec fn comment_pos_from(l: Seq<char>, i: int) -> int
    decreases l.len() - i,
{
    if i < 0 || i >= l.len() {
        -1
    } else if comment_at(l, i) {
        i
    } else {
        comment_pos_from(l, i + 1)
    }
}

/// Drop every leading `#`.
pub open spec fn drop_hashes(s: Seq<char>) -> Seq<char>
    decreases s.len(),
{
    if s.len() > 0 && s[0] == '#' {
        drop_hashes(s.drop_first())
    } else {
        s
    }
}

/// The body of a comment that starts at `#`: the hashes and surrounding
/// whitespace removed; `None` when nothing is left.
pub open spec fn comment_body(rest: Seq<char>) -> Option<Seq<char>> {
    let b = trim(drop_hashes(rest));
    if b.len() == 0 {
        None
    } else {
        Some(b)
    }
}

/// A line cut into its code part and its comment body.
pub open spec fn comment_split(l: Seq<char>) -> (Seq<char>, Option<Seq<char>>) {
    let p = comment_pos_from(l, 0);
    if p < 0 {
        (l, None)
    } else {
        (l.take(p), comment_body(l.skip(p)))
    }
}

proof fn lemma_quote_state_step(l: Seq<char>, i: int)
    requires
        0 <= i < l.len(),
    ensures
        quote_state(l.take(i + 1)) == {
            let (sq, dq) = quote_state(l.take(i));
            let c = l[i];
            if c == '\'' && !dq {
                (!sq, dq)
            } else if c == '"' && !sq {
                (sq, !dq)
            } else {
                (sq, dq)
            }
        },
{
    assert(l.take(i + 1).drop_last() =~= l.take(i));
}

/// Cut the line `v[lo..hi]` at its comment. Returns the end of the code part
/// and the range of the comment body, if any.
pub fn split_comment_at(v: &Vec<char>, lo: usize, hi: usize) -> (r: (usize, Option<(usize, usize)>))
    requires
        lo <= hi <= v@.len(),
    ensures
        lo <= r.0 <= hi,
        v@.subrange(lo as int, r.0 as int) == comment_split(v@.subrange(lo as int, hi as int)).0,
        match r.1 {
            None => comment_split(v@.subrange(lo as int, hi as int)).1 is None,
            Some((a, b)) => {
                &&& r.0 <= a <= b <= hi
                &&& comment_split(v@.subrange(lo as int, hi as int)).1 == Some(
                    v@.subrange(a as int, b as int),
                )
            },
        },
{
    let ghost l = v@.subrange(lo as int, hi as int);
    let mut single = false;
    let mut double = false;
    let mut prev_ws = true;
    let mut i = lo;
    while i < hi
        invariant
            lo <= i <= hi <= v@.len(),
            l == v@.subrange(lo as int, hi as int),
            (single, double) == quote_state(l.take(i - lo)),
            prev_ws == (i == lo || is_ws(v@[i - 1])),
            comment_pos_from(l, 0) == comment_pos_from(l, i - lo),
        decreases hi - i,
    {
        let c = v[i];
        proof {
            lemma_quote_state_step(l, i - lo);
        }
        if c == '#' && !single && !double && prev_ws {
            assert(comment_at(l, i - lo));
            let mut j = i;
            while j < hi && v[j] == '#'
                invariant
                    i <= j <= hi <= v@.len(),
                    drop_hashes(v@.subrange(j as int, hi as int)) == drop_hashes(
                        v@.subrange(i as int, hi as int),
                    ),
                decreases hi - j,
            {
                assert(v@.subrange(j as int, hi as int).drop_first() =~= v@.subrange(j + 1, hi as int));
                j = j + 1;
            }
            assert(drop_hashes(v@.subrange(j as int, hi as int)) == v@.subrange(j as int, hi as int));
            assert(l.skip(i - lo) =~= v@.subrange(i as int, hi as int));
            assert(l.take(i - lo) =~= v@.subrange(lo as int, i as int));
            let (a, b) = trim_bounds(v, j, hi);
            if a == b {
                return (i, None);
            } else {
                return (i, Some((a, b)));
            }
        }
        assert(!comment_at(l, i - lo));
        if c == '\'' && !double {
            single = !single;
        } else if c == '"' && !single {
            double = !double;
        }
        prev_ws = is_whitespace(c);
        i = i + 1;
    }
    assert(comment_pos_from(l, i - lo) == -1);
    assert(l.take(i - lo) =~= l);
    (hi, None)
}


// ---------------------------------------------------------------------------
// Names

pub open spec fn name_key() -> Seq<char> {
    seq!['n', 'a', 'm', 'e', ':']
}

/// `name:` at position `at`, preceded by the start, `{`, `,` or whitespace
/// (so that `username:` is not taken for it).
pub open spec fn name_at(code: Seq<char>, at: int) -> bool {
    &&& occurs_at(code, at, name_key())
    &&& (at == 0 || code[at - 1] == '{' || code[at - 1] == ',' || is_ws(code[at - 1]))
}

pub open spec fn name_pos_from(code: Seq<char>, p: int) -> int
    decreases code.len() - p,
{
    if p < 0 || p >= code.len() {
        -1
    } else if name_at(code, p) {
        p
    } else {
        name_pos_from(code, p + 1)
    }
}

/// The value after `name:`: a quoted string up to its closing quote, or the
/// text up to `,` or `}`, trimmed.
pub open spec fn take_value(rest: Seq<char>) -> Seq<char> {
    let r = trim_start(rest);
    if r.len() > 0 && (r[0] == '"' || r[0] == '\'') {
        until(r.drop_first(), |c: char| c == r[0])
    } else {
        trim(until(r, |c: char| c == ',' || c == '}'))
    }
}

/// The `name:` value of a piece of YAML code, in block (`name: "X"`) or flow
/// (`{ name: X, ... }`) style.
pub open spec fn parse_name(code: Seq<char>) -> Option<Seq<char>> {
    let p = name_pos_from(code, 0);
    if p < 0 {
        None
    } else {
        Some(take_value(code.skip(p + 5)))
    }
}

/// Range of `take_value(v[lo..hi])`.
fn take_value_at(v: &Vec<char>, lo: usize, hi: usize) -> (r: (usize, usize))
    requires
        lo <= hi <= v@.len(),
    ensures
        lo <= r.0 <= r.1 <= hi,
        v@.subrange(r.0 as int, r.1 as int) == take_value(v@.subrange(lo as int, hi as int)),
{
    let a = skip_ws(v, lo, hi);
    let ghost r = trim_start(v@.subrange(lo as int, hi as int));
    if a < hi && (v[a] == '"' || v[a] == '\'') {
        let q = v[a];
        let e = scan_until(v, a + 1, hi, q, q);
        assert(r.drop_first() =~= v@.subrange(a + 1, hi as int));
        assert((|c: char| c == q || c == q) =~= (|c: char| c == r[0]));
        (a + 1, e)
    } else {
        let e = scan_until(v, a, hi, ',', '}');
        trim_bounds(v, a, e)
    }
}

/// Range of the `name:` value of the code `v[lo..hi]`, if any.
pub fn parse_name_at(v: &Vec<char>, lo: usize, hi: usize) -> (r: Option<(usize, usize)>)
    requires
        lo <= hi <= v@.len(),
    ensures
        match r {
            None => parse_name(v@.subrange(lo as int, hi as int)) is None,
            Some((a, b)) => {
                &&& lo <= a <= b <= hi
                &&& parse_name(v@.subrange(lo as int, hi as int)) == Some(v@.subrange(a as int, b as int))
            },
        },
{
    let ghost code = v@.subrange(lo as int, hi as int);
    let key: Vec<char> = vec!['n', 'a', 'm', 'e', ':'];
    assert(key@ =~= name_key());
    let mut p = lo;
    while p < hi
        invariant
            lo <= p <= hi <= v@.len(),
            code == v@.subrange(lo as int, hi as int),
            key@ == name_key(),
            name_pos_from(code, 0) == name_pos_from(code, p - lo),
        decreases hi - p,
    {
        let found = matches_at(v, p, hi, &key);
        proof {
            if p + 5 <= hi {
                assert(code.subrange(p - lo, p - lo + 5) =~= v@.subrange(0, hi as int).subrange(
                    p as int,
                    p + 5,
                ));
            }
        }
        let ok = found && (p == lo || v[p - 1] == '{' || v[p - 1] == ',' || is_whitespace(v[p - 1]));
        if ok {
            assert(name_at(code, p - lo));
            let r = take_value_at(v, p + 5, hi);
            assert(code.skip(p - lo + 5) =~= v@.subrange(p + 5, hi as int));
            return Some(r);
        }
        assert(!name_at(code, p - lo));
        p = p + 1;
    }
    None
}


// ---------------------------------------------------------------------------
// Columns

/// Column separators: `·`, `•`, `|`, `｜`.
pub open spec fn is_sep(c: char) -> bool {
    c == '\u{B7}' || c == '\u{2022}' || c == '|' || c == '\u{FF5C}'
}

fn is_sep_char(c: char) -> (b: bool)
    ensures
        b == is_sep(c),
{
    c == '\u{B7}' || c == '\u{2022}' || c == '|' || c == '\u{FF5C}'
}

/// Pieces of `s[start..]` between separators, the scan being at `i`.
pub open spec fn pieces_from(s: Seq<char>, start: int, i: int) -> Seq<Seq<char>>
    decreases s.len() - i,
{
    if i < 0 || i >= s.len() {
        seq![s.subrange(start, s.len() as int)]
    } else if is_sep(s[i]) {
        seq![s.subrange(start, i)] + pieces_from(s, i + 1, i + 1)
    } else {
        pieces_from(s, start, i + 1)
    }
}

/// `str::split` at every separator (empty pieces included).
pub open spec fn sep_pieces(s: Seq<char>) -> Seq<Seq<char>> {
    pieces_from(s, 0, 0)
}

pub open spec fn trimmed(cols: Seq<Seq<char>>) -> Seq<Seq<char>> {
    cols.map_values(|c: Seq<char>| trim(c))
}

/// Drop the empty columns at the end (a separator typed once too often).
pub open spec fn drop_trailing_empty(cols: Seq<Seq<char>>) -> Seq<Seq<char>>
    decreases cols.len(),
{
    if cols.len() > 0 && cols.last().len() == 0 {
        drop_trailing_empty(cols.drop_last())
    } else {
        cols
    }
}

/// The non-empty columns, in order.
pub open spec fn nonempty(cols: Seq<Seq<char>>) -> Seq<Seq<char>>
    decreases cols.len(),
{
    if cols.len() == 0 {
        cols
    } else if cols.last().len() > 0 {
        nonempty(cols.drop_last()).push(cols.last())
    } else {
        nonempty(cols.drop_last())
    }
}

/// `parts.join(sep)`.
pub open spec fn join(parts: Seq<Seq<char>>, sep: Seq<char>) -> Seq<char>
    decreases parts.len(),
{
    if parts.len() == 0 {
        seq![]
    } else if parts.len() == 1 {
        parts[0]
    } else {
        join(parts.drop_last(), sep) + sep + parts.last()
    }
}

/// The column joiner ` · `.
pub open spec fn dot_sep() -> Seq<char> {
    seq![' ', '\u{B7}', ' ']
}

/// State of the wide-gap splitter: finished columns, the column being read,
/// and the number of spaces seen since its last character.
pub struct GapState {
    pub cols: Seq<Seq<char>>,
    pub cur: Seq<char>,
    pub gap: nat,
}

/// One character of the wide-gap splitter. A tab or an ideographic space
/// counts as two spaces.
pub open spec fn gap_step(st: GapState, ch: char) -> GapState {
    if ch == ' ' {
        GapState { gap: st.gap + 1, ..st }
    } else if ch == '\u{3000}' || ch == '\t' {
        GapState { gap: st.gap + 2, ..st }
    } else if st.gap >= 2 && trim(st.cur).len() > 0 {
        GapState { cols: st.cols.push(trim(st.cur)), cur: seq![ch], gap: 0 }
    } else if st.gap > 0 && st.cur.len() > 0 {
        GapState { cols: st.cols, cur: st.cur.push(' ').push(ch), gap: 0 }
    } else {
        GapState { cols: st.cols, cur: st.cur.push(ch), gap: 0 }
    }
}

pub open spec fn gap_fold(s: Seq<char>) -> GapState
    decreases s.len(),
{
    if s.len() == 0 {
        GapState { cols: seq![], cur: seq![], gap: 0 }
    } else {
        gap_step(gap_fold(s.drop_last()), s.last())
    }
}

/// Columns separated by runs of two or more spaces (single spaces inside a
/// column are kept, as one space).
pub open spec fn wide_gaps(note: Seq<char>) -> Seq<Seq<char>> {
    let st = gap_fold(note);
    if trim(st.cur).len() > 0 {
        st.cols.push(trim(st.cur))
    } else {
        st.cols
    }
}

/// More than three columns: the tail is merged into the third one.
pub open spec fn cap3(cols: Seq<Seq<char>>) -> Seq<Seq<char>> {
    if cols.len() > 3 {
        cols.take(2).push(join(nonempty(cols.skip(2)), dot_sep()))
    } else {
        cols
    }
}

/// A note cut into columns: at separators (empty leading or inner columns kept
/// as placeholders), or at wide gaps when there are fewer than two columns.
pub open spec fn split_cols(note: Seq<char>) -> Seq<Seq<char>> {
    let c = drop_trailing_empty(trimmed(sep_pieces(note)));
    cap3(if c.len() < 2 { wide_gaps(note) } else { c })
}

/// `trimmed(sep_pieces(v[lo..hi]))`.
fn sep_cols(v: &Vec<char>, lo: usize, hi: usize) -> (r: Vec<Vec<char>>)
    requires
        lo <= hi <= v@.len(),
    ensures
        views(r@) == trimmed(sep_pieces(v@.subrange(lo as int, hi as int))),
{
    let ghost s = v@.subrange(lo as int, hi as int);
    let mut r: Vec<Vec<char>> = Vec::new();
    let mut start = lo;
    let mut i = lo;
    while i < hi
        invariant
            lo <= start <= i <= hi <= v@.len(),
            s == v@.subrange(lo as int, hi as int),
            views(r@) + trimmed(pieces_from(s, start - lo, i - lo)) == trimmed(sep_pieces(s)),
        decreases hi - i,
    {
        if is_sep_char(v[i]) {
            let (a, b) = trim_bounds(v, start, i);
            let c = sub_vec(v, a, b);
            proof {
                let piece = s.subrange(start - lo, i - lo);
                assert(piece =~= v@.subrange(start as int, i as int));
                let rest = pieces_from(s, i - lo + 1, i - lo + 1);
                assert(pieces_from(s, start - lo, i - lo) == seq![piece] + rest);
                assert(trimmed(seq![piece] + rest) =~= seq![trim(piece)] + trimmed(rest));
                assert(views(r@.push(c)) =~= views(r@).push(trim(piece)));
                assert(views(r@).push(trim(piece)) + trimmed(rest) =~= views(r@) + (seq![trim(piece)]
                    + trimmed(rest)));
            }
            r.push(c);
            start = i + 1;
        }
        i = i + 1;
    }
    let (a, b) = trim_bounds(v, start, hi);
    let c = sub_vec(v, a, b);
    proof {
        let piece = s.subrange(start - lo, hi - lo);
        assert(piece =~= v@.subrange(start as int, hi as int));
        assert(pieces_from(s, start - lo, hi - lo) == seq![piece]);
        assert(trimmed(seq![piece]) =~= seq![trim(piece)]);
        assert(views(r@.push(c)) =~= views(r@) + seq![trim(piece)]);
    }
    r.push(c);
    r
}

/// Run the wide-gap splitter over `v[lo..hi]`.
fn wide_gap_cols(v: &Vec<char>, lo: usize, hi: usize) -> (r: Vec<Vec<char>>)
    requires
        lo <= hi <= v@.len(),
    ensures
        views(r@) == wide_gaps(v@.subrange(lo as int, hi as int)),
{
    let ghost s = v@.subrange(lo as int, hi as int);
    let mut cols: Vec<Vec<char>> = Vec::new();
    let mut cur: Vec<char> = Vec::new();
    let mut gap: usize = 0;
    let mut i = lo;
    while i < hi
        invariant
            lo <= i <= hi <= v@.len(),
            s == v@.subrange(lo as int, hi as int),
            views(cols@) == gap_fold(s.take(i - lo)).cols,
            cur@ == gap_fold(s.take(i - lo)).cur,
            gap == if gap_fold(s.take(i - lo)).gap >= 2 { 2 } else { gap_fold(s.take(i - lo)).gap },
        decreases hi - i,
    {
        let ch = v[i];
        proof {
            assert(s.take(i - lo + 1).drop_last() =~= s.take(i - lo));
            assert(s.take(i - lo + 1).last() == ch);
        }
        if ch == ' ' {
            if gap < 2 {
                gap = gap + 1;
            }
        } else if ch == '\u{3000}' || ch == '\t' {
            gap = 2;
        } else {
            let (a, b) = trim_bounds(&cur, 0, cur.len());
            proof {
                assert(cur@.subrange(0, cur@.len() as int) =~= cur@);
            }
            if gap >= 2 && a < b {
                let t = sub_vec(&cur, a, b);
                assert(views(cols@.push(t)) =~= views(cols@).push(t@));
                cols.push(t);
                cur = Vec::new();
                cur.push(ch);
                assert(cur@ =~= seq![ch]);
            } else if gap > 0 && cur.len() > 0 {
                cur.push(' ');
                cur.push(ch);
            } else {
                cur.push(ch);
            }
            gap = 0;
        }
        i = i + 1;
    }
    assert(s.take(i - lo) =~= s);
    let (a, b) = trim_bounds(&cur, 0, cur.len());
    assert(cur@.subrange(0, cur@.len() as int) =~= cur@);
    if a < b {
        let t = sub_vec(&cur, a, b);
        assert(views(cols@.push(t)) =~= views(cols@).push(t@));
        cols.push(t);
    }
    cols
}


proof fn lemma_join_push(parts: Seq<Seq<char>>, x: Seq<char>, sep: Seq<char>)
    ensures
        join(parts.push(x), sep) == if parts.len() == 0 {
            x
        } else {
            join(parts, sep) + sep + x
        },
{
    assert(parts.push(x).drop_last() =~= parts);
}

/// `join(nonempty(cols[from..]), " · ")`.
fn join_nonempty(cols: &Vec<Vec<char>>, from: usize) -> (r: Vec<char>)
    requires
        from <= cols@.len(),
    ensures
        r@ == join(nonempty(views(cols@).skip(from as int)), dot_sep()),
{
    let ghost cs = views(cols@);
    let sep: Vec<char> = vec![' ', '\u{B7}', ' '];
    assert(sep@ =~= dot_sep());
    let mut r: Vec<char> = Vec::new();
    let mut any = false;
    let mut k = from;
    while k < cols.len()
        invariant
            from <= k <= cols@.len(),
            cs == views(cols@),
            sep@ == dot_sep(),
            r@ == join(nonempty(cs.subrange(from as int, k as int)), dot_sep()),
            any == (nonempty(cs.subrange(from as int, k as int)).len() > 0),
        decreases cols@.len() - k,
    {
        let ghost prev = cs.subrange(from as int, k as int);
        assert(cs.subrange(from as int, k + 1).drop_last() =~= prev);
        assert(cs.subrange(from as int, k + 1).last() == cols@[k as int]@);
        if cols[k].len() > 0 {
            proof {
                lemma_join_push(nonempty(prev), cols@[k as int]@, dot_sep());
            }
            if any {
                append_chars(&mut r, &sep);
            }
            append_chars(&mut r, &cols[k]);
            any = true;
            assert(r@ =~= join(nonempty(cs.subrange(from as int, k + 1)), dot_sep()));
        }
        k = k + 1;
    }
    assert(cs.subrange(from as int, k as int) =~= cs.skip(from as int));
    r
}

/// Columns of the note `v[lo..hi]`.
fn cols_at(v: &Vec<char>, lo: usize, hi: usize) -> (r: Vec<Vec<char>>)
    requires
        lo <= hi <= v@.len(),
    ensures
        views(r@) == split_cols(v@.subrange(lo as int, hi as int)),
{
    let mut c = sep_cols(v, lo, hi);
    while c.len() > 0 && c[c.len() - 1].len() == 0
        invariant
            drop_trailing_empty(views(c@)) == drop_trailing_empty(
                trimmed(sep_pieces(v@.subrange(lo as int, hi as int))),
            ),
        decreases c@.len(),
    {
        let ghost before = views(c@);
        c.pop();
        assert(views(c@) =~= before.drop_last());
    }
    assert(drop_trailing_empty(views(c@)) == views(c@));
    if c.len() < 2 {
        c = wide_gap_cols(v, lo, hi);
    }
    if c.len() > 3 {
        let tail = join_nonempty(&c, 2);
        let ghost before = views(c@);
        c.truncate(2);
        c.push(tail);
        assert(views(c@) =~= before.take(2).push(tail@));
    }
    c
}


// ---------------------------------------------------------------------------
// Notes and the note table

/// One node note: its columns (one to three).
#[derive(Clone, Debug, Default, PartialEq)]
pub struct NodeNote {
    cols: Vec<String>,
}

impl View for NodeNote {
    type V = Seq<Seq<char>>;

    closed spec fn view(&self) -> Seq<Seq<char>> {
        str_views(self.cols@)
    }
}

/// The text of a note: its non-empty columns joined by ` · `.
pub open spec fn note_text(cols: Seq<Seq<char>>) -> Seq<char> {
    join(nonempty(cols), dot_sep())
}

impl NodeNote {
    /// Column `i`; an empty string when there is no such column (an empty cell
    /// keeps the columns aligned).
    pub fn col(&self, i: usize) -> (r: &str)
        ensures
            r@ == if i < self@.len() {
                self@[i as int]
            } else {
                Seq::<char>::empty()
            },
    {
        if i < self.cols.len() {
            self.cols[i].as_str()
        } else {
            proof {
                reveal_strlit("");
            }
            ""
        }
    }

    /// The number of columns. With two or more the node page shows columns,
    /// otherwise the whole note in one cell.
    pub fn parts(&self) -> (n: usize)
        ensures
            n == self@.len(),
    {
        self.cols.len()
    }

    /// All columns, placeholders included.
    pub fn columns(&self) -> (r: &[String])
        ensures
            str_views(r@) == self@,
    {
        self.cols.as_slice()
    }

    /// The full text (placeholder columns skipped), for tooltips and
    /// single-cell rendering.
    pub fn text(&self) -> (t: String)
        ensures
            t@ == note_text(self@),
    {
        let sep: Vec<char> = vec![' ', '\u{B7}', ' '];
        assert(sep@ =~= dot_sep());
        let mut r: Vec<char> = Vec::new();
        let mut any = false;
        let mut k: usize = 0;
        while k < self.cols.len()
            invariant
                k <= self@.len(),
                sep@ == dot_sep(),
                r@ == join(nonempty(self@.take(k as int)), dot_sep()),
                any == (nonempty(self@.take(k as int)).len() > 0),
            decreases self@.len() - k,
        {
            let ghost prev = self@.take(k as int);
            assert(self@.take(k + 1).drop_last() =~= prev);
            assert(self@.take(k + 1).last() == self.cols@[k as int]@);
            let c = crate::text::chars_of(self.cols[k].as_str());
            if c.len() > 0 {
                proof {
                    lemma_join_push(nonempty(prev), c@, dot_sep());
                }
                if any {
                    append_chars(&mut r, &sep);
                }
                append_chars(&mut r, &c);
                any = true;
                assert(r@ =~= join(nonempty(self@.take(k + 1)), dot_sep()));
            }
            k = k + 1;
        }
        assert(self@.take(k as int) =~= self@);
        crate::text::string_from(&r)
    }
}

/// Key/value pairs viewed as plain values.
pub open spec fn entry_views(es: Seq<(String, NodeNote)>) -> Seq<(Seq<char>, Seq<Seq<char>>)> {
    es.map_values(|e: (String, NodeNote)| (e.0@, e.1@))
}

/// The first index whose key is `k`, or -1.
pub open spec fn find_key(es: Seq<(Seq<char>, Seq<Seq<char>>)>, k: Seq<char>) -> int
    decreases es.len(),
{
    if es.len() == 0 {
        -1
    } else if es[0].0 == k {
        0
    } else {
        let r = find_key(es.drop_first(), k);
        if r < 0 {
            -1
        } else {
            r + 1
        }
    }
}

proof fn lemma_find_key(es: Seq<(Seq<char>, Seq<Seq<char>>)>, k: Seq<char>)
    ensures
        find_key(es, k) == -1 <==> (forall|j: int| 0 <= j < es.len() ==> es[j].0 != k),
        find_key(es, k) >= 0 ==> {
            &&& find_key(es, k) < es.len()
            &&& es[find_key(es, k)].0 == k
            &&& forall|j: int| 0 <= j < find_key(es, k) ==> es[j].0 != k
        },
        find_key(es, k) >= -1,
    decreases es.len(),
{
    if es.len() > 0 {
        lemma_find_key(es.drop_first(), k);
        if es[0].0 != k {
            assert forall|j: int| 0 <= j < es.len() && es[j].0 == k implies find_key(es, k) >= 0 by {
                assert(es.drop_first()[j - 1] == es[j]);
            }
            if find_key(es, k) >= 0 {
                assert forall|j: int| 0 <= j < find_key(es, k) implies es[j].0 != k by {
                    if j > 0 {
                        assert(es.drop_first()[j - 1] == es[j]);
                    }
                }
            }
        }
    }
}

/// The first index with key `k` is `i` exactly when these hold.
proof fn lemma_find_key_is(es: Seq<(Seq<char>, Seq<Seq<char>>)>, k: Seq<char>, i: int)
    requires
        0 <= i < es.len(),
        es[i].0 == k,
        forall|j: int| 0 <= j < i ==> es[j].0 != k,
    ensures
        find_key(es, k) == i,
{
    lemma_find_key(es, k);
    let f = find_key(es, k);
    if f != i {
        if f < i {
            assert(es[f].0 == k);
        } else {
            assert(f >= 0);
            assert(es[i].0 != k);
        }
    }
}

/// The map that a list of entries denotes (the first entry of a key wins).
pub open spec fn entries_map(es: Seq<(Seq<char>, Seq<Seq<char>>)>) -> Map<Seq<char>, Seq<Seq<char>>> {
    Map::new(|k: Seq<char>| find_key(es, k) >= 0, |k: Seq<char>| es[find_key(es, k)].1)
}

/// Entries with distinct keys denote a map with one key per entry.
proof fn lemma_entries_dom(es: Seq<(Seq<char>, Seq<Seq<char>>)>)
    requires
        distinct_keys(es),
    ensures
        entries_map(es).dom().finite(),
        entries_map(es).dom().len() == es.len(),
    decreases es.len(),
{
    if es.len() == 0 {
        assert(entries_map(es).dom() =~= Set::<Seq<char>>::empty());
    } else {
        let rest = es.drop_first();
        assert forall|i: int, j: int| 0 <= i < j < rest.len() implies rest[i].0 != rest[j].0 by {
            assert(rest[i] == es[i + 1] && rest[j] == es[j + 1]);
        }
        lemma_entries_dom(rest);
        let k0 = es[0].0;
        assert forall|k: Seq<char>| #[trigger] entries_map(es).dom().contains(k) == entries_map(
            rest,
        ).dom().insert(k0).contains(k) by {
            lemma_find_key(es, k);
            lemma_find_key(rest, k);
            if k != k0 && find_key(es, k) >= 0 {
                assert(rest[find_key(es, k) - 1] == es[find_key(es, k)]);
            }
            if k != k0 && find_key(rest, k) >= 0 {
                assert(es[find_key(rest, k) + 1] == rest[find_key(rest, k)]);
            }
        }
        assert(entries_map(es).dom() =~= entries_map(rest).dom().insert(k0));
        lemma_find_key(rest, k0);
        if find_key(rest, k0) >= 0 {
            assert(es[find_key(rest, k0) + 1] == rest[find_key(rest, k0)]);
        }
    }
}

/// Node name -> note.
pub struct NoteMap {
    entries: Vec<(String, NodeNote)>,
}

impl View for NoteMap {
    type V = Map<Seq<char>, Seq<Seq<char>>>;

    closed spec fn view(&self) -> Map<Seq<char>, Seq<Seq<char>>> {
        entries_map(entry_views(self.entries@))
    }
}

/// Some key of `m` maps to `v`.
pub open spec fn has_value(m: Map<Seq<char>, Seq<Seq<char>>>, v: Seq<Seq<char>>) -> bool {
    exists|k: Seq<char>| m.contains_key(k) && m[k] == v
}

/// No key occurs twice.
pub open spec fn distinct_keys(es: Seq<(Seq<char>, Seq<Seq<char>>)>) -> bool {
    forall|i: int, j: int| 0 <= i < j < es.len() ==> es[i].0 != es[j].0
}

impl NoteMap {
    #[verifier::type_invariant]
    spec fn keys_unique(self) -> bool {
        distinct_keys(entry_views(self.entries@))
    }

    pub fn new() -> (m: NoteMap)
        ensures
            m@ == Map::<Seq<char>, Seq<Seq<char>>>::empty(),
    {
        let m = NoteMap { entries: Vec::new() };
        assert(m@ =~= Map::<Seq<char>, Seq<Seq<char>>>::empty());
        m
    }

    /// The index of the entry with key `name`, if any.
    fn position(&self, name: &str) -> (r: Option<usize>)
        ensures
            match r {
                None => find_key(entry_views(self.entries@), name@) == -1,
                Some(i) => i < self.entries@.len() && find_key(entry_views(self.entries@), name@)
                    == i as int,
            },
    {
        let ghost ev = entry_views(self.entries@);
        let mut i: usize = 0;
        while i < self.entries.len()
            invariant
                i <= self.entries@.len(),
                ev == entry_views(self.entries@),
                forall|j: int| 0 <= j < i ==> ev[j].0 != name@,
            decreases self.entries@.len() - i,
        {
            if crate::text::same_text(self.entries[i].0.as_str(), name) {
                proof {
                    lemma_find_key_is(ev, name@, i as int);
                }
                return Some(i);
            }
            i = i + 1;
        }
        proof {
            lemma_find_key(ev, name@);
        }
        None
    }

    pub fn contains_key(&self, name: &str) -> (b: bool)
        ensures
            b == self@.contains_key(name@),
    {
        self.position(name).is_some()
    }

    pub fn get(&self, name: &str) -> (r: Option<&NodeNote>)
        ensures
            match r {
                None => !self@.contains_key(name@),
                Some(n) => self@.contains_key(name@) && n@ == self@[name@],
            },
    {
        match self.position(name) {
            None => None,
            Some(i) => Some(&self.entries[i].1),
        }
    }

    /// All notes, one per node name, in no particular order: position `j`
    /// holds the note of the name `names[j]`, and the names are distinct.
    pub fn values(&self) -> (r: Vec<&NodeNote>)
        ensures
            r@.len() == self@.dom().len(),
            exists|names: Seq<Seq<char>>|
                #![trigger names.len()]
                names.len() == r@.len() && (forall|i: int, j: int|
                    0 <= i < j < names.len() ==> names[i] != names[j]) && forall|j: int|
                    0 <= j < names.len() ==> self@.contains_key(#[trigger] names[j]) && r@[j]@
                        == self@[names[j]],
            forall|j: int| 0 <= j < r@.len() ==> has_value(self@, #[trigger] r@[j]@),
            forall|k: Seq<char>| #[trigger]
                self@.contains_key(k) ==> exists|j: int| 0 <= j < r@.len() && r@[j]@ == self@[k],
    {
        proof {
            use_type_invariant(self);
        }
        let ghost ev = entry_views(self.entries@);
        let mut r: Vec<&NodeNote> = Vec::new();
        let mut i: usize = 0;
        while i < self.entries.len()
            invariant
                i <= self.entries@.len(),
                ev == entry_views(self.entries@),
                r@.len() == i,
                forall|j: int| 0 <= j < i ==> r@[j] == self.entries@[j].1,
            decreases self.entries@.len() - i,
        {
            r.push(&self.entries[i].1);
            i = i + 1;
        }
        assert forall|j: int| 0 <= j < r@.len() implies has_value(self@, #[trigger] r@[j]@) by {
            let k = ev[j].0;
            assert(ev[j] == (self.entries@[j].0@, self.entries@[j].1@));
            lemma_find_key(ev, k);
            lemma_find_key_is(ev, k, j);
            assert(self@.contains_key(k) && self@[k] == r@[j]@);
        }
        assert forall|k: Seq<char>| #[trigger]
            self@.contains_key(k) implies exists|j: int| 0 <= j < r@.len() && r@[j]@ == self@[k] by {
            lemma_find_key(ev, k);
            let j = find_key(ev, k);
            assert(r@[j]@ == self@[k]);
        }
        proof {
            lemma_entries_dom(ev);
            let names = ev.map_values(|e: (Seq<char>, Seq<Seq<char>>)| e.0);
            assert forall|j: int| 0 <= j < names.len() implies self@.contains_key(#[trigger] names[j])
                && r@[j]@ == self@[names[j]] by {
                assert(has_value(self@, r@[j]@));
                let k = ev[j].0;
                assert(ev[j] == (self.entries@[j].0@, self.entries@[j].1@));
                lemma_find_key(ev, k);
                lemma_find_key_is(ev, k, j);
            }
            assert(names.len() == r@.len());
        }
        r
    }

    /// Insert or replace the note of `name`.
    pub fn insert(&mut self, name: String, note: NodeNote)
        ensures
            final(self)@ == old(self)@.insert(name@, note@),
    {
        proof {
            use_type_invariant(&*self);
        }
        let ghost ev = entry_views(self.entries@);
        let ghost k = name@;
        let ghost nv = note@;
        let pos = self.position(name.as_str());
        let mut es: Vec<(String, NodeNote)> = Vec::new();
        std::mem::swap(&mut es, &mut self.entries);
        proof {
            lemma_find_key(ev, k);
        }
        match pos {
            Some(i) => {
                es.set(i, (name, note));
                proof {
                    let ev2 = entry_views(es@);
                    assert(ev2.len() == ev.len());
                    assert forall|j: int| 0 <= j < ev.len() implies #[trigger] ev2[j].0 == ev[j].0 by {
                        if j != i {
                            assert(es@[j] == old(self).entries@[j]);
                        }
                    }
                    assert(distinct_keys(ev2));
                    assert forall|k2: Seq<char>| true implies find_key(ev2, k2) == find_key(ev, k2) by {
                        lemma_find_key(ev, k2);
                        lemma_find_key(ev2, k2);
                        if find_key(ev, k2) >= 0 {
                            lemma_find_key_is(ev2, k2, find_key(ev, k2));
                        } else if find_key(ev2, k2) >= 0 {
                            assert(ev[find_key(ev2, k2)].0 == k2);
                        }
                    }
                    assert(ev2[i as int] == (k, nv));
                    assert forall|k2: Seq<char>| k2 != k && find_key(ev, k2) >= 0 implies
                        ev2[find_key(ev2, k2)] == ev[find_key(ev, k2)] by {
                        lemma_find_key(ev, k2);
                        assert(find_key(ev, k2) != i);
                        assert(es@[find_key(ev, k2)] == old(self).entries@[find_key(ev, k2)]);
                    }
                    assert(entries_map(ev2) =~= entries_map(ev).insert(k, nv));
                }
                self.entries = es;
            },
            None => {
                es.push((name, note));
                proof {
                    let ev2 = entry_views(es@);
                    assert(ev2 =~= ev.push((k, nv)));
                    lemma_find_key_is(ev2, k, ev.len() as int);
                    assert(distinct_keys(ev2));
                    assert forall|k2: Seq<char>| k2 != k implies find_key(ev2, k2) == find_key(ev, k2) by {
                        lemma_find_key(ev, k2);
                        lemma_find_key(ev2, k2);
                        if find_key(ev, k2) >= 0 {
                            lemma_find_key_is(ev2, k2, find_key(ev, k2));
                        } else if find_key(ev2, k2) >= 0 {
                            assert(find_key(ev2, k2) < ev.len());
                            assert(ev[find_key(ev2, k2)].0 == k2);
                        }
                    }
                    assert forall|k2: Seq<char>| k2 != k && find_key(ev, k2) >= 0 implies
                        ev2[find_key(ev2, k2)] == ev[find_key(ev, k2)] by {
                        lemma_find_key(ev, k2);
                    }
                    assert(entries_map(ev2) =~= entries_map(ev).insert(k, nv));
                }
                self.entries = es;
            },
        }
    }

    /// Some member of a group has a note. When none has, the node page drops
    /// the note column and gives the whole row to the names.
    pub fn any_noted(&self, members: &Vec<String>) -> (b: bool)
        ensures
            b == exists|i: int| 0 <= i < members@.len() && self@.contains_key(#[trigger] members@[i]@),
    {
        let mut i: usize = 0;
        while i < members.len()
            invariant
                i <= members@.len(),
                forall|j: int| 0 <= j < i ==> !self@.contains_key(#[trigger] members@[j]@),
            decreases members@.len() - i,
        {
            if self.contains_key(members[i].as_str()) {
                return true;
            }
            i = i + 1;
        }
        false
    }

    /// Some member's note has two or more columns: the node page then lines
    /// the notes up in columns, otherwise each note fills one cell.
    pub fn columnar(&self, members: &Vec<String>) -> (b: bool)
        ensures
            b == exists|i: int|
                0 <= i < members@.len() && self@.contains_key(#[trigger] members@[i]@)
                    && self@[members@[i]@].len() >= 2,
    {
        let mut i: usize = 0;
        while i < members.len()
            invariant
                i <= members@.len(),
                forall|j: int|
                    0 <= j < i ==> !(self@.contains_key(#[trigger] members@[j]@) && self@[members@[j]@].len()
                        >= 2),
            decreases members@.len() - i,
        {
            match self.get(members[i].as_str()) {
                Some(n) => {
                    if n.parts() >= 2 {
                        return true;
                    }
                },
                None => {},
            }
            i = i + 1;
        }
        false
    }
}

/// The tooltip of a node row: the name, then ` · ` and the note text when
/// there is one.
pub fn row_title(member: &str, note: &NodeNote) -> (r: String)
    ensures
        r@ == if note_text(note@).len() == 0 {
            member@
        } else {
            member@ + dot_sep() + note_text(note@)
        },
{
    let t = note.text();
    if t.as_str().is_empty() {
        proof {
            assert(t@.len() == 0);
        }
        return member.to_string();
    }
    let mut v = crate::text::chars_of(member);
    let sep: Vec<char> = vec![' ', '\u{B7}', ' '];
    assert(sep@ =~= dot_sep());
    append_chars(&mut v, &sep);
    append_chars(&mut v, &crate::text::chars_of(t.as_str()));
    crate::text::string_from(&v)
}


// ---------------------------------------------------------------------------
// The line scanner

/// What the scanner carries from one line to the next.
pub struct ScanState {
    /// Inside the top-level `proxies:` section.
    pub in_proxies: bool,
    /// A whole-line comment directly above the coming entry.
    pub pending: Option<Seq<char>>,
    /// The note of the current entry while its `name:` has not been seen.
    pub entry_note: Option<Seq<char>>,
    /// The current entry still waits for its `name:`.
    pub awaiting: bool,
    /// Notes found so far.
    pub out: Map<Seq<char>, Seq<Seq<char>>>,
}

pub open spec fn scan_start() -> ScanState {
    ScanState {
        in_proxies: false,
        pending: None,
        entry_note: None,
        awaiting: false,
        out: Map::empty(),
    }
}

/// Attach `note` to `name`, when there is a note with at least one column.
pub open spec fn record(
    out: Map<Seq<char>, Seq<Seq<char>>>,
    name: Seq<char>,
    note: Option<Seq<char>>,
) -> Map<Seq<char>, Seq<Seq<char>>> {
    match note {
        None => out,
        Some(n) => if split_cols(n).len() > 0 {
            out.insert(name, split_cols(n))
        } else {
            out
        },
    }
}

pub open spec fn proxies_key() -> Seq<char> {
    seq!['p', 'r', 'o', 'x', 'i', 'e', 's']
}

/// The comment if there is one, else the fallback.
pub open spec fn or_else(a: Option<Seq<char>>, b: Option<Seq<char>>) -> Option<Seq<char>> {
    if a is Some {
        a
    } else {
        b
    }
}

/// One line of `config.yaml`.
pub open spec fn scan_step(st: ScanState, line: Seq<char>) -> ScanState {
    if is_top_line(line) {
        ScanState {
            in_proxies: trim(until(line, |c: char| c == ':')) == proxies_key(),
            pending: None,
            entry_note: None,
            awaiting: false,
            out: st.out,
        }
    } else if !st.in_proxies {
        st
    } else {
        let comment = comment_split(line).1;
        let code = trim(comment_split(line).0);
        if code.len() == 0 {
            if comment is None {
                ScanState { pending: None, entry_note: None, awaiting: false, ..st }
            } else {
                ScanState { pending: comment, ..st }
            }
        } else if code[0] == '-' {
            let note = or_else(comment, st.pending);
            match parse_name(code.drop_first()) {
                Some(name) => ScanState {
                    pending: None,
                    entry_note: None,
                    awaiting: false,
                    out: record(st.out, name, note),
                    ..st
                },
                None => ScanState { pending: None, entry_note: note, awaiting: true, ..st },
            }
        } else if st.awaiting {
            match parse_name(code) {
                Some(name) => ScanState {
                    pending: None,
                    entry_note: if comment is Some {
                        st.entry_note
                    } else {
                        None
                    },
                    awaiting: false,
                    out: record(st.out, name, or_else(comment, st.entry_note)),
                    ..st
                },
                None => ScanState { pending: None, ..st },
            }
        } else {
            ScanState { pending: None, ..st }
        }
    }
}

pub open spec fn scan_lines(ls: Seq<Seq<char>>) -> ScanState
    decreases ls.len(),
{
    if ls.len() == 0 {
        scan_start()
    } else {
        scan_step(scan_lines(ls.drop_last()), ls.last())
    }
}

/// The notes of a whole `config.yaml`.
pub open spec fn notes_of(yaml: Seq<char>) -> Map<Seq<char>, Seq<Seq<char>>> {
    scan_lines(lines(yaml)).out
}

/// A character range of the text viewed as an optional value.
pub open spec fn opt_text(v: Seq<char>, o: Option<(usize, usize)>) -> Option<Seq<char>> {
    match o {
        None => None,
        Some((a, b)) => Some(v.subrange(a as int, b as int)),
    }
}

pub open spec fn range_in(v: Seq<char>, o: Option<(usize, usize)>) -> bool {
    match o {
        None => true,
        Some((a, b)) => a <= b <= v.len(),
    }
}

/// Store the note of `name` (when it has columns).
fn record_at(out: &mut NoteMap, v: &Vec<char>, name: (usize, usize), note: Option<(usize, usize)>)
    requires
        name.0 <= name.1 <= v@.len(),
        range_in(v@, note),
    ensures
        final(out)@ == record(old(out)@, v@.subrange(name.0 as int, name.1 as int), opt_text(v@, note)),
{
    if let Some((a, b)) = note {
        let cols = cols_at(v, a, b);
        if cols.len() > 0 {
            let n = NodeNote { cols: strings_from(&cols) };
            out.insert(string_of(v, name.0, name.1), n);
        }
    }
}

/// The scanner's variables while it reads the text `v`.
struct ScanVars {
    in_proxies: bool,
    pending: Option<(usize, usize)>,
    entry_note: Option<(usize, usize)>,
    awaiting: bool,
    out: NoteMap,
}

spec fn vars_ok(v: Seq<char>, s: ScanVars) -> bool {
    range_in(v, s.pending) && range_in(v, s.entry_note)
}

spec fn vars_view(v: Seq<char>, s: ScanVars) -> ScanState {
    ScanState {
        in_proxies: s.in_proxies,
        pending: opt_text(v, s.pending),
        entry_note: opt_text(v, s.entry_note),
        awaiting: s.awaiting,
        out: s.out@,
    }
}

/// Scan the line `v[a..b]`.
fn scan_line(v: &Vec<char>, a: usize, b: usize, proxies: &Vec<char>, st: &mut ScanVars)
    requires
        a <= b <= v@.len(),
        proxies@ == proxies_key(),
        vars_ok(v@, *old(st)),
    ensures
        vars_ok(v@, *final(st)),
        vars_view(v@, *final(st)) == scan_step(vars_view(v@, *old(st)), v@.subrange(a as int, b as int)),
{
    let ghost line = v@.subrange(a as int, b as int);
    if a < b && v[a] != ' ' && v[a] != '\t' {
        let e = scan_until(v, a, b, ':', ':');
        let (ka, kb) = trim_bounds(v, a, e);
        let is_proxies = kb - ka == 7 && matches_at(v, ka, kb, proxies);
        proof {
            assert((|c: char| c == ':' || c == ':') =~= (|c: char| c == ':'));
            let key = v@.subrange(ka as int, kb as int);
            assert(v@.subrange(a as int, e as int) == until(line, |c: char| c == ':'));
            assert(key == trim(until(line, |c: char| c == ':')));
            assert(proxies_key().len() == 7);
            if kb - ka == 7 {
                assert(v@.subrange(0, kb as int).subrange(ka as int, ka + 7) =~= key);
                assert(is_proxies == (key == proxies_key()));
            } else {
                assert(key.len() != proxies_key().len());
                assert(!is_proxies);
                assert(key != proxies_key());
            }
        }
        assert(is_top_line(line));
        st.in_proxies = is_proxies;
        st.pending = None;
        st.entry_note = None;
        st.awaiting = false;
        assert(vars_view(v@, *st) == scan_step(vars_view(v@, *old(st)), line));
    } else if st.in_proxies {
        assert(!is_top_line(line));
        let (ce, com) = split_comment_at(v, a, b);
        let (ca, cb) = trim_bounds(v, a, ce);
        if ca == cb {
            st.pending = com;
            if com.is_none() {
                st.awaiting = false;
                st.entry_note = None;
            }
        } else if v[ca] == '-' {
            let note = if com.is_some() {
                com
            } else {
                st.pending
            };
            assert(v@.subrange(ca as int, cb as int).drop_first() =~= v@.subrange(ca + 1, cb as int));
            match parse_name_at(v, ca + 1, cb) {
                Some(name) => {
                    record_at(&mut st.out, v, name, note);
                    st.entry_note = None;
                    st.awaiting = false;
                },
                None => {
                    st.entry_note = note;
                    st.awaiting = true;
                },
            }
            st.pending = None;
        } else if st.awaiting {
            match parse_name_at(v, ca, cb) {
                Some(name) => {
                    let note = if com.is_some() {
                        com
                    } else {
                        let n = st.entry_note;
                        st.entry_note = None;
                        n
                    };
                    record_at(&mut st.out, v, name, note);
                    st.awaiting = false;
                },
                None => {},
            }
            st.pending = None;
        } else {
            st.pending = None;
        }
    }
}

/// Notes of the text `v`.
fn parse_chars(v: &Vec<char>) -> (m: NoteMap)
    ensures
        m@ == notes_of(v@),
{
    let ls = line_ranges(v);
    let proxies: Vec<char> = vec!['p', 'r', 'o', 'x', 'i', 'e', 's'];
    assert(proxies@ =~= proxies_key());
    let mut st = ScanVars {
        in_proxies: false,
        pending: None,
        entry_note: None,
        awaiting: false,
        out: NoteMap::new(),
    };
    assert(vars_view(v@, st) == scan_start());
    let mut k: usize = 0;
    while k < ls.len()
        invariant
            k <= ls@.len(),
            proxies@ == proxies_key(),
            ls@.len() == lines(v@).len(),
            forall|j: int|
                #![trigger ls@[j]]
                0 <= j < ls@.len() ==> {
                    &&& ls@[j].0 <= ls@[j].1 <= v@.len()
                    &&& v@.subrange(ls@[j].0 as int, ls@[j].1 as int) == lines(v@)[j]
                },
            vars_ok(v@, st),
            vars_view(v@, st) == scan_lines(lines(v@).take(k as int)),
        decreases ls@.len() - k,
    {
        let (a, b) = ls[k];
        proof {
            assert(v@.subrange(a as int, b as int) == lines(v@)[k as int]);
            assert(lines(v@).take(k + 1).drop_last() =~= lines(v@).take(k as int));
        }
        scan_line(v, a, b, &proxies, &mut st);
        k = k + 1;
    }
    assert(lines(v@).take(k as int) =~= lines(v@));
    st.out
}

/// Scan the `proxies:` section of `config.yaml` line by line and attach the
/// comments to the node names. No YAML parser is used: comments do not exist
/// in a YAML syntax tree.
pub fn parse(yaml: &str) -> (m: NoteMap)
    ensures
        m@ == notes_of(yaml@),
{
    let v = chars_of(yaml);
    parse_chars(&v)
}


// ---------------------------------------------------------------------------
// Laws

/// Every note has between one and three columns: the note table keeps the
/// number of columns fixed so that the page can align them.
pub open spec fn all_notes_fit(m: Map<Seq<char>, Seq<Seq<char>>>) -> bool {
    forall|k: Seq<char>| #[trigger] m.contains_key(k) ==> 1 <= m[k].len() <= 3
}

proof fn lemma_record_fits(out: Map<Seq<char>, Seq<Seq<char>>>, name: Seq<char>, note: Option<Seq<char>>)
    requires
        all_notes_fit(out),
    ensures
        all_notes_fit(record(out, name, note)),
{
}

proof fn lemma_scan_fits(ls: Seq<Seq<char>>)
    ensures
        all_notes_fit(scan_lines(ls).out),
    decreases ls.len(),
{
    if ls.len() > 0 {
        lemma_scan_fits(ls.drop_last());
        let st = scan_lines(ls.drop_last());
        let line = ls.last();
        let comment = comment_split(line).1;
        let code = trim(comment_split(line).0);
        if code.len() > 0 && code[0] == '-' {
            if let Some(name) = parse_name(code.drop_first()) {
                lemma_record_fits(st.out, name, or_else(comment, st.pending));
            }
        } else if code.len() > 0 && st.awaiting {
            if let Some(name) = parse_name(code) {
                lemma_record_fits(st.out, name, or_else(comment, st.entry_note));
            }
        }
    }
}

/// Every parsed note has one, two or three columns.
pub proof fn law_note_columns(yaml: Seq<char>)
    ensures
        all_notes_fit(notes_of(yaml)),
{
    lemma_scan_fits(lines(yaml));
}

// ---------------------------------------------------------------------------
// Laws of the column splitter

/// One of the column separators `·`, `•`, `|`, `｜`.
pub open spec fn separator_char(c: char) -> bool {
    c == '\u{B7}' || c == '\u{2022}' || c == '|' || c == '\u{FF5C}'
}

/// Text that holds no column separator.
pub open spec fn no_separator(t: Seq<char>) -> bool {
    forall|i: int| 0 <= i < t.len() ==> !separator_char(#[trigger] t[i])
}

/// Text without any whitespace (ASCII, tab, ideographic or other).
pub open spec fn no_space(t: Seq<char>) -> bool {
    forall|i: int| 0 <= i < t.len() ==> !is_ws(#[trigger] t[i])
}

proof fn lemma_pieces_plain(s: Seq<char>, start: int, i: int)
    requires
        0 <= start <= i <= s.len(),
        forall|k: int| i <= k < s.len() ==> !is_sep(#[trigger] s[k]),
    ensures
        pieces_from(s, start, i) == seq![s.subrange(start, s.len() as int)],
    decreases s.len() - i,
{
    if i < s.len() {
        lemma_pieces_plain(s, start, i + 1);
    }
}

proof fn lemma_pieces_to_sep(s: Seq<char>, start: int, i: int, k: int)
    requires
        0 <= start <= i <= k < s.len(),
        forall|j: int| i <= j < k ==> !is_sep(#[trigger] s[j]),
        is_sep(s[k]),
    ensures
        pieces_from(s, start, i) == seq![s.subrange(start, k)] + pieces_from(s, k + 1, k + 1),
    decreases k - i,
{
    if i < k {
        lemma_pieces_to_sep(s, start, i + 1, k);
    }
}

/// A note made of two texts joined by one of the separators `·`, `•`, `|`
/// or `｜` splits into exactly those two texts, trimmed.
pub proof fn law_separator_splits(a: Seq<char>, sep: char, b: Seq<char>)
    requires
        separator_char(sep),
        no_separator(a),
        no_separator(b),
        trim(a).len() > 0,
        trim(b).len() > 0,
    ensures
        split_cols(a + seq![sep] + b) == seq![trim(a), trim(b)],
{
    let s = a + seq![sep] + b;
    let k = a.len() as int;
    assert forall|j: int| 0 <= j < k implies !is_sep(#[trigger] s[j]) by {
        assert(s[j] == a[j]);
        assert(!separator_char(a[j]));
    }
    assert(s[k] == sep);
    lemma_pieces_to_sep(s, 0, 0, k);
    assert forall|j: int| k + 1 <= j < s.len() implies !is_sep(#[trigger] s[j]) by {
        assert(s[j] == b[j - k - 1]);
        assert(!separator_char(b[j - k - 1]));
    }
    lemma_pieces_plain(s, k + 1, k + 1);
    assert(s.subrange(0, k) =~= a);
    assert(s.subrange(k + 1, s.len() as int) =~= b);
    let p = sep_pieces(s);
    assert(p =~= seq![a, b]);
    let t = trimmed(p);
    assert(t =~= seq![trim(a), trim(b)]);
    assert(drop_trailing_empty(t) == t);
}

/// The wide-gap splitter run from a state over more text.
pub open spec fn gap_run(st: GapState, q: Seq<char>) -> GapState
    decreases q.len(),
{
    if q.len() == 0 {
        st
    } else {
        gap_step(gap_run(st, q.drop_last()), q.last())
    }
}

proof fn lemma_gap_fold_concat(p: Seq<char>, q: Seq<char>)
    ensures
        gap_fold(p + q) == gap_run(gap_fold(p), q),
    decreases q.len(),
{
    if q.len() == 0 {
        assert(p + q =~= p);
    } else {
        assert((p + q).drop_last() =~= p + q.drop_last());
        assert((p + q).last() == q.last());
        lemma_gap_fold_concat(p, q.drop_last());
    }
}

/// Plain characters (no space, tab or ideographic space) extend the
/// current column when no gap is pending.
proof fn lemma_gap_run_plain(cols: Seq<Seq<char>>, cur: Seq<char>, q: Seq<char>)
    requires
        no_space(q),
    ensures
        gap_run(GapState { cols, cur, gap: 0 }, q) == (GapState { cols, cur: cur + q, gap: 0 }),
    decreases q.len(),
{
    if q.len() > 0 {
        assert forall|i: int| 0 <= i < q.drop_last().len() implies !is_ws(#[trigger] q.drop_last()[i]) by {
            assert(q.drop_last()[i] == q[i]);
        }
        lemma_gap_run_plain(cols, cur, q.drop_last());
        assert(!is_ws(q[q.len() - 1]));
        assert(cur + q.drop_last() + seq![q.last()] =~= cur + q);
        assert((cur + q.drop_last()).push(q.last()) =~= cur + q);
    }
}

proof fn lemma_trim_plain_text(t: Seq<char>)
    requires
        no_space(t),
        t.len() > 0,
    ensures
        trim(t) == t,
{
    assert(!is_ws(t[0]));
    assert(!is_ws(t[t.len() - 1]));
}

/// In a note without separators, a wide gap (two spaces, a tab, or one
/// ideographic space) between two words makes two columns.
pub proof fn law_wide_gap_splits(a: Seq<char>, gap: Seq<char>, b: Seq<char>)
    requires
        gap == seq![' ', ' '] || gap == seq!['\t'] || gap == seq!['\u{3000}'],
        no_separator(a),
        no_separator(b),
        no_space(a),
        no_space(b),
        a.len() > 0,
        b.len() > 0,
    ensures
        split_cols(a + gap + b) == seq![a, b],
{
    reveal_with_fuel(gap_run, 3);
    let s = a + gap + b;
    assert forall|j: int| 0 <= j < s.len() implies !is_sep(#[trigger] s[j]) by {
        if j < a.len() {
            assert(s[j] == a[j]);
            assert(!separator_char(a[j]));
        } else if j < a.len() + gap.len() {
            assert(s[j] == gap[j - a.len()]);
        } else {
            assert(s[j] == b[j - a.len() - gap.len()]);
            assert(!separator_char(b[j - a.len() - gap.len()]));
        }
    }
    lemma_pieces_plain(s, 0, 0);
    assert(s.subrange(0, s.len() as int) =~= s);
    let t = trimmed(sep_pieces(s));
    assert(t.len() == 1);
    assert(drop_trailing_empty(t).len() <= 1) by {
        if t.last().len() == 0 {
            assert(t.drop_last().len() == 0);
        }
    }
    // The wide-gap splitter.
    lemma_gap_fold_concat(seq![], a);
    assert(seq![] + a =~= a);
    lemma_gap_run_plain(seq![], seq![], a);
    assert(seq![] + a =~= a);
    assert(gap_fold(a) == (GapState { cols: seq![], cur: a, gap: 0 }));
    lemma_trim_plain_text(a);
    lemma_trim_plain_text(b);
    lemma_gap_fold_concat(a, gap);
    let g = gap_fold(a + gap);
    if gap == seq![' ', ' '] {
        assert(gap.drop_last() =~= seq![' ']);
        assert(seq![' '].drop_last() =~= Seq::<char>::empty());
    } else {
        assert(gap.drop_last() =~= Seq::<char>::empty());
    }
    assert(g == (GapState { cols: seq![], cur: a, gap: 2 }));
    lemma_gap_fold_concat(a + gap, b);
    let b0 = seq![b[0]];
    let brest = b.drop_first();
    assert(b =~= b0 + brest);
    lemma_gap_fold_concat(a + gap + b0, brest);
    assert(a + gap + b0 + brest =~= s);
    lemma_gap_fold_concat(a + gap, b0);
    assert(b0.drop_last() =~= Seq::<char>::empty());
    assert(!is_ws(b[0]));
    let g1 = gap_fold(a + gap + b0);
    assert(g1 == (GapState { cols: seq![a], cur: seq![b[0]], gap: 0 }));
    assert forall|i: int| 0 <= i < brest.len() implies !is_ws(#[trigger] brest[i]) by {
        assert(brest[i] == b[i + 1]);
    }
    lemma_gap_run_plain(seq![a], seq![b[0]], brest);
    assert(seq![b[0]] + brest =~= b);
    assert(gap_fold(s) == (GapState { cols: seq![a], cur: b, gap: 0 }));
    assert(wide_gaps(s) =~= seq![a, b]);
}

// ---------------------------------------------------------------------------
// Laws of the name reader

proof fn lemma_until_at(s: Seq<char>, stop: spec_fn(char) -> bool, j: int)
    requires
        0 <= j <= s.len(),
        forall|i: int| 0 <= i < j ==> !stop(#[trigger] s[i]),
        j == s.len() || stop(s[j]),
    ensures
        until(s, stop) == s.take(j),
    decreases s.len(),
{
    if s.len() > 0 && j > 0 {
        assert forall|i: int| 0 <= i < j - 1 implies !stop(#[trigger] s.drop_first()[i]) by {
            assert(s.drop_first()[i] == s[i + 1]);
        }
        assert(!stop(s[0]));
        lemma_until_at(s.drop_first(), stop, j - 1);
        assert(seq![s[0]] + s.drop_first().take(j - 1) =~= s.take(j));
    } else if s.len() > 0 {
        assert(s.take(0) =~= Seq::<char>::empty());
    }
}

proof fn lemma_unquoted_value(t: Seq<char>, j: int)
    requires
        0 <= j <= t.len(),
        forall|i: int| 0 <= i < j ==> #[trigger] t[i] != ',' && t[i] != '}',
        j == t.len() || t[j] == ',' || t[j] == '}',
    ensures
        trim(until(trim_start(t), |c: char| c == ',' || c == '}')) == trim(t.take(j)),
    decreases t.len(),
{
    let stop = |c: char| c == ',' || c == '}';
    if t.len() > 0 && is_ws(t[0]) {
        assert(j > 0);
        let u = t.drop_first();
        assert forall|i: int| 0 <= i < j - 1 implies #[trigger] u[i] != ',' && u[i] != '}' by {
            assert(u[i] == t[i + 1]);
        }
        if j < t.len() {
            assert(u[j - 1] == t[j]);
        }
        lemma_unquoted_value(u, j - 1);
        assert(t.take(j).drop_first() =~= u.take(j - 1));
        assert(trim_start(t.take(j)) == trim_start(u.take(j - 1)));
    } else {
        assert forall|i: int| 0 <= i < j implies !stop(#[trigger] t[i]) by {}
        lemma_until_at(t, stop, j);
    }
}

/// An unquoted `name:` value is the whole text up to the next `,` or `}`
/// (or the end of the code), trimmed: spaces inside the name are kept.
pub proof fn law_unquoted_name(t: Seq<char>, j: int)
    requires
        0 <= j <= t.len(),
        forall|i: int| 0 <= i < j ==> #[trigger] t[i] != ',' && t[i] != '}',
        j == t.len() || t[j] == ',' || t[j] == '}',
        trim_start(t).len() == 0 || (trim_start(t)[0] != '"' && trim_start(t)[0] != '\''),
    ensures
        parse_name(seq!['n', 'a', 'm', 'e', ':'] + t) == Some(trim(t.take(j))),
{
    let code = seq!['n', 'a', 'm', 'e', ':'] + t;
    assert(code.subrange(0, 5) =~= name_key());
    assert(occurs_at(code, 0, name_key()));
    assert(name_at(code, 0));
    assert(name_pos_from(code, 0) == 0);
    assert(code.skip(5) =~= t);
    lemma_unquoted_value(t, j);
}

// ---------------------------------------------------------------------------
// Laws of the line scanner

/// The scanner run from a state over more lines.
pub open spec fn scan_run(st: ScanState, ls: Seq<Seq<char>>) -> ScanState
    decreases ls.len(),
{
    if ls.len() == 0 {
        st
    } else {
        scan_step(scan_run(st, ls.drop_last()), ls.last())
    }
}

proof fn lemma_scan_concat(p: Seq<Seq<char>>, q: Seq<Seq<char>>)
    ensures
        scan_lines(p + q) == scan_run(scan_lines(p), q),
    decreases q.len(),
{
    if q.len() == 0 {
        assert(p + q =~= p);
    } else {
        assert((p + q).drop_last() =~= p + q.drop_last());
        assert((p + q).last() == q.last());
        lemma_scan_concat(p, q.drop_last());
    }
}

/// The YAML code of a line (its comment cut off), trimmed.
pub open spec fn line_code(l: Seq<char>) -> Seq<char> {
    trim(comment_split(l).0)
}

/// A line under `proxies:` that holds only the comment `c`.
pub open spec fn comment_only_line(l: Seq<char>, c: Seq<char>) -> bool {
    !is_top_line(l) && line_code(l).len() == 0 && comment_split(l).1 == Some(c)
}

/// The dash line of an entry whose `name:` comes later, with its trailing
/// comment `c`, if any.
pub open spec fn nameless_dash_line(l: Seq<char>, c: Option<Seq<char>>) -> bool {
    &&& !is_top_line(l)
    &&& line_code(l).len() > 0
    &&& line_code(l)[0] == '-'
    &&& parse_name(line_code(l).drop_first()) is None
    &&& comment_split(l).1 == c
}

/// Another property line of the entry (`type: ss` and the like; a comment on
/// it is of no account).
pub open spec fn property_line(l: Seq<char>) -> bool {
    &&& !is_top_line(l)
    &&& line_code(l).len() > 0
    &&& line_code(l)[0] != '-'
    &&& parse_name(line_code(l)) is None
}

/// The `name:` line of the entry, naming `n`, with its trailing comment `c`.
pub open spec fn name_line(l: Seq<char>, n: Seq<char>, c: Option<Seq<char>>) -> bool {
    &&& !is_top_line(l)
    &&& line_code(l).len() > 0
    &&& line_code(l)[0] != '-'
    &&& parse_name(line_code(l)) == Some(n)
    &&& comment_split(l).1 == c
}

proof fn lemma_scan_properties(st: ScanState, props: Seq<Seq<char>>)
    requires
        st.in_proxies,
        st.awaiting,
        forall|i: int| 0 <= i < props.len() ==> property_line(#[trigger] props[i]),
    ensures
        scan_run(st, props).in_proxies,
        scan_run(st, props).awaiting,
        scan_run(st, props).entry_note == st.entry_note,
        scan_run(st, props).out == st.out,
    decreases props.len(),
{
    if props.len() > 0 {
        assert forall|i: int| 0 <= i < props.drop_last().len() implies property_line(
            #[trigger] props.drop_last()[i],
        ) by {
            assert(props.drop_last()[i] == props[i]);
        }
        lemma_scan_properties(st, props.drop_last());
        assert(property_line(props[props.len() - 1]));
    }
}

/// An entry whose `name:` is not on its dash line gets the trailing comment
/// of its name line; failing that, the trailing comment of its dash line;
/// failing that, the comment line directly above the entry. Lines in
/// between (`type: ss` and the like) change nothing. The note is cut into
/// columns, and a note with no column is no note.
pub proof fn law_note_of_entry_with_later_name(
    yaml: Seq<char>,
    pre: Seq<Seq<char>>,
    above: Seq<char>,
    ca: Seq<char>,
    dash: Seq<char>,
    cd: Option<Seq<char>>,
    props: Seq<Seq<char>>,
    nl: Seq<char>,
    n: Seq<char>,
    cn: Option<Seq<char>>,
)
    requires
        lines(yaml) == pre + seq![above, dash] + props + seq![nl],
        scan_lines(pre).in_proxies,
        comment_only_line(above, ca),
        nameless_dash_line(dash, cd),
        forall|i: int| 0 <= i < props.len() ==> property_line(#[trigger] props[i]),
        name_line(nl, n, cn),
    ensures
        ({
            let note = if cn is Some {
                cn->0
            } else if cd is Some {
                cd->0
            } else {
                ca
            };
            notes_of(yaml) == if split_cols(note).len() > 0 {
                scan_lines(pre).out.insert(n, split_cols(note))
            } else {
                scan_lines(pre).out
            }
        }),
{
    let st = scan_lines(pre);
    let body = seq![above, dash] + props + seq![nl];
    assert(pre + seq![above, dash] + props + seq![nl] =~= pre + body);
    lemma_scan_concat(pre, body);
    let s1 = scan_step(st, above);
    let s2 = scan_step(s1, dash);
    assert(s1.in_proxies && s1.pending == Some(ca) && s1.out == st.out);
    assert(s2.in_proxies && s2.awaiting && s2.out == st.out);
    assert(s2.entry_note == or_else(cd, Some(ca)));
    lemma_scan_properties(s2, props);
    let s3 = scan_run(s2, props);
    // Splitting the run into its pieces.
    lemma_scan_run_concat(st, seq![above, dash], props + seq![nl]);
    lemma_scan_run_concat(s2, props, seq![nl]);
    assert(seq![above, dash] + props + seq![nl] =~= seq![above, dash] + (props + seq![nl]));
    assert(seq![above, dash].drop_last() =~= seq![above]);
    assert(seq![above].drop_last() =~= Seq::<Seq<char>>::empty());
    reveal_with_fuel(scan_run, 3);
    assert(seq![above, dash].last() == dash);
    assert(seq![above].last() == above);
    assert(scan_run(st, seq![above, dash]) == s2);
    assert(seq![nl].drop_last() =~= Seq::<Seq<char>>::empty());
    assert(seq![nl].last() == nl);
    assert(scan_run(s3, seq![nl]) == scan_step(s3, nl));
}

proof fn lemma_scan_run_concat(st: ScanState, p: Seq<Seq<char>>, q: Seq<Seq<char>>)
    ensures
        scan_run(st, p + q) == scan_run(scan_run(st, p), q),
    decreases q.len(),
{
    if q.len() == 0 {
        assert(p + q =~= p);
    } else {
        assert((p + q).drop_last() =~= p + q.drop_last());
        assert((p + q).last() == q.last());
        lemma_scan_run_concat(st, p, q.drop_last());
    }
}


/// Cut a line at its comment: the code before it, and the comment body
/// (`None` when there is no comment or it is empty).
pub fn split_comment(line: &str) -> (r: (String, Option<String>))
    ensures
        r.0@ == comment_split(line@).0,
        match r.1 {
            None => comment_split(line@).1 is None,
            Some(c) => comment_split(line@).1 == Some(c@),
        },
{
    let v = chars_of(line);
    let (e, com) = split_comment_at(&v, 0, v.len());
    assert(v@.subrange(0, v@.len() as int) =~= v@);
    let code = string_of(&v, 0, e);
    match com {
        None => (code, None),
        Some((a, b)) => (code, Some(string_of(&v, a, b))),
    }
}

} // verus!
