//! The computing parts of the mihomo process handling: launch arguments, the
//! pid file contents, the elevation check and script. (Spawning, killing and
//! the file system are the application's part.)

use crate::text::{append_chars, chars_of, string_from, trim, trim_bounds};
use vstd::prelude::*;

verus! {

/// The arguments of `mihomo`: `-d <work_dir>` when a working directory is
/// set (not blank), none otherwise.
pub fn mihomo_args(work_dir: &str) -> (r: Vec<String>)
    ensures
        trim(work_dir@).len() == 0 ==> r@.len() == 0,
        trim(work_dir@).len() > 0 ==> r@.len() == 2 && r@[0]@ == "-d"@ && r@[1]@ == work_dir@,
{
    let v = chars_of(work_dir);
    let (a, b) = trim_bounds(&v, 0, v.len());
    assert(v@.subrange(0, v@.len() as int) =~= v@);
    let mut r: Vec<String> = Vec::new();
    if a < b {
        r.push(string_from(&chars_of("-d")));
        r.push(string_from(&v));
    }
    r
}

/// The binary is owned by root and carries the setuid bit, so mihomo runs as
/// root (and can create the TUN interface) even when a user starts it.
pub fn is_root_setuid(uid: u32, mode: u32) -> (b: bool)
    ensures
        b == (uid == 0 && (mode & 0o4000u32) != 0),
{
    uid == 0 && (mode & 0o4000u32) != 0
}

/// The AppleScript that makes the binary at `path` setuid-root behind the
/// system administrator prompt.
pub fn elevation_script(path: &str) -> (r: String)
    ensures
        r@ == "do shell script \"chown root:wheel '"@ + path@ + "' && chmod u+s '"@ + path@
            + "'\" with administrator privileges"@,
{
    let p = chars_of(path);
    let mut r = chars_of("do shell script \"chown root:wheel '");
    append_chars(&mut r, &p);
    append_chars(&mut r, &chars_of("' && chmod u+s '"));
    append_chars(&mut r, &p);
    append_chars(&mut r, &chars_of("'\" with administrator privileges"));
    string_from(&r)
}

pub open spec fn is_digit(c: char) -> bool {
    '0' <= c && c <= '9'
}

/// The number written by a string of decimal digits.
pub open spec fn dec_value(s: Seq<char>) -> int
    decreases s.len(),
{
    if s.len() == 0 {
        0
    } else {
        dec_value(s.drop_last()) * 10 + (s.last() as int - 48)
    }
}

/// Every character is a decimal digit.
pub open spec fn all_digits(d: Seq<char>) -> bool {
    forall|i: int| 0 <= i < d.len() ==> is_digit(#[trigger] d[i])
}

/// The text after an optional leading `+`.
pub open spec fn unsigned_part(s: Seq<char>) -> Seq<char> {
    if s.len() > 0 && s[0] == '+' {
        s.drop_first()
    } else {
        s
    }
}

/// One or more decimal digits whose value fits in a `u32`.
pub open spec fn parse_digits(d: Seq<char>) -> Option<u32> {
    if d.len() > 0 && all_digits(d) && dec_value(d) <= u32::MAX {
        Some(dec_value(d) as u32)
    } else {
        None
    }
}

/// `str::parse::<u32>`: an optional `+`, then one or more decimal digits
/// whose value fits in a `u32`.
pub open spec fn parse_u32(s: Seq<char>) -> Option<u32> {
    parse_digits(unsigned_part(s))
}

proof fn lemma_dec_value_grows(d: Seq<char>, i: int)
    requires
        0 <= i <= d.len(),
        forall|k: int| 0 <= k < d.len() ==> is_digit(#[trigger] d[k]),
    ensures
        dec_value(d.take(i)) <= dec_value(d),
        0 <= dec_value(d.take(i)),
    decreases d.len() - i,
{
    if i < d.len() {
        lemma_dec_value_grows(d, i + 1);
        assert(d.take(i + 1).drop_last() =~= d.take(i));
        lemma_dec_value_nonneg(d.take(i));
    } else {
        assert(d.take(i) =~= d);
        lemma_dec_value_nonneg(d);
    }
}

proof fn lemma_dec_value_nonneg(d: Seq<char>)
    requires
        forall|k: int| 0 <= k < d.len() ==> is_digit(#[trigger] d[k]),
    ensures
        0 <= dec_value(d),
    decreases d.len(),
{
    if d.len() > 0 {
        let p = d.drop_last();
        assert forall|k: int| 0 <= k < p.len() implies is_digit(#[trigger] p[k]) by {
            assert(p[k] == d[k]);
        }
        lemma_dec_value_nonneg(p);
        assert(is_digit(d[d.len() - 1]));
    }
}

/// The process id written in a pid file (surrounding whitespace ignored);
/// `None` when the contents are not a `u32`.
pub fn parse_pid(content: &str) -> (r: Option<u32>)
    ensures
        r == parse_u32(trim(content@)),
{
    let v = chars_of(content);
    let (a, b) = trim_bounds(&v, 0, v.len());
    assert(v@.subrange(0, v@.len() as int) =~= v@);
    let ghost s = v@.subrange(a as int, b as int);
    let start = if a < b && v[a] == '+' {
        a + 1
    } else {
        a
    };
    let ghost d = v@.subrange(start as int, b as int);
    assert(s == trim(content@));
    assert(d =~= unsigned_part(s));
    if start == b {
        return None;
    }
    let mut acc: u64 = 0;
    let mut i = start;
    while i < b
        invariant
            start <= i <= b <= v@.len(),
            d == v@.subrange(start as int, b as int),
            d.len() > 0,
            parse_u32(trim(content@)) == parse_digits(d),
            forall|k: int| 0 <= k < i - start ==> is_digit(#[trigger] d[k]),
            acc as int == dec_value(d.take(i - start)),
            acc <= u32::MAX,
        decreases b - i,
    {
        let c = v[i];
        if !('0' <= c && c <= '9') {
            assert(!is_digit(d[i - start]));
            return None;
        }
        let digit = (c as u32 - 48) as u64;
        proof {
            assert(d.take(i - start + 1).drop_last() =~= d.take(i - start));
            assert(d.take(i - start + 1).last() == c);
        }
        let next = acc * 10 + digit;
        if next > 0xFFFF_FFFFu64 {
            proof {
                if all_digits(d) {
                    lemma_dec_value_grows(d, i - start + 1);
                }
            }
            return None;
        }
        acc = next;
        i = i + 1;
    }
    assert(d.take(i - start) =~= d);
    Some(acc as u32)
}

} // verus!
