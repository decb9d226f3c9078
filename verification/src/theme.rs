//! Dark appearance detection, used only for the colour of the first window
//! frame. On Windows the answer is the `AppsUseLightTheme` registry value,
//! read with `reg query`; the query runs in the application, its output is
//! read here.

use crate::text::{chars_of, is_whitespace, is_ws, skip_ws_back, trim_end};
use vstd::prelude::*;

verus! {

/// The last run of non-whitespace characters of `t` (all of `t` when it has
/// no whitespace).
pub open spec fn final_word(t: Seq<char>) -> Seq<char>
    decreases t.len(),
{
    if t.len() == 0 {
        t
    } else if is_ws(t.last()) {
        seq![]
    } else {
        final_word(t.drop_last()).push(t.last())
    }
}

/// The output of `reg query ... /v AppsUseLightTheme` says dark: its last
/// whitespace-separated word is `0x0`. (A missing key leaves the output
/// empty, which reads as light.)
pub fn reg_query_is_dark(output: &str) -> (b: bool)
    ensures
        b == (trim_end(output@).len() > 0 && final_word(trim_end(output@)) == "0x0"@),
{
    let v = chars_of(output);
    let e = skip_ws_back(&v, 0, v.len());
    assert(v@.subrange(0, v@.len() as int) =~= v@);
    let mut s = e;
    while s > 0 && !is_whitespace(v[s - 1])
        invariant
            s <= e <= v@.len(),
            final_word(v@.subrange(0, e as int)) == final_word(v@.subrange(0, s as int)) + v@.subrange(
                s as int,
                e as int,
            ),
        decreases s,
    {
        let ghost t = v@.subrange(0, s as int);
        assert(t.drop_last() =~= v@.subrange(0, s - 1));
        assert(final_word(t) == final_word(t.drop_last()).push(t.last()));
        assert(final_word(v@.subrange(0, s - 1)).push(v@[s - 1]) + v@.subrange(s as int, e as int)
            =~= final_word(v@.subrange(0, s - 1)) + v@.subrange(s - 1, e as int));
        s = s - 1;
    }
    proof {
        let t = v@.subrange(0, s as int);
        if s > 0 {
            assert(t.last() == v@[s - 1]);
        }
        assert(final_word(t) =~= seq![]);
    }
    assert(Seq::<char>::empty() + v@.subrange(s as int, e as int) =~= v@.subrange(s as int, e as int));
    proof {
        reveal_strlit("0x0");
    }
    if e > 0 && e - s == 3 && v[s] == '0' && v[s + 1] == 'x' && v[s + 2] == '0' {
        assert(v@.subrange(s as int, e as int) =~= "0x0"@);
        true
    } else {
        proof {
            if e - s == 3 {
                assert(v@.subrange(s as int, e as int)[0] == v@[s as int]);
                assert(v@.subrange(s as int, e as int)[1] == v@[s + 1]);
                assert(v@.subrange(s as int, e as int)[2] == v@[s + 2]);
            }
        }
        false
    }
}

} // verus!
