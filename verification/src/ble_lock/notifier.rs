//! The push notification sent before the screen locks (Bark on iOS: one GET
//! of a full URL). The request runs in the application, under a hard
//! timeout; these functions decide whether to send and what a reply means.

use crate::format::{dec_chars, dec_string};
use crate::text::{append_chars, chars_of, string_from, string_of, trim, trim_bounds};
use vstd::prelude::*;

verus! {

/// The URL to request: the configured one without surrounding whitespace,
/// or `None` (skip the notification) when nothing is configured.
pub fn notify_target(url: &str) -> (r: Option<String>)
    ensures
        match r {
            Some(u) => trim(url@).len() > 0 && u@ == trim(url@),
            None => trim(url@).len() == 0,
        },
{
    let v = chars_of(url);
    let (a, b) = trim_bounds(&v, 0, v.len());
    assert(v@.subrange(0, v@.len() as int) =~= v@);
    if a == b {
        None
    } else {
        Some(string_of(&v, a, b))
    }
}

/// An HTTP status counts as delivered when it is a success (2xx).
pub open spec fn delivered(status: u16) -> bool {
    200 <= status <= 299
}

/// What the reply to the notification means: `Ok` on a 2xx status, else an
/// error that names the status, ready to be shown to the user.
pub fn notify_outcome(status: u16) -> (r: Result<(), String>)
    ensures
        match r {
            Ok(()) => delivered(status),
            Err(e) => !delivered(status) && e@ == "推送返回 HTTP "@ + dec_string(status as nat),
        },
{
    if 200 <= status && status <= 299 {
        Ok(())
    } else {
        let mut e = chars_of("推送返回 HTTP ");
        append_chars(&mut e, &dec_chars(status as u64));
        Err(string_from(&e))
    }
}

} // verus!
