//! Live traffic rates, derived from the `/connections` totals polled once a
//! second. The polling runs in the application; each poll goes through
//! [`traffic_step`].

use vstd::prelude::*;

verus! {

/// The difference of two totals, 0 when the later one is smaller (the
/// core restarted and its counters began again).
pub open spec fn delta(later: u64, earlier: u64) -> u64 {
    if later >= earlier {
        (later - earlier) as u64
    } else {
        0u64
    }
}

/// One poll of the totals `(download, upload)`. `prev` is what the last
/// successful poll gave (`None` at the start and after a change of
/// settings), `poll` is this poll's totals (`None` when it failed).
/// Returns the totals to remember and the new rates in bytes per second:
/// `(0, 0)` after a failed poll, `None` (keep the rates shown) on the first
/// poll, else the increase of each total.
pub fn traffic_step(prev: Option<(u64, u64)>, poll: Option<(u64, u64)>) -> (r: (
    Option<(u64, u64)>,
    Option<(u64, u64)>,
))
    ensures
        r.0 == match poll {
            Some(t) => Some(t),
            None => prev,
        },
        r.1 == match (prev, poll) {
            (_, None) => Some((0u64, 0u64)),
            (None, Some(_)) => None,
            (Some(p), Some(q)) => Some((delta(q.0, p.0), delta(q.1, p.1))),
        },
{
    match poll {
        None => (prev, Some((0, 0))),
        Some(q) => match prev {
            None => (Some(q), None),
            Some(p) => {
                let d = if q.0 >= p.0 {
                    q.0 - p.0
                } else {
                    0
                };
                let u = if q.1 >= p.1 {
                    q.1 - p.1
                } else {
                    0
                };
                (Some(q), Some((d, u)))
            },
        },
    }
}

} // verus!
