//! The decisions of the background watch, one step at a time. The task that
//! scans, sleeps and locks the screen runs in the application; it asks these
//! functions what to do next and performs it.

use crate::ble_lock::config::BleLockConfig;
use crate::ble_lock::monitor::{
    can_take, cleared, is_nearby, monitor_step, reconfigure, status_of, Monitor, MonitorConfig, MonitorModel,
    PhoneStatus,
};
use vstd::prelude::*;

verus! {

/// The mode of the BLE lock. The binding itself lives in [`BleLockConfig`].
#[derive(Clone, Copy, PartialEq, Eq, Debug, Structural)]
pub enum BleState {
    /// Not protecting (bound or not).
    Idle,
    /// Protecting: the background task scans and feeds the monitor.
    Watching,
    /// The monitor decided to lock; a countdown gives the user a chance to cancel.
    LockPending,
    /// The screen was locked; the user has to go back to `Idle` by hand.
    Locked,
}

impl BleState {
    pub fn label(&self) -> (r: &'static str)
        ensures
            r@ == match *self {
                BleState::Idle => "待机"@,
                BleState::Watching => "保护中"@,
                BleState::LockPending => "即将锁屏"@,
                BleState::Locked => "已锁屏"@,
            },
    {
        match self {
            BleState::Idle => "待机",
            BleState::Watching => "保护中",
            BleState::LockPending => "即将锁屏",
            BleState::Locked => "已锁屏",
        }
    }
}

/// Length of the rolling RSSI history (30 readings, one every two seconds).
pub const RSSI_HISTORY_LEN: usize = 30;

/// Milliseconds of the countdown between the lock decision and the lock.
pub const LOCK_COOLDOWN_MS: u64 = 3000;

/// The history after one more reading: the oldest one drops out once the
/// window is full.
pub open spec fn history_after(h: Seq<Option<i16>>, v: Option<i16>) -> Seq<Option<i16>> {
    if h.len() >= RSSI_HISTORY_LEN {
        h.drop_first().push(v)
    } else {
        h.push(v)
    }
}

/// Append a reading to the rolling RSSI history.
pub fn push_history(h: &mut Vec<Option<i16>>, v: Option<i16>)
    ensures
        final(h)@ == history_after(old(h)@, v),
{
    if h.len() >= RSSI_HISTORY_LEN {
        h.remove(0);
        assert(old(h)@.remove(0) =~= old(h)@.drop_first());
    }
    h.push(v);
}

/// The history window never grows past its length, and ends with the latest
/// reading.
pub proof fn law_history_bounded(h: Seq<Option<i16>>, v: Option<i16>)
    requires
        h.len() <= RSSI_HISTORY_LEN,
    ensures
        history_after(h, v).len() <= RSSI_HISTORY_LEN,
        history_after(h, v).last() == v,
        h.len() < RSSI_HISTORY_LEN ==> history_after(h, v).len() == h.len() + 1,
{
}

/// The monitor state once the live settings have been applied: a changed
/// threshold, missing limit or re-arm limit is applied before the reading.
pub open spec fn synced(m: MonitorModel, applied: MonitorConfig, live: BleLockConfig) -> MonitorModel {
    if live.lock_rssi != applied.lock_rssi || live.missing_limit != applied.missing_limit
        || live.rearm_limit != applied.rearm_limit {
        reconfigure(
            m,
            MonitorConfig {
                lock_rssi: live.lock_rssi,
                missing_limit: live.missing_limit,
                rearm_limit: live.rearm_limit,
            },
        )
    } else {
        m
    }
}

/// The monitor runs with the configuration `c`.
pub open spec fn runs_with(m: MonitorModel, c: MonitorConfig) -> bool {
    m.lock_rssi == c.lock_rssi && m.missing_limit == c.missing_limit && m.rearm_limit == c.rearm_limit
}

/// The monitor runs with the live settings.
pub open spec fn runs_live(m: MonitorModel, live: BleLockConfig) -> bool {
    m.lock_rssi == live.lock_rssi && m.missing_limit == live.missing_limit && m.rearm_limit
        == live.rearm_limit
}

/// One successful scan of the watch: apply changed settings (the threshold
/// slider works live), then feed the reading (`None` = the device was not
/// seen) to the monitor. The caller then asks `monitor.should_lock()`.
pub fn watch_tick(
    monitor: &mut Monitor,
    applied: &mut MonitorConfig,
    live: &BleLockConfig,
    reading: Option<i16>,
) -> (status: PhoneStatus)
    requires
        can_take(synced(old(monitor)@, *old(applied), *live), reading),
    ensures
        final(applied).lock_rssi == live.lock_rssi,
        final(applied).missing_limit == live.missing_limit,
        final(applied).rearm_limit == live.rearm_limit,
        final(monitor)@ == monitor_step(synced(old(monitor)@, *old(applied), *live), reading),
        runs_with(old(monitor)@, *old(applied)) ==> runs_live(final(monitor)@, *live) && runs_with(
            final(monitor)@,
            *final(applied),
        ),
        status == status_of(synced(old(monitor)@, *old(applied), *live), reading),
{
    if live.lock_rssi != applied.lock_rssi || live.missing_limit != applied.missing_limit
        || live.rearm_limit != applied.rearm_limit {
        let c = live.monitor_config();
        monitor.set_config(c);
        *applied = c;
    }
    monitor.update(reading)
}

/// One result of the watch scanner: `None` when the scan itself failed,
/// else `Some(reading)` (`None` inside when the device was not seen). A
/// failed scan is reported by the caller and never counted as an absence:
/// the monitor and the applied settings stay as they were.
pub fn watch_scan(
    monitor: &mut Monitor,
    applied: &mut MonitorConfig,
    live: &BleLockConfig,
    scan: Option<Option<i16>>,
) -> (r: Option<PhoneStatus>)
    requires
        scan matches Some(reading) ==> can_take(synced(old(monitor)@, *old(applied), *live), reading),
    ensures
        match scan {
            None => {
                &&& r is None
                &&& final(monitor)@ == old(monitor)@
                &&& *final(applied) == *old(applied)
            },
            Some(reading) => {
                &&& r == Some(status_of(synced(old(monitor)@, *old(applied), *live), reading))
                &&& final(monitor)@ == monitor_step(synced(old(monitor)@, *old(applied), *live), reading)
                &&& final(applied).lock_rssi == live.lock_rssi
                &&& final(applied).missing_limit == live.missing_limit
                &&& final(applied).rearm_limit == live.rearm_limit
                &&& runs_with(old(monitor)@, *old(applied)) ==> runs_live(final(monitor)@, *live)
            },
        },
{
    match scan {
        None => None,
        Some(reading) => Some(watch_tick(monitor, applied, live, reading)),
    }
}

/// Protection starts by itself at launch when the setting asks for it, a
/// device is bound, and a first scan finds it within the threshold
/// (`probe` is the RSSI it was seen with, `None` when it was not seen).
pub fn should_auto_protect(config: &BleLockConfig, probe: Option<i16>) -> (b: bool)
    ensures
        b == (config.auto_protect_on_launch && config.target is Some && (probe matches Some(r) && r
            >= config.lock_rssi)),
{
    if !config.auto_protect_on_launch || config.target.is_none() {
        return false;
    }
    match probe {
        Some(r) => r >= config.lock_rssi,
        None => false,
    }
}

/// Whatever setting the user changed (threshold, missing limit or re-arm
/// limit, alone or together), the reading of the next watch tick is judged
/// with the live settings: the monitor runs with them afterwards, and the
/// reading's status is the one the live threshold gives.
pub proof fn law_tick_uses_live_settings(
    m: MonitorModel,
    applied: MonitorConfig,
    live: BleLockConfig,
    reading: Option<i16>,
)
    requires
        runs_with(m, applied),
    ensures
        runs_live(monitor_step(synced(m, applied, live), reading), live),
        status_of(synced(m, applied, live), reading) == match reading {
            Some(v) => if v >= live.lock_rssi {
                PhoneStatus::Nearby
            } else {
                PhoneStatus::WeakSignal
            },
            None => PhoneStatus::Missing,
        },
        synced(m, applied, live).armed && !is_nearby(synced(m, applied, live), reading) && m.missing + 1
            >= live.missing_limit ==> monitor_step(synced(m, applied, live), reading).latched,
{
}

/// What the countdown does at one of its ticks.
#[derive(Clone, Copy, PartialEq, Eq, Debug, Structural)]
pub enum CooldownStep {
    /// The countdown is over: lock the screen now.
    Lock,
    /// The protection was stopped or restarted: leave without locking.
    Abandon,
    /// The user cancelled: reset the monitor and go on watching.
    Cancel,
    /// Keep counting down.
    Wait,
}

/// Milliseconds left in the countdown.
pub fn cooldown_remaining(elapsed_ms: u64) -> (r: u64)
    ensures
        r == if elapsed_ms >= LOCK_COOLDOWN_MS {
            0
        } else {
            (LOCK_COOLDOWN_MS - elapsed_ms) as u64
        },
{
    LOCK_COOLDOWN_MS.saturating_sub(elapsed_ms)
}

/// Whole seconds left on the countdown, rounded up (as the cancel button
/// shows them).
pub fn cooldown_seconds(remaining_ms: u64) -> (s: u64)
    ensures
        s == (remaining_ms + 999) / 1000,
{
    let q = remaining_ms / 1000;
    if remaining_ms % 1000 == 0 {
        q
    } else {
        q + 1
    }
}

/// One tick of the countdown. The end of the countdown wins over anything
/// else; a stopped session wins over a cancel request.
pub fn cooldown_step(elapsed_ms: u64, same_session: bool, cancel_requested: bool) -> (r: CooldownStep)
    ensures
        r == if elapsed_ms >= LOCK_COOLDOWN_MS {
            CooldownStep::Lock
        } else if !same_session {
            CooldownStep::Abandon
        } else if cancel_requested {
            CooldownStep::Cancel
        } else {
            CooldownStep::Wait
        },
{
    if elapsed_ms >= LOCK_COOLDOWN_MS {
        CooldownStep::Lock
    } else if !same_session {
        CooldownStep::Abandon
    } else if cancel_requested {
        CooldownStep::Cancel
    } else {
        CooldownStep::Wait
    }
}

/// What a countdown step does to the watch: the new mode (`None`: leave the
/// session, the mode was changed elsewhere). A cancel resets the monitor
/// completely, so the phone has to be seen again before anything counts.
pub fn countdown_outcome(step: CooldownStep, monitor: &mut Monitor) -> (r: Option<BleState>)
    ensures
        r == match step {
            CooldownStep::Lock => Some(BleState::Locked),
            CooldownStep::Abandon => None,
            CooldownStep::Cancel => Some(BleState::Watching),
            CooldownStep::Wait => Some(BleState::LockPending),
        },
        final(monitor)@ == if step == CooldownStep::Cancel {
            cleared(old(monitor)@)
        } else {
            old(monitor)@
        },
{
    match step {
        CooldownStep::Lock => Some(BleState::Locked),
        CooldownStep::Abandon => None,
        CooldownStep::Cancel => {
            monitor.reset();
            Some(BleState::Watching)
        },
        CooldownStep::Wait => Some(BleState::LockPending),
    }
}

/// What the user asks of the lock page.
#[derive(Clone, Copy, PartialEq, Eq, Debug, Structural)]
pub enum UserAction {
    /// Start protecting (offered while idle).
    Start,
    /// Stop protecting (while watching or counting down).
    Stop,
    /// Cancel a pending lock and go on watching.
    CancelLock,
    /// Back to idle after a lock.
    Reset,
    /// Forget the bound device, or scan for another: only while idle.
    ChangeDevice,
}

/// What an action does: the new mode, whether it opens a new session (so
/// that a running watch leaves), and whether it asks the countdown to
/// cancel. `None`: the action is refused in this mode (the page does not
/// offer it).
pub fn user_action(state: BleState, action: UserAction) -> (r: Option<(BleState, bool, bool)>)
    ensures
        r == match action {
            UserAction::Start => if state == BleState::Idle {
                Some((BleState::Watching, true, false))
            } else {
                None
            },
            UserAction::Stop => if state == BleState::Watching || state == BleState::LockPending {
                Some((BleState::Idle, true, false))
            } else {
                None
            },
            UserAction::CancelLock => if state == BleState::LockPending {
                Some((BleState::LockPending, false, true))
            } else {
                None
            },
            UserAction::Reset => if state == BleState::Locked {
                Some((BleState::Idle, true, false))
            } else {
                None
            },
            UserAction::ChangeDevice => if state == BleState::Idle {
                Some((BleState::Idle, false, false))
            } else {
                None
            },
        },
{
    match action {
        UserAction::Start => if state == BleState::Idle {
            Some((BleState::Watching, true, false))
        } else {
            None
        },
        UserAction::Stop => if state == BleState::Watching || state == BleState::LockPending {
            Some((BleState::Idle, true, false))
        } else {
            None
        },
        UserAction::CancelLock => if state == BleState::LockPending {
            Some((BleState::LockPending, false, true))
        } else {
            None
        },
        UserAction::Reset => if state == BleState::Locked {
            Some((BleState::Idle, true, false))
        } else {
            None
        },
        UserAction::ChangeDevice => if state == BleState::Idle {
            Some((BleState::Idle, false, false))
        } else {
            None
        },
    }
}

/// What the app-wide supervisor does when it looks at the state.
#[derive(Clone, Copy, PartialEq, Eq, Debug, Structural)]
pub enum SupervisorAction {
    /// Nothing new: sleep and look again.
    Sleep,
    /// A new watch session: run it.
    Start,
    /// A new watch session without a bound device: report it and go idle.
    RejectUnbound,
}

/// What the supervisor does when it sees `state` and `session_id`, having
/// last acted on `last_handled`.
pub open spec fn supervisor_action(state: BleState, session_id: u64, last_handled: u64, bound: bool) -> SupervisorAction {
    if state == BleState::Watching && session_id != last_handled {
        if bound {
            SupervisorAction::Start
        } else {
            SupervisorAction::RejectUnbound
        }
    } else {
        SupervisorAction::Sleep
    }
}

/// The session id the supervisor remembers afterwards.
pub open spec fn supervisor_memory(state: BleState, session_id: u64, last_handled: u64) -> u64 {
    if state == BleState::Watching && session_id != last_handled {
        session_id
    } else {
        last_handled
    }
}

/// The supervisor starts one watch session per new session id seen in the
/// `Watching` state; `last_handled` remembers the last id it acted on.
pub fn supervisor_step(state: BleState, session_id: u64, last_handled: &mut u64, bound: bool) -> (r:
    SupervisorAction)
    ensures
        r == supervisor_action(state, session_id, *old(last_handled), bound),
        *final(last_handled) == supervisor_memory(state, session_id, *old(last_handled)),
{
    if state == BleState::Watching && session_id != *last_handled {
        *last_handled = session_id;
        if bound {
            SupervisorAction::Start
        } else {
            SupervisorAction::RejectUnbound
        }
    } else {
        SupervisorAction::Sleep
    }
}

/// A session id is acted on at most once: after the supervisor has started
/// (or refused) a session, looking again at the same id, in any state and
/// whatever the binding, does nothing.
pub proof fn law_one_session_per_id(
    state: BleState,
    session_id: u64,
    last_handled: u64,
    bound: bool,
    later_state: BleState,
    later_bound: bool,
)
    requires
        supervisor_action(state, session_id, last_handled, bound) != SupervisorAction::Sleep,
    ensures
        supervisor_action(
            later_state,
            session_id,
            supervisor_memory(state, session_id, last_handled),
            later_bound,
        ) == SupervisorAction::Sleep,
{
}

} // verus!
