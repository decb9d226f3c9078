//! The monitor folds one RSSI reading after another into a single decision:
//! should the screen be locked.
//!
//! - It never locks by itself; it only exposes flags.
//! - `should_lock` is a latch: once set it stays set until [`Monitor::reset`]
//!   or [`Monitor::rearm`]; [`Monitor::set_config`] never clears it.

use vstd::prelude::*;

verus! {

/// Where the bound device stands relative to this machine.
#[derive(Debug, Clone, Copy, PartialEq, Eq, Structural)]
pub enum PhoneStatus {
    /// Signal at or above the threshold: the device is close.
    Nearby,
    /// Seen in this scan, but below the threshold: moving away.
    WeakSignal,
    /// Not seen in this scan: maybe out of Bluetooth range.
    Missing,
}

impl PhoneStatus {
    pub fn label(&self) -> (r: &'static str)
        ensures
            r@ == match *self {
                PhoneStatus::Nearby => "在身边"@,
                PhoneStatus::WeakSignal => "信号弱"@,
                PhoneStatus::Missing => "丢失"@,
            },
    {
        match self {
            PhoneStatus::Nearby => "在身边",
            PhoneStatus::WeakSignal => "信号弱",
            PhoneStatus::Missing => "丢失",
        }
    }
}

/// Parameters of the monitor.
#[derive(Debug, Clone, Copy)]
pub struct MonitorConfig {
    /// RSSI threshold (dBm, negative): `rssi >= lock_rssi` counts as nearby.
    pub lock_rssi: i16,
    /// Consecutive non-nearby readings (once armed) that set `should_lock`.
    pub missing_limit: u32,
    /// Consecutive nearby readings after a lock that make `should_rearm` true.
    pub rearm_limit: u32,
}

/// The state of a monitor as plain values.
pub struct MonitorModel {
    pub lock_rssi: int,
    pub missing_limit: int,
    pub rearm_limit: int,
    pub missing: int,
    pub present: int,
    pub armed: bool,
    pub latched: bool,
}

/// The monitor: configuration plus the counters built from the readings.
#[derive(Debug)]
pub struct Monitor {
    config: MonitorConfig,
    missing_count: u32,
    present_count: u32,
    /// At least one nearby reading since the watch began. Before that, weak or
    /// missing readings are not counted, so that starting the protection while
    /// the phone is away does not lock the user out at once.
    armed: bool,
    should_lock: bool,
}

/// A reading that counts as nearby.
pub open spec fn is_nearby(m: MonitorModel, rssi: Option<i16>) -> bool {
    match rssi {
        Some(v) => v >= m.lock_rssi,
        None => false,
    }
}

/// The status reported for a reading.
pub open spec fn status_of(m: MonitorModel, rssi: Option<i16>) -> PhoneStatus {
    match rssi {
        Some(v) => if v >= m.lock_rssi {
            PhoneStatus::Nearby
        } else {
            PhoneStatus::WeakSignal
        },
        None => PhoneStatus::Missing,
    }
}

/// The latch is set once the missing count reaches the limit. Setting it
/// starts the count of nearby readings afresh: a re-arm needs `rearm_limit`
/// nearby readings after the lock.
pub open spec fn check_latch(m: MonitorModel) -> MonitorModel {
    if !m.latched && m.missing >= m.missing_limit {
        MonitorModel { latched: true, present: 0, ..m }
    } else {
        m
    }
}

/// One reading.
pub open spec fn monitor_step(m: MonitorModel, rssi: Option<i16>) -> MonitorModel {
    if is_nearby(m, rssi) {
        MonitorModel {
            armed: true,
            missing: 0,
            present: if m.present + 1 > u32::MAX {
                u32::MAX as int
            } else {
                m.present + 1
            },
            ..m
        }
    } else if m.armed {
        check_latch(MonitorModel { missing: m.missing + 1, present: 0, ..m })
    } else {
        MonitorModel { present: 0, ..m }
    }
}

/// A sequence of readings.
pub open spec fn monitor_steps(m: MonitorModel, readings: Seq<Option<i16>>) -> MonitorModel
    decreases readings.len(),
{
    if readings.len() == 0 {
        m
    } else {
        monitor_step(monitor_steps(m, readings.drop_last()), readings.last())
    }
}

/// A fresh monitor.
pub open spec fn fresh(c: MonitorConfig) -> MonitorModel {
    MonitorModel {
        lock_rssi: c.lock_rssi as int,
        missing_limit: c.missing_limit as int,
        rearm_limit: c.rearm_limit as int,
        missing: 0,
        present: 0,
        armed: false,
        latched: false,
    }
}

/// Replace the configuration and run the lock check again.
pub open spec fn reconfigure(m: MonitorModel, c: MonitorConfig) -> MonitorModel {
    check_latch(
        MonitorModel {
            lock_rssi: c.lock_rssi as int,
            missing_limit: c.missing_limit as int,
            rearm_limit: c.rearm_limit as int,
            ..m
        },
    )
}

/// Counters, armed flag and latch cleared; the configuration kept.
pub open spec fn cleared(m: MonitorModel) -> MonitorModel {
    MonitorModel { missing: 0, present: 0, armed: false, latched: false, ..m }
}

/// Counters and latch cleared; the armed flag and the configuration kept.
pub open spec fn rearmed(m: MonitorModel) -> MonitorModel {
    MonitorModel { missing: 0, present: 0, latched: false, ..m }
}

/// The counters fit their machine integers.
pub open spec fn in_range(m: MonitorModel) -> bool {
    0 <= m.missing <= u32::MAX && 0 <= m.present <= u32::MAX
}

/// A reading can be taken without the missing counter running past `u32::MAX`.
pub open spec fn can_take(m: MonitorModel, rssi: Option<i16>) -> bool {
    is_nearby(m, rssi) || !m.armed || m.missing < u32::MAX
}

impl View for Monitor {
    type V = MonitorModel;

    closed spec fn view(&self) -> MonitorModel {
        MonitorModel {
            lock_rssi: self.config.lock_rssi as int,
            missing_limit: self.config.missing_limit as int,
            rearm_limit: self.config.rearm_limit as int,
            missing: self.missing_count as int,
            present: self.present_count as int,
            armed: self.armed,
            latched: self.should_lock,
        }
    }
}

impl Monitor {
    pub fn new(config: MonitorConfig) -> (m: Monitor)
        ensures
            m@ == fresh(config),
    {
        Monitor { config, missing_count: 0, present_count: 0, armed: false, should_lock: false }
    }

    /// The counters of a monitor always fit.
    pub proof fn lemma_in_range(&self)
        ensures
            in_range(self@),
    {
    }

    /// Take this round's reading, advance the state and return its status.
    pub fn update(&mut self, rssi: Option<i16>) -> (status: PhoneStatus)
        requires
            can_take(old(self)@, rssi),
        ensures
            final(self)@ == monitor_step(old(self)@, rssi),
            status == status_of(old(self)@, rssi),
    {
        match rssi {
            Some(value) if value >= self.config.lock_rssi => {
                self.armed = true;
                self.missing_count = 0;
                self.present_count = self.present_count.saturating_add(1);
                PhoneStatus::Nearby
            },
            Some(_) => {
                if self.armed {
                    self.missing_count = self.missing_count + 1;
                    self.check_lock();
                }
                self.present_count = 0;
                PhoneStatus::WeakSignal
            },
            None => {
                if self.armed {
                    self.missing_count = self.missing_count + 1;
                    self.check_lock();
                }
                self.present_count = 0;
                PhoneStatus::Missing
            },
        }
    }

    /// The lock condition holds. A latch: it does not fall back by itself.
    pub fn should_lock(&self) -> (b: bool)
        ensures
            b == self@.latched,
    {
        self.should_lock
    }

    /// The signal is back: a lock happened and the last `rearm_limit`
    /// readings were all nearby.
    pub fn should_rearm(&self) -> (b: bool)
        ensures
            b == (self@.latched && self@.present >= self@.rearm_limit),
    {
        self.should_lock && self.present_count >= self.config.rearm_limit
    }

    pub fn missing_count(&self) -> (n: u32)
        ensures
            n as int == self@.missing,
    {
        self.missing_count
    }

    /// The phone has been seen at least once since the watch began; until
    /// then the monitor never sets `should_lock` from readings.
    pub fn is_armed(&self) -> (b: bool)
        ensures
            b == self@.armed,
    {
        self.armed
    }

    /// Full reset: counters, armed flag and latch. Used when the user cancels
    /// a pending lock and keeps the protection on.
    pub fn reset(&mut self)
        ensures
            final(self)@ == cleared(old(self)@),
    {
        self.missing_count = 0;
        self.present_count = 0;
        self.armed = false;
        self.should_lock = false;
    }

    /// Re-arm after the signal came back: counters and latch cleared, but
    /// `armed` stays as it is (the phone was just seen `rearm_limit` times).
    pub fn rearm(&mut self)
        ensures
            final(self)@ == rearmed(old(self)@),
    {
        self.missing_count = 0;
        self.present_count = 0;
        self.should_lock = false;
    }

    /// Swap the configuration without resetting the counters, and run the lock
    /// check at once. The latch is never withdrawn (loosening the threshold
    /// cannot undo a decision).
    pub fn set_config(&mut self, config: MonitorConfig)
        ensures
            final(self)@ == reconfigure(old(self)@, config),
    {
        self.config = config;
        self.check_lock();
    }

    fn check_lock(&mut self)
        ensures
            final(self)@ == check_latch(old(self)@),
    {
        if !self.should_lock && self.missing_count >= self.config.missing_limit {
            self.should_lock = true;
            self.present_count = 0;
        }
    }
}


// ---------------------------------------------------------------------------
// Laws

/// Readings never change the configuration.
proof fn lemma_steps_keep_config(m: MonitorModel, readings: Seq<Option<i16>>)
    ensures
        monitor_steps(m, readings).lock_rssi == m.lock_rssi,
        monitor_steps(m, readings).missing_limit == m.missing_limit,
        monitor_steps(m, readings).rearm_limit == m.rearm_limit,
    decreases readings.len(),
{
    if readings.len() > 0 {
        lemma_steps_keep_config(m, readings.drop_last());
    }
}

/// None of the readings counts as nearby.
pub open spec fn all_absent(m: MonitorModel, readings: Seq<Option<i16>>) -> bool {
    forall|i: int| 0 <= i < readings.len() ==> !is_nearby(m, #[trigger] readings[i])
}

/// Every reading counts as nearby.
pub open spec fn all_nearby(m: MonitorModel, readings: Seq<Option<i16>>) -> bool {
    forall|i: int| 0 <= i < readings.len() ==> is_nearby(m, #[trigger] readings[i])
}

/// The lock decision is a latch: once set, no reading clears it.
pub proof fn law_latch_survives_readings(m: MonitorModel, readings: Seq<Option<i16>>)
    requires
        m.latched,
    ensures
        monitor_steps(m, readings).latched,
    decreases readings.len(),
{
    if readings.len() > 0 {
        law_latch_survives_readings(m, readings.drop_last());
    }
}

/// A new configuration never withdraws the lock decision.
pub proof fn law_latch_survives_reconfigure(m: MonitorModel, c: MonitorConfig)
    requires
        m.latched,
    ensures
        reconfigure(m, c).latched,
{
}

/// Before the phone has been seen once, weak or missing readings are not
/// counted and cannot lock.
pub proof fn law_unarmed_ignores_absence(m: MonitorModel, readings: Seq<Option<i16>>)
    requires
        !m.armed,
        all_absent(m, readings),
    ensures
        !monitor_steps(m, readings).armed,
        monitor_steps(m, readings).missing == m.missing,
        monitor_steps(m, readings).latched == m.latched,
    decreases readings.len(),
{
    if readings.len() > 0 {
        let init = readings.drop_last();
        assert(all_absent(m, init)) by {
            assert forall|i: int| 0 <= i < init.len() implies !is_nearby(m, #[trigger] init[i]) by {
                assert(init[i] == readings[i]);
            }
        }
        law_unarmed_ignores_absence(m, init);
        lemma_steps_keep_config(m, init);
        assert(!is_nearby(m, readings[readings.len() - 1]));
    }
}

/// Once armed, consecutive weak or missing readings are counted one by one,
/// and the lock is decided as soon as their number reaches `missing_limit`.
pub proof fn law_absence_counts_to_lock(m: MonitorModel, readings: Seq<Option<i16>>)
    requires
        m.armed,
        all_absent(m, readings),
    ensures
        monitor_steps(m, readings).armed,
        monitor_steps(m, readings).missing == m.missing + readings.len(),
        monitor_steps(m, readings).latched == (m.latched || (readings.len() > 0 && m.missing
            + readings.len() >= m.missing_limit)),
    decreases readings.len(),
{
    if readings.len() > 0 {
        let init = readings.drop_last();
        assert(all_absent(m, init)) by {
            assert forall|i: int| 0 <= i < init.len() implies !is_nearby(m, #[trigger] init[i]) by {
                assert(init[i] == readings[i]);
            }
        }
        law_absence_counts_to_lock(m, init);
        lemma_steps_keep_config(m, init);
        assert(!is_nearby(m, readings[readings.len() - 1]));
    }
}

/// A run of nearby readings after a lock keeps the lock decision and makes
/// `should_rearm` true once it is `rearm_limit` long.
pub proof fn law_presence_counts_to_rearm(m: MonitorModel, readings: Seq<Option<i16>>)
    requires
        in_range(m),
        all_nearby(m, readings),
    ensures
        monitor_steps(m, readings).latched == m.latched,
        monitor_steps(m, readings).missing == if readings.len() > 0 { 0 } else { m.missing },
        monitor_steps(m, readings).present == if m.present + readings.len() > u32::MAX {
            u32::MAX as int
        } else {
            m.present + readings.len()
        },
        readings.len() >= m.rearm_limit && m.rearm_limit <= u32::MAX ==> monitor_steps(
            m,
            readings,
        ).present >= m.rearm_limit,
    decreases readings.len(),
{
    if readings.len() > 0 {
        let init = readings.drop_last();
        assert(all_nearby(m, init)) by {
            assert forall|i: int| 0 <= i < init.len() implies is_nearby(m, #[trigger] init[i]) by {
                assert(init[i] == readings[i]);
            }
        }
        law_presence_counts_to_rearm(m, init);
        lemma_steps_keep_config(m, init);
        assert(is_nearby(m, readings[readings.len() - 1]));
    }
}

/// Resetting a monitor gives the same state as a new one with its
/// configuration.
pub proof fn law_reset_is_fresh(m: MonitorModel, c: MonitorConfig)
    requires
        m.lock_rssi == c.lock_rssi,
        m.missing_limit == c.missing_limit,
        m.rearm_limit == c.rearm_limit,
    ensures
        cleared(m) == fresh(c),
{
}

// ---------------------------------------------------------------------------
// Histories of calls

/// One call on a monitor, as a plain value: `update`, `set_config`, `reset`
/// or `rearm`.
pub enum MonitorEvent {
    Reading(Option<i16>),
    Configure(MonitorConfig),
    Reset,
    Rearm,
}

/// The state after one call.
pub open spec fn apply_event(m: MonitorModel, e: MonitorEvent) -> MonitorModel {
    match e {
        MonitorEvent::Reading(r) => monitor_step(m, r),
        MonitorEvent::Configure(c) => reconfigure(m, c),
        MonitorEvent::Reset => cleared(m),
        MonitorEvent::Rearm => rearmed(m),
    }
}

/// The state after a history of calls.
pub open spec fn run_events(m: MonitorModel, evs: Seq<MonitorEvent>) -> MonitorModel
    decreases evs.len(),
{
    if evs.len() == 0 {
        m
    } else {
        apply_event(run_events(m, evs.drop_last()), evs.last())
    }
}

/// The state just before call `i` of the history (after all of it for
/// `i == evs.len()`).
pub open spec fn state_before(m: MonitorModel, evs: Seq<MonitorEvent>, i: int) -> MonitorModel {
    run_events(m, evs.take(i))
}

/// Call `j` is a reading that `update` classed as `Nearby`.
pub open spec fn nearby_event(m: MonitorModel, evs: Seq<MonitorEvent>, j: int) -> bool {
    evs[j] matches MonitorEvent::Reading(r) && is_nearby(state_before(m, evs, j), r)
}

/// The number of readings among calls `p..q`.
pub open spec fn readings_between(evs: Seq<MonitorEvent>, p: int, q: int) -> nat
    decreases q - p,
{
    if p >= q {
        0
    } else {
        readings_between(evs, p, q - 1) + if evs[q - 1] is Reading {
            1nat
        } else {
            0nat
        }
    }
}

/// Calls before the last one see the same states in the whole history as in
/// the history without its last call.
proof fn lemma_history_prefix(m: MonitorModel, evs: Seq<MonitorEvent>)
    requires
        evs.len() > 0,
    ensures
        forall|j: int|
            0 <= j <= evs.len() - 1 ==> #[trigger] state_before(m, evs, j) == state_before(
                m,
                evs.drop_last(),
                j,
            ),
        state_before(m, evs, evs.len() as int) == run_events(m, evs),
        state_before(m, evs, evs.len() - 1) == run_events(m, evs.drop_last()),
{
    let init = evs.drop_last();
    assert forall|j: int| 0 <= j <= evs.len() - 1 implies #[trigger] state_before(m, evs, j)
        == state_before(m, init, j) by {
        assert(evs.take(j) =~= init.take(j));
    }
    assert(evs.take(evs.len() as int) =~= evs);
    assert(init.take(init.len() as int) =~= init);
}

proof fn lemma_readings_prefix(evs: Seq<MonitorEvent>, p: int, q: int)
    requires
        evs.len() > 0,
        0 <= p,
        q <= evs.len() - 1,
    ensures
        readings_between(evs, p, q) == readings_between(evs.drop_last(), p, q),
    decreases q - p,
{
    if p < q {
        lemma_readings_prefix(evs, p, q - 1);
        assert(evs[q - 1] == evs.drop_last()[q - 1]);
    }
}

/// While the latch is set, the nearby count never exceeds the number of
/// readings since the last non-nearby one after the latch was set.
proof fn lemma_latch_streak(c: MonitorConfig, evs: Seq<MonitorEvent>)
    ensures
        run_events(fresh(c), evs).latched ==> exists|k: int, p: int|
            #![trigger state_before(fresh(c), evs, k), readings_between(evs, p, evs.len() as int)]
            0 <= k < p <= evs.len() && !state_before(fresh(c), evs, k).latched && (forall|j: int|
                k < j <= evs.len() ==> #[trigger] state_before(fresh(c), evs, j).latched)
                && readings_between(evs, p, evs.len() as int) >= run_events(fresh(c), evs).present
                && (forall|j: int|
                p <= j < evs.len() && evs[j] is Reading ==> #[trigger] nearby_event(fresh(c), evs, j)),
    decreases evs.len(),
{
    let m0 = fresh(c);
    if evs.len() > 0 {
        let init = evs.drop_last();
        let n = evs.len() as int;
        let e = evs.last();
        lemma_latch_streak(c, init);
        lemma_history_prefix(m0, evs);
        let m = run_events(m0, init);
        let m2 = run_events(m0, evs);
        assert(m2 == apply_event(m, e));
        if m2.latched {
            assert forall|j: int| 0 <= j < n - 1 implies #[trigger] nearby_event(m0, evs, j)
                == nearby_event(m0, init, j) by {
                assert(evs[j] == init[j]);
            }
            if !m.latched {
                assert(m2.present == 0);
                let k = n - 1;
                assert(readings_between(evs, n, n) == 0);
                assert(!state_before(m0, evs, k).latched);
                assert forall|j: int| k < j <= n implies #[trigger] state_before(m0, evs, j).latched by {
                    assert(j == n);
                }
                assert(readings_between(evs, n, n) >= m2.present);
            } else {
                let (k, p) = choose|k: int, p: int|
                    #![trigger state_before(m0, init, k), readings_between(init, p, init.len() as int)]
                    0 <= k < p <= init.len() && !state_before(m0, init, k).latched && (forall|j: int|
                        k < j <= init.len() ==> #[trigger] state_before(m0, init, j).latched)
                        && readings_between(init, p, init.len() as int) >= m.present && (forall|j: int|
                        p <= j < init.len() && init[j] is Reading ==> #[trigger] nearby_event(m0, init, j));
                assert(!state_before(m0, evs, k).latched);
                assert forall|j: int| k < j <= n implies #[trigger] state_before(m0, evs, j).latched by {
                    if j < n {
                        assert(state_before(m0, init, j).latched);
                    }
                }
                lemma_readings_prefix(evs, p, n - 1);
                match e {
                    MonitorEvent::Reading(r) => {
                        if is_nearby(m, r) {
                            assert(nearby_event(m0, evs, n - 1));
                            assert(readings_between(evs, p, n) == readings_between(init, p, n - 1) + 1);
                            assert forall|j: int| p <= j < n && evs[j] is Reading implies #[trigger] nearby_event(
                                m0,
                                evs,
                                j,
                            ) by {
                                if j < n - 1 {
                                    assert(init[j] == evs[j]);
                                    assert(nearby_event(m0, init, j));
                                }
                            }
                            assert(readings_between(evs, p, n) >= m2.present);
                        } else {
                            assert(m2.present == 0);
                            assert(readings_between(evs, n, n) == 0);
                            assert(readings_between(evs, n, n) >= m2.present);
                            assert(!state_before(m0, evs, k).latched);
                        }
                    },
                    MonitorEvent::Configure(_) => {
                        assert(m2.present == m.present);
                        assert(readings_between(evs, p, n) == readings_between(init, p, n - 1));
                        assert forall|j: int| p <= j < n && evs[j] is Reading implies #[trigger] nearby_event(
                            m0,
                            evs,
                            j,
                        ) by {
                            assert(j < n - 1);
                            assert(init[j] == evs[j]);
                            assert(nearby_event(m0, init, j));
                        }
                        assert(readings_between(evs, p, n) >= m2.present);
                    },
                    _ => {
                        assert(!m2.latched);
                    },
                }
            }
        }
    }
}

/// A re-arm needs the signal back after the lock: when `should_rearm` holds,
/// the lock was set by some call `k`, has stayed set since, and after it
/// come at least `rearm_limit` readings, all of them `Nearby`, with no other
/// reading in between.
pub proof fn law_rearm_needs_nearby_after_lock(c: MonitorConfig, evs: Seq<MonitorEvent>)
    requires
        run_events(fresh(c), evs).latched,
        run_events(fresh(c), evs).present >= run_events(fresh(c), evs).rearm_limit,
        run_events(fresh(c), evs).rearm_limit >= 1,
    ensures
        exists|k: int, p: int|
            #![trigger state_before(fresh(c), evs, k), readings_between(evs, p, evs.len() as int)]
            0 <= k < p < evs.len() && !state_before(fresh(c), evs, k).latched && (forall|j: int|
                k < j <= evs.len() ==> #[trigger] state_before(fresh(c), evs, j).latched)
                && readings_between(evs, p, evs.len() as int) >= run_events(fresh(c), evs).rearm_limit
                && (forall|j: int|
                p <= j < evs.len() && evs[j] is Reading ==> #[trigger] nearby_event(fresh(c), evs, j)),
{
    lemma_latch_streak(c, evs);
    let n = evs.len() as int;
    let (k, p) = choose|k: int, p: int|
        #![trigger state_before(fresh(c), evs, k), readings_between(evs, p, n)]
        0 <= k < p <= n && !state_before(fresh(c), evs, k).latched && (forall|j: int|
            k < j <= n ==> #[trigger] state_before(fresh(c), evs, j).latched) && readings_between(evs, p, n)
            >= run_events(fresh(c), evs).present && (forall|j: int|
            p <= j < n && evs[j] is Reading ==> #[trigger] nearby_event(fresh(c), evs, j));
    assert(readings_between(evs, p, n) >= 1);
    assert(p < n);
}

/// A monitor is armed exactly when some reading since it was made or last
/// reset was `Nearby` (`set_config` and `rearm` leave the flag alone).
pub proof fn law_armed_iff_seen(c: MonitorConfig, evs: Seq<MonitorEvent>)
    ensures
        run_events(fresh(c), evs).armed <==> exists|j: int|
            0 <= j < evs.len() && #[trigger] nearby_event(fresh(c), evs, j) && forall|i: int|
                j < i < evs.len() ==> !(#[trigger] evs[i] is Reset),
    decreases evs.len(),
{
    let m0 = fresh(c);
    if evs.len() > 0 {
        let init = evs.drop_last();
        let n = evs.len() as int;
        let e = evs.last();
        law_armed_iff_seen(c, init);
        lemma_history_prefix(m0, evs);
        let m = run_events(m0, init);
        let m2 = run_events(m0, evs);
        assert(m2 == apply_event(m, e));
        assert forall|j: int| 0 <= j < n - 1 implies #[trigger] nearby_event(m0, evs, j) == nearby_event(
            m0,
            init,
            j,
        ) by {
            assert(evs[j] == init[j]);
        }
        assert forall|i: int| 0 <= i < n - 1 implies #[trigger] evs[i] == init[i] by {}
        let seen = exists|j: int|
            0 <= j < n && #[trigger] nearby_event(m0, evs, j) && forall|i: int|
                j < i < n ==> !(#[trigger] evs[i] is Reset);
        let seen0 = exists|j: int|
            0 <= j < n - 1 && #[trigger] nearby_event(m0, init, j) && forall|i: int|
                j < i < n - 1 ==> !(#[trigger] init[i] is Reset);
        if e is Reset {
            assert(!m2.armed);
            if seen {
                let j = choose|j: int|
                    0 <= j < n && #[trigger] nearby_event(m0, evs, j) && forall|i: int|
                        j < i < n ==> !(#[trigger] evs[i] is Reset);
                if j < n - 1 {
                    assert(evs[n - 1] is Reset);
                }
            }
        } else if nearby_event(m0, evs, n - 1) {
            assert(m2.armed);
        } else {
            assert(m2.armed == m.armed);
            if seen {
                let j = choose|j: int|
                    0 <= j < n && #[trigger] nearby_event(m0, evs, j) && forall|i: int|
                        j < i < n ==> !(#[trigger] evs[i] is Reset);
                assert(j < n - 1);
                assert(nearby_event(m0, init, j));
                assert forall|i: int| j < i < n - 1 implies !(#[trigger] init[i] is Reset) by {
                    assert(evs[i] == init[i]);
                }
                assert(seen0);
            }
            if seen0 {
                let j = choose|j: int|
                    0 <= j < n - 1 && #[trigger] nearby_event(m0, init, j) && forall|i: int|
                        j < i < n - 1 ==> !(#[trigger] init[i] is Reset);
                assert(nearby_event(m0, evs, j));
                assert forall|i: int| j < i < n implies !(#[trigger] evs[i] is Reset) by {
                    if i < n - 1 {
                        assert(evs[i] == init[i]);
                    }
                }
                assert(seen);
            }
        }
    }
}

} // verus!
