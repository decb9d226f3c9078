use proxyzms::ble_lock::config::{
    default_auto_protect_on_launch, default_lock_rssi, default_missing_limit, default_rearm_limit,
    BleLockConfig,
};
use proxyzms::ble_lock::device::{signal_order, DeviceInfo, DeviceMatcher};
use proxyzms::ble_lock::monitor::{Monitor, PhoneStatus};
use proxyzms::ble_lock::session::{
    countdown_outcome, cooldown_remaining, cooldown_seconds, cooldown_step, should_auto_protect, watch_scan, push_history, supervisor_step, watch_tick, BleState,
    CooldownStep, SupervisorAction, RSSI_HISTORY_LEN, user_action, UserAction,
};

#[test]
fn default_settings() {
    let c = BleLockConfig::default();
    assert_eq!(c.target, None);
    assert_eq!(c.lock_rssi, -75);
    assert_eq!(c.missing_limit, 5);
    assert_eq!(c.rearm_limit, 3);
    assert!(c.auto_protect_on_launch);
    assert_eq!(default_lock_rssi(), -75);
    assert_eq!(default_missing_limit(), 5);
    assert_eq!(default_rearm_limit(), 3);
    assert!(default_auto_protect_on_launch());
    let m = c.monitor_config();
    assert_eq!((m.lock_rssi, m.missing_limit, m.rearm_limit), (-75, 5, 3));
}

#[test]
fn state_labels() {
    assert_eq!(BleState::Idle.label(), "待机");
    assert_eq!(BleState::Watching.label(), "保护中");
    assert_eq!(BleState::LockPending.label(), "即将锁屏");
    assert_eq!(BleState::Locked.label(), "已锁屏");
}

fn device(name: Option<&str>) -> DeviceInfo {
    DeviceInfo {
        id: "ID-1".to_string(),
        address: "AA:BB:CC:DD:EE:FF".to_string(),
        local_name: name.map(|s| s.to_string()),
        rssi: Some(-60),
    }
}

#[test]
fn matchers() {
    let d = device(Some("iPhone"));
    assert!(DeviceMatcher::Name("iPhone".to_string()).matches(&d));
    assert!(!DeviceMatcher::Name("iphone".to_string()).matches(&d));
    assert!(!DeviceMatcher::Name("iPhone".to_string()).matches(&device(None)));
    assert!(DeviceMatcher::Id("ID-1".to_string()).matches(&d));
    assert!(!DeviceMatcher::Id("ID-2".to_string()).matches(&d));
    assert!(DeviceMatcher::Address("AA:BB:CC:DD:EE:FF".to_string()).matches(&d));
    assert!(!DeviceMatcher::Address("00:00:00:00:00:00".to_string()).matches(&d));
}

#[test]
fn find_picks_the_first_matching_device() {
    let scan = vec![device(None), device(Some("Watch")), device(Some("iPhone")), device(Some("iPhone"))];
    assert_eq!(DeviceMatcher::Name("iPhone".to_string()).find_in(&scan), Some(2));
    assert_eq!(DeviceMatcher::Name("iPad".to_string()).find_in(&scan), None);
    assert_eq!(DeviceMatcher::Id("ID-1".to_string()).find_in(&scan), Some(0));
    assert_eq!(DeviceMatcher::Id("ID-1".to_string()).find_in(&Vec::new()), None);
}

#[test]
fn history_window_keeps_the_latest_thirty() {
    let mut h: Vec<Option<i16>> = Vec::new();
    for i in 0..45i16 {
        push_history(&mut h, Some(-i));
        assert!(h.len() <= RSSI_HISTORY_LEN);
    }
    assert_eq!(h.len(), 30);
    assert_eq!(h[0], Some(-15));
    assert_eq!(h[29], Some(-44));
    push_history(&mut h, None);
    assert_eq!(h.len(), 30);
    assert_eq!(h[29], None);
    assert_eq!(h[0], Some(-16));
}

#[test]
fn countdown_steps() {
    assert_eq!(cooldown_step(0, true, false), CooldownStep::Wait);
    assert_eq!(cooldown_step(2999, true, true), CooldownStep::Cancel);
    assert_eq!(cooldown_step(100, false, true), CooldownStep::Abandon);
    assert_eq!(cooldown_step(3000, false, true), CooldownStep::Lock);
    assert_eq!(cooldown_remaining(0), 3000);
    assert_eq!(cooldown_remaining(1250), 1750);
    assert_eq!(cooldown_remaining(5000), 0);
}

#[test]
fn supervisor_acts_once_per_session() {
    let mut last = 0u64;
    assert_eq!(supervisor_step(BleState::Idle, 1, &mut last, true), SupervisorAction::Sleep);
    assert_eq!(last, 0);
    assert_eq!(supervisor_step(BleState::Watching, 1, &mut last, true), SupervisorAction::Start);
    assert_eq!(last, 1);
    assert_eq!(supervisor_step(BleState::Watching, 1, &mut last, true), SupervisorAction::Sleep);
    assert_eq!(supervisor_step(BleState::Watching, 2, &mut last, false), SupervisorAction::RejectUnbound);
    assert_eq!(last, 2);
}

#[test]
fn watch_tick_applies_live_settings_first() {
    let live = BleLockConfig::default();
    let mut applied = live.monitor_config();
    let mut m = Monitor::new(applied);
    assert_eq!(watch_tick(&mut m, &mut applied, &live, Some(-50)), PhoneStatus::Nearby);
    assert_eq!(watch_tick(&mut m, &mut applied, &live, None), PhoneStatus::Missing);
    assert!(!m.should_lock());
    // the user drags the threshold: -50 is now weak, and one miss is enough
    let mut strict = live.clone();
    strict.lock_rssi = -40;
    strict.missing_limit = 1;
    assert_eq!(watch_tick(&mut m, &mut applied, &strict, Some(-50)), PhoneStatus::WeakSignal);
    assert_eq!(applied.lock_rssi, -40);
    assert_eq!(applied.missing_limit, 1);
    assert!(m.should_lock());
}

fn reading(name: &str, rssi: Option<i16>) -> DeviceInfo {
    DeviceInfo { rssi, ..device(Some(name)) }
}

#[test]
fn discovery_lists_strongest_first_and_silent_devices_last() {
    let scan = vec![
        reading("a", None),
        reading("b", Some(-80)),
        reading("c", Some(-40)),
        reading("d", Some(-80)),
        reading("e", None),
        reading("f", Some(-32768)),
    ];
    assert_eq!(signal_order(&scan), vec![2, 1, 3, 5, 0, 4]);
    assert_eq!(signal_order(&Vec::new()), Vec::<usize>::new());
}

#[test]
fn countdown_seconds_round_up() {
    assert_eq!(cooldown_seconds(3000), 3);
    assert_eq!(cooldown_seconds(2999), 3);
    assert_eq!(cooldown_seconds(2001), 3);
    assert_eq!(cooldown_seconds(2000), 2);
    assert_eq!(cooldown_seconds(1), 1);
    assert_eq!(cooldown_seconds(0), 0);
    assert_eq!(cooldown_seconds(u64::MAX), u64::MAX / 1000 + 1);
}

#[test]
fn failed_scan_is_not_an_absence() {
    let live = BleLockConfig::default();
    let mut applied = live.monitor_config();
    let mut m = Monitor::new(applied);
    assert_eq!(watch_scan(&mut m, &mut applied, &live, Some(Some(-60))), Some(PhoneStatus::Nearby));
    assert_eq!(watch_scan(&mut m, &mut applied, &live, None), None);
    assert_eq!(m.missing_count(), 0);
    assert_eq!(watch_scan(&mut m, &mut applied, &live, Some(None)), Some(PhoneStatus::Missing));
    assert_eq!(m.missing_count(), 1);
}

#[test]
fn cancel_resets_the_monitor() {
    let mut m = Monitor::new(BleLockConfig::default().monitor_config());
    m.update(Some(-60));
    for _ in 0..5 {
        m.update(None);
    }
    assert!(m.should_lock());
    assert_eq!(countdown_outcome(CooldownStep::Wait, &mut m), Some(BleState::LockPending));
    assert!(m.should_lock());
    assert_eq!(countdown_outcome(CooldownStep::Lock, &mut m), Some(BleState::Locked));
    assert_eq!(countdown_outcome(CooldownStep::Abandon, &mut m), None);
    assert!(m.should_lock());
    assert_eq!(countdown_outcome(CooldownStep::Cancel, &mut m), Some(BleState::Watching));
    assert!(!m.should_lock());
    assert!(!m.is_armed());
    assert_eq!(m.missing_count(), 0);
}

#[test]
fn auto_protect_needs_a_bound_phone_in_range() {
    let mut c = BleLockConfig::default();
    assert!(!should_auto_protect(&c, Some(-50)));
    c.target = Some("iPhone".to_string());
    assert!(should_auto_protect(&c, Some(-75)));
    assert!(!should_auto_protect(&c, Some(-76)));
    assert!(!should_auto_protect(&c, None));
    c.auto_protect_on_launch = false;
    assert!(!should_auto_protect(&c, Some(-50)));
}

#[test]
fn lock_page_actions() {
    assert_eq!(user_action(BleState::Idle, UserAction::Start), Some((BleState::Watching, true, false)));
    assert_eq!(user_action(BleState::Watching, UserAction::Start), None);
    assert_eq!(user_action(BleState::Watching, UserAction::Stop), Some((BleState::Idle, true, false)));
    assert_eq!(user_action(BleState::LockPending, UserAction::Stop), Some((BleState::Idle, true, false)));
    assert_eq!(user_action(BleState::Idle, UserAction::Stop), None);
    assert_eq!(user_action(BleState::LockPending, UserAction::CancelLock), Some((BleState::LockPending, false, true)));
    assert_eq!(user_action(BleState::Watching, UserAction::CancelLock), None);
    assert_eq!(user_action(BleState::Locked, UserAction::Reset), Some((BleState::Idle, true, false)));
    assert_eq!(user_action(BleState::Idle, UserAction::ChangeDevice), Some((BleState::Idle, false, false)));
    assert_eq!(user_action(BleState::Watching, UserAction::ChangeDevice), None);
}
