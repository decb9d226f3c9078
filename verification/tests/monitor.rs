use proxyzms::ble_lock::monitor::{Monitor, MonitorConfig, PhoneStatus};

fn cfg(lock_rssi: i16, missing_limit: u32, rearm_limit: u32) -> MonitorConfig {
    MonitorConfig { lock_rssi, missing_limit, rearm_limit }
}

#[test]
fn labels() {
    assert_eq!(PhoneStatus::Nearby.label(), "在身边");
    assert_eq!(PhoneStatus::WeakSignal.label(), "信号弱");
    assert_eq!(PhoneStatus::Missing.label(), "丢失");
}

#[test]
fn classifies_readings() {
    let mut m = Monitor::new(cfg(-75, 5, 3));
    assert_eq!(m.update(Some(-75)), PhoneStatus::Nearby);
    assert_eq!(m.update(Some(-76)), PhoneStatus::WeakSignal);
    assert_eq!(m.update(None), PhoneStatus::Missing);
}

#[test]
fn unarmed_monitor_never_locks() {
    let mut m = Monitor::new(cfg(-75, 2, 3));
    for _ in 0..10 {
        m.update(None);
        m.update(Some(-90));
    }
    assert!(!m.is_armed());
    assert_eq!(m.missing_count(), 0);
    assert!(!m.should_lock());
}

#[test]
fn locks_after_missing_limit_once_armed() {
    let mut m = Monitor::new(cfg(-75, 3, 3));
    m.update(Some(-50));
    assert!(m.is_armed());
    m.update(None);
    m.update(Some(-80));
    assert_eq!(m.missing_count(), 2);
    assert!(!m.should_lock());
    m.update(None);
    assert_eq!(m.missing_count(), 3);
    assert!(m.should_lock());
}

#[test]
fn lock_is_latched() {
    let mut m = Monitor::new(cfg(-75, 1, 2));
    m.update(Some(-50));
    m.update(None);
    assert!(m.should_lock());
    m.update(Some(-40));
    assert!(m.should_lock());
    assert_eq!(m.missing_count(), 0);
    // loosening the settings does not withdraw the decision
    m.set_config(cfg(-100, 100, 2));
    assert!(m.should_lock());
}

#[test]
fn rearm_after_enough_nearby_readings() {
    let mut m = Monitor::new(cfg(-75, 1, 2));
    m.update(Some(-50));
    m.update(None);
    assert!(m.should_lock());
    assert!(!m.should_rearm());
    m.update(Some(-60));
    assert!(!m.should_rearm());
    m.update(Some(-60));
    assert!(m.should_rearm());
    m.rearm();
    assert!(!m.should_lock());
    assert!(!m.should_rearm());
    assert!(m.is_armed());
    assert_eq!(m.missing_count(), 0);
}

#[test]
fn reset_clears_everything() {
    let mut m = Monitor::new(cfg(-75, 1, 2));
    m.update(Some(-50));
    m.update(None);
    m.reset();
    assert!(!m.should_lock());
    assert!(!m.is_armed());
    assert_eq!(m.missing_count(), 0);
    m.update(None);
    assert!(!m.should_lock());
}

#[test]
fn set_config_rechecks_at_once() {
    let mut m = Monitor::new(cfg(-75, 5, 3));
    m.update(Some(-50));
    m.update(None);
    m.update(None);
    assert!(!m.should_lock());
    m.set_config(cfg(-75, 2, 3));
    assert!(m.should_lock());
}

#[test]
fn nearby_needs_the_threshold() {
    let mut m = Monitor::new(cfg(-60, 1, 1));
    assert_eq!(m.update(Some(-61)), PhoneStatus::WeakSignal);
    assert!(!m.is_armed());
    assert_eq!(m.update(Some(-60)), PhoneStatus::Nearby);
    assert!(m.is_armed());
}

#[test]
fn rearm_needs_nearby_readings_after_the_lock() {
    let mut m = Monitor::new(cfg(-75, 5, 1));
    assert_eq!(m.update(Some(-50)), PhoneStatus::Nearby);
    m.set_config(cfg(-75, 0, 1));
    assert!(m.should_lock());
    assert!(!m.should_rearm());
    assert_eq!(m.update(Some(-50)), PhoneStatus::Nearby);
    assert!(m.should_rearm());
}

#[test]
fn armed_until_reset() {
    let mut m = Monitor::new(cfg(-75, 5, 3));
    assert!(!m.is_armed());
    m.update(None);
    m.update(Some(-90));
    assert!(!m.is_armed());
    m.update(Some(-60));
    m.set_config(cfg(-50, 5, 3));
    m.update(None);
    m.rearm();
    assert!(m.is_armed());
    m.reset();
    assert!(!m.is_armed());
}
