//! Persistent settings of the BLE lock: the bound device and the thresholds.
//! (Reading and writing the file is the application's part.)

use crate::ble_lock::monitor::MonitorConfig;
use vstd::prelude::*;

verus! {

/// Everything the BLE lock keeps on disk.
#[derive(Debug, Clone, PartialEq)]
pub struct BleLockConfig {
    /// The bound device (its BLE local name); `None` when nothing is bound.
    pub target: Option<String>,
    /// RSSI threshold (dBm, negative): `rssi >= lock_rssi` counts as nearby.
    pub lock_rssi: i16,
    /// Consecutive non-nearby readings that trigger the lock decision.
    pub missing_limit: u32,
    /// Consecutive nearby readings, once locked, that re-arm the watch.
    pub rearm_limit: u32,
    /// Start the protection when the app opens (device bound and in range).
    pub auto_protect_on_launch: bool,
}

pub fn default_lock_rssi() -> (r: i16)
    ensures
        r == -75,
{
    -75
}

pub fn default_missing_limit() -> (r: u32)
    ensures
        r == 5,
{
    5
}

pub fn default_rearm_limit() -> (r: u32)
    ensures
        r == 3,
{
    3
}

pub fn default_auto_protect_on_launch() -> (r: bool)
    ensures
        r,
{
    true
}

impl Default for BleLockConfig {
    fn default() -> (c: Self)
        ensures
            c.target is None,
            c.lock_rssi == -75,
            c.missing_limit == 5,
            c.rearm_limit == 3,
            c.auto_protect_on_launch,
    {
        BleLockConfig {
            target: None,
            lock_rssi: default_lock_rssi(),
            missing_limit: default_missing_limit(),
            rearm_limit: default_rearm_limit(),
            auto_protect_on_launch: default_auto_protect_on_launch(),
        }
    }
}

impl BleLockConfig {
    /// The monitor parameters held in these settings.
    pub fn monitor_config(&self) -> (m: MonitorConfig)
        ensures
            m.lock_rssi == self.lock_rssi,
            m.missing_limit == self.missing_limit,
            m.rearm_limit == self.rearm_limit,
    {
        MonitorConfig {
            lock_rssi: self.lock_rssi,
            missing_limit: self.missing_limit,
            rearm_limit: self.rearm_limit,
        }
    }
}

} // verus!
