//! BLE devices as plain values, and the rule that recognises the bound one.

use vstd::prelude::*;

verus! {

/// A readable snapshot of one BLE peripheral seen in a scan.
#[derive(Debug, Clone, PartialEq, Eq)]
pub struct DeviceInfo {
    /// The peripheral id as a string (a UUID on macOS, the MAC address
    /// elsewhere).
    pub id: String,
    /// The BD_ADDR, such as `"AA:BB:CC:DD:EE:FF"` (all zeros on macOS).
    pub address: String,
    /// The advertised local name, when there is one.
    pub local_name: Option<String>,
    /// Signal strength in dBm (negative; closer to 0 is stronger).
    pub rssi: Option<i16>,
}

/// How the bound device is recognised.
#[derive(Debug, Clone)]
pub enum DeviceMatcher {
    /// The peripheral id, exactly.
    Id(String),
    /// The BD_ADDR, exactly.
    Address(String),
    /// The local name, exactly.
    Name(String),
}

/// Whether `info` is the device that `m` describes.
pub open spec fn is_match(m: DeviceMatcher, info: DeviceInfo) -> bool {
    match m {
        DeviceMatcher::Id(s) => info.id@ == s@,
        DeviceMatcher::Address(s) => info.address@ == s@,
        DeviceMatcher::Name(s) => info.local_name is Some && info.local_name->0@ == s@,
    }
}

impl DeviceMatcher {
    /// Whether the snapshot is the device this matcher describes.
    pub fn matches(&self, info: &DeviceInfo) -> (b: bool)
        ensures
            b == is_match(*self, *info),
    {
        match self {
            DeviceMatcher::Id(s) => info.id == *s,
            DeviceMatcher::Address(s) => info.address == *s,
            DeviceMatcher::Name(s) => match &info.local_name {
                Some(n) => *n == *s,
                None => false,
            },
        }
    }

    /// The first device of a scan that this matcher describes (its
    /// position in `devices`), or `None` when the device was not seen.
    pub fn find_in(&self, devices: &Vec<DeviceInfo>) -> (r: Option<usize>)
        ensures
            match r {
                Some(i) => i < devices@.len() && is_match(*self, devices@[i as int]) && forall|j: int|
                    0 <= j < i ==> !is_match(*self, #[trigger] devices@[j]),
                None => forall|j: int| 0 <= j < devices@.len() ==> !is_match(*self, #[trigger] devices@[j]),
            },
    {
        let mut i: usize = 0;
        while i < devices.len()
            invariant
                i <= devices@.len(),
                forall|j: int| 0 <= j < i ==> !is_match(*self, #[trigger] devices@[j]),
            decreases devices@.len() - i,
        {
            if self.matches(&devices[i]) {
                return Some(i);
            }
            i = i + 1;
        }
        None
    }
}

/// How strong a reading is, for ordering: the RSSI itself, and below every
/// RSSI when the device advertised none.
pub open spec fn signal_key(rssi: Option<i16>) -> int {
    match rssi {
        Some(r) => r as int,
        None => i16::MIN - 1,
    }
}

/// `a` is at least as strong as `b`.
fn at_least_as_strong(a: Option<i16>, b: Option<i16>) -> (r: bool)
    ensures
        r == (signal_key(a) >= signal_key(b)),
{
    match (a, b) {
        (_, None) => true,
        (None, Some(_)) => false,
        (Some(x), Some(y)) => x >= y,
    }
}

/// `r` lists positions of `devices`, each at most once.
pub open spec fn distinct_positions(devices: Seq<DeviceInfo>, r: Seq<usize>) -> bool {
    &&& forall|j: int| 0 <= j < r.len() ==> r[j] < devices.len()
    &&& forall|i: int, j: int| 0 <= i < j < r.len() ==> r[i] != r[j]
}

/// Strongest first, and devices of equal strength in the order of the scan.
pub open spec fn by_signal(devices: Seq<DeviceInfo>, r: Seq<usize>) -> bool {
    forall|i: int, j: int|
        #![trigger r[i], r[j]]
        0 <= i < j < r.len() ==> {
            let a = signal_key(devices[r[i] as int].rssi);
            let b = signal_key(devices[r[j] as int].rssi);
            a > b || (a == b && r[i] < r[j])
        }
}

/// The order in which a discovery scan lists devices: the strongest signal
/// first, devices without a reading last, ties in scan order. The result
/// holds every position of `devices` once.
pub fn signal_order(devices: &Vec<DeviceInfo>) -> (r: Vec<usize>)
    ensures
        r@.len() == devices@.len(),
        distinct_positions(devices@, r@),
        by_signal(devices@, r@),
{
    let mut r: Vec<usize> = Vec::new();
    let mut k: usize = 0;
    while k < devices.len()
        invariant
            k <= devices@.len(),
            r@.len() == k,
            forall|j: int| 0 <= j < r@.len() ==> r@[j] < k,
            distinct_positions(devices@, r@),
            by_signal(devices@, r@),
        decreases devices@.len() - k,
    {
        let kk = devices[k].rssi;
        let mut p: usize = 0;
        while p < r.len() && at_least_as_strong(devices[r[p]].rssi, kk)
            invariant
                p <= r@.len(),
                r@.len() == k,
                k < devices@.len(),
                kk == devices@[k as int].rssi,
                forall|j: int| 0 <= j < r@.len() ==> r@[j] < k,
                forall|q: int| 0 <= q < p ==> signal_key(devices@[r@[q] as int].rssi) >= signal_key(kk),
            decreases r@.len() - p,
        {
            p = p + 1;
        }
        let ghost old_r = r@;
        proof {
            if p < old_r.len() {
                assert(signal_key(devices@[old_r[p as int] as int].rssi) < signal_key(kk));
                assert forall|q: int| p <= q < old_r.len() implies signal_key(devices@[old_r[q] as int].rssi)
                    < signal_key(kk) by {
                    if q > p {
                        assert(signal_key(devices@[old_r[p as int] as int].rssi) >= signal_key(
                            devices@[old_r[q] as int].rssi,
                        ));
                    }
                }
            }
            old_r.insert_ensures(p as int, k);
        }
        r.insert(p, k);
        proof {
            let nr = r@;
            assert(nr == old_r.insert(p as int, k));
            assert forall|j: int| 0 <= j < nr.len() implies nr[j] < k + 1 by {
                if j < p {
                    assert(nr[j] == old_r[j]);
                } else if j > p {
                    assert(nr[j] == old_r[j - 1]);
                }
            }
            assert forall|i: int, j: int| 0 <= i < j < nr.len() implies nr[i] != nr[j] by {
                if j < p {
                    assert(nr[i] == old_r[i] && nr[j] == old_r[j]);
                } else if j == p {
                    assert(nr[i] == old_r[i]);
                } else if i < p {
                    assert(nr[i] == old_r[i] && nr[j] == old_r[j - 1]);
                } else if i == p {
                    assert(nr[j] == old_r[j - 1]);
                } else {
                    assert(nr[i] == old_r[i - 1] && nr[j] == old_r[j - 1]);
                }
            }
            assert forall|i: int, j: int| #![trigger nr[i], nr[j]] 0 <= i < j < nr.len() implies {
                let a = signal_key(devices@[nr[i] as int].rssi);
                let b = signal_key(devices@[nr[j] as int].rssi);
                a > b || (a == b && nr[i] < nr[j])
            } by {
                if j < p {
                    assert(nr[i] == old_r[i] && nr[j] == old_r[j]);
                } else if j == p {
                    assert(nr[i] == old_r[i]);
                } else if i < p {
                    assert(nr[i] == old_r[i] && nr[j] == old_r[j - 1]);
                } else if i == p {
                    assert(nr[j] == old_r[j - 1]);
                } else {
                    assert(nr[i] == old_r[i - 1] && nr[j] == old_r[j - 1]);
                }
            }
        }
        k = k + 1;
    }
    r
}

} // verus!
