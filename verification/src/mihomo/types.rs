//! Response models of the mihomo External Controller API. (Their JSON
//! decoding lives in the application, on copies that derive serde.)

use std::collections::BTreeMap;
use vstd::prelude::*;

verus! {

/// `GET /connections`: totals, memory and the open connections.
#[derive(Debug, Clone, PartialEq, Default)]
pub struct Connections {
    pub download_total: u64,
    pub upload_total: u64,
    pub memory: u64,
    pub connections: Vec<Connection>,
}

/// One open connection.
#[derive(Debug, Clone, PartialEq)]
pub struct Connection {
    pub id: String,
    pub upload: u64,
    pub download: u64,
    pub chains: Vec<String>,
    pub rule: String,
    pub rule_payload: String,
    pub metadata: Metadata,
}

#[derive(Debug, Clone, PartialEq, Default)]
pub struct Metadata {
    pub network: String,
    pub conn_type: String,
    pub host: String,
    pub destination_ip: String,
    pub destination_port: String,
    pub source_ip: String,
    pub source_port: String,
}

/// The readable target of a connection: the host name when there is one,
/// else the destination IP; then `:port` when the port is known.
pub open spec fn target_of(m: Metadata) -> Seq<char> {
    let host = if m.host@.len() == 0 {
        m.destination_ip@
    } else {
        m.host@
    };
    if m.destination_port@.len() == 0 {
        host
    } else {
        host + ":"@ + m.destination_port@
    }
}

impl Connection {
    /// The readable target: host name first, else destination IP, with the
    /// port when known.
    pub fn target(&self) -> (r: String)
        ensures
            r@ == target_of(self.metadata),
    {
        let host = if self.metadata.host.as_str().is_empty() {
            &self.metadata.destination_ip
        } else {
            &self.metadata.host
        };
        if self.metadata.destination_port.as_str().is_empty() {
            host.clone()
        } else {
            let mut v = crate::text::chars_of(host.as_str());
            crate::text::append_chars(&mut v, &crate::text::chars_of(":"));
            crate::text::append_chars(&mut v, &crate::text::chars_of(self.metadata.destination_port.as_str()));
            crate::text::string_from(&v)
        }
    }
}

/// The part of `GET /configs` the app reads.
#[derive(Debug, Clone, PartialEq, Default)]
pub struct Configs {
    /// Proxy mode: rule / global / direct.
    pub mode: String,
    /// TUN (virtual network interface) settings.
    pub tun: TunConfig,
}

#[derive(Debug, Clone, PartialEq, Default)]
pub struct TunConfig {
    pub enable: bool,
}

/// `GET /proxies`: all nodes and groups, ordered by name.
#[derive(Debug, Clone, PartialEq, Default)]
pub struct Proxies {
    pub proxies: BTreeMap<String, Proxy>,
}

/// A node or a group. Groups also carry `now` (the current choice) and `all`
/// (their members).
#[derive(Debug, Clone, PartialEq)]
pub struct Proxy {
    pub name: String,
    pub proxy_type: String,
    pub now: String,
    pub all: Vec<String>,
    pub history: Vec<DelayHistory>,
}

#[derive(Debug, Clone, Copy, PartialEq)]
pub struct DelayHistory {
    pub delay: u32,
}

impl Proxy {
    /// Only `Selector` groups can be switched by hand.
    pub fn is_selector(&self) -> (b: bool)
        ensures
            b == (self.proxy_type@ == "Selector"@),
    {
        crate::text::same_text(self.proxy_type.as_str(), "Selector")
    }

    /// The latest measured delay in milliseconds; a 0 (timeout or no data) or
    /// an empty history gives `None`.
    pub fn last_delay(&self) -> (r: Option<u32>)
        ensures
            r == if self.history@.len() > 0 && self.history@.last().delay > 0 {
                Some(self.history@.last().delay)
            } else {
                None::<u32>
            },
    {
        let n = self.history.len();
        if n == 0 {
            return None;
        }
        let d = self.history[n - 1].delay;
        if d > 0 {
            Some(d)
        } else {
            None
        }
    }
}

/// A group the node page offers: a `Selector` other than the built-in
/// `GLOBAL` (meaningless in rule mode).
pub open spec fn offered(p: Proxy) -> bool {
    p.proxy_type@ == "Selector"@ && p.name@ != "GLOBAL"@
}

/// The positions, in order, of the offered groups among `all` (the values of
/// `/proxies`, in name order).
pub fn offered_groups(all: &Vec<Proxy>) -> (r: Vec<usize>)
    ensures
        forall|k: int| 0 <= k < r@.len() ==> r@[k] < all@.len() && offered(all@[r@[k] as int]),
        forall|k1: int, k2: int| 0 <= k1 < k2 < r@.len() ==> r@[k1] < r@[k2],
        forall|i: int| 0 <= i < all@.len() && offered(#[trigger] all@[i]) ==> r@.contains(i as usize),
{
    let mut r: Vec<usize> = Vec::new();
    let mut i: usize = 0;
    while i < all.len()
        invariant
            i <= all@.len(),
            forall|k: int| 0 <= k < r@.len() ==> r@[k] < i && offered(all@[r@[k] as int]),
            forall|k1: int, k2: int| 0 <= k1 < k2 < r@.len() ==> r@[k1] < r@[k2],
            forall|j: int| 0 <= j < i && offered(#[trigger] all@[j]) ==> r@.contains(j as usize),
        decreases all@.len() - i,
    {
        let p = &all[i];
        let ghost r0 = r@;
        if p.is_selector() && !crate::text::same_text(p.name.as_str(), "GLOBAL") {
            r.push(i);
            assert(r@[r@.len() - 1] == i);
        }
        assert forall|j: int| 0 <= j < i + 1 && offered(#[trigger] all@[j]) implies r@.contains(
            j as usize,
        ) by {
            if j < i {
                assert(r0.contains(j as usize));
                let k = choose|k: int| 0 <= k < r0.len() && r0[k] == j as usize;
                assert(r@[k] == r0[k]);
            } else {
                assert(r@[r@.len() - 1] == i);
            }
        }
        i = i + 1;
    }
    r
}

/// The picked group name is among the offered groups.
pub open spec fn still_offered(all: Seq<Proxy>, groups: Seq<usize>, picked: Option<&str>) -> bool {
    picked matches Some(n) && exists|k: int| 0 <= k < groups.len() && #[trigger] all[groups[k] as int].name@ == n@
}

/// The first offered group named `n`.
pub open spec fn first_named(all: Seq<Proxy>, groups: Seq<usize>, n: Seq<char>, k: int) -> bool {
    &&& 0 <= k < groups.len()
    &&& all[groups[k] as int].name@ == n
    &&& forall|j: int| 0 <= j < k ==> all[groups[j] as int].name@ != n
}

/// The group shown: the one the user picked while it is still offered (the
/// first of that name), else the first offered group (`None` when there is
/// none). `groups` holds positions in `all`, as `offered_groups` gives them.
pub fn active_group(all: &Vec<Proxy>, groups: &Vec<usize>, picked: Option<&str>) -> (r: Option<usize>)
    requires
        forall|k: int| 0 <= k < groups@.len() ==> groups@[k] < all@.len(),
    ensures
        still_offered(all@, groups@, picked) ==> exists|k: int|
            first_named(all@, groups@, picked->0@, k) && r == Some(groups@[k]),
        !still_offered(all@, groups@, picked) ==> r == if groups@.len() == 0 {
            None
        } else {
            Some(groups@[0])
        },
{
    if let Some(n) = picked {
        let mut k: usize = 0;
        while k < groups.len()
            invariant
                k <= groups@.len(),
                picked == Some(n),
                forall|j: int| 0 <= j < groups@.len() ==> groups@[j] < all@.len(),
                forall|j: int| 0 <= j < k ==> all@[groups@[j] as int].name@ != n@,
            decreases groups@.len() - k,
        {
            if crate::text::same_text(all[groups[k]].name.as_str(), n) {
                assert(first_named(all@, groups@, n@, k as int));
                return Some(groups[k]);
            }
            k = k + 1;
        }
    }
    if groups.len() == 0 {
        None
    } else {
        Some(groups[0])
    }
}

} // verus!
