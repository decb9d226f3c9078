use proxyzms::mihomo::api::{
    auth_header, connections_ws_url, group_delay_path, http_to_ws, select_proxy_path, trim_base,
};
use proxyzms::mihomo::process::{elevation_script, is_root_setuid, mihomo_args, parse_pid};
use proxyzms::mihomo::types::{active_group, offered_groups, Connection, DelayHistory, Metadata, Proxy};

fn conn(host: &str, ip: &str, port: &str) -> Connection {
    Connection {
        id: "1".to_string(),
        upload: 0,
        download: 0,
        chains: vec![],
        rule: String::new(),
        rule_payload: String::new(),
        metadata: Metadata {
            host: host.to_string(),
            destination_ip: ip.to_string(),
            destination_port: port.to_string(),
            ..Metadata::default()
        },
    }
}

#[test]
fn connection_targets() {
    assert_eq!(conn("example.com", "1.2.3.4", "443").target(), "example.com:443");
    assert_eq!(conn("", "1.2.3.4", "53").target(), "1.2.3.4:53");
    assert_eq!(conn("", "1.2.3.4", "").target(), "1.2.3.4");
    assert_eq!(conn("h", "", "").target(), "h");
}

fn proxy(kind: &str, delays: &[u32]) -> Proxy {
    Proxy {
        name: "p".to_string(),
        proxy_type: kind.to_string(),
        now: String::new(),
        all: vec![],
        history: delays.iter().map(|d| DelayHistory { delay: *d }).collect(),
    }
}

#[test]
fn proxy_helpers() {
    assert!(proxy("Selector", &[]).is_selector());
    assert!(!proxy("URLTest", &[]).is_selector());
    assert_eq!(proxy("Shadowsocks", &[]).last_delay(), None);
    assert_eq!(proxy("Shadowsocks", &[120, 0]).last_delay(), None);
    assert_eq!(proxy("Shadowsocks", &[0, 88]).last_delay(), Some(88));
}

#[test]
fn urls_and_paths() {
    assert_eq!(trim_base("http://127.0.0.1:9091//"), "http://127.0.0.1:9091");
    assert_eq!(http_to_ws("https://h:1"), "wss://h:1");
    assert_eq!(http_to_ws("http://h:1"), "ws://h:1");
    assert_eq!(http_to_ws("h:1"), "ws://h:1");
    assert_eq!(connections_ws_url("http://127.0.0.1:9091"), "ws://127.0.0.1:9091/connections");
    assert_eq!(auth_header(""), None);
    assert_eq!(auth_header("k"), Some("Bearer k".to_string()));
}

#[test]
fn group_names_are_percent_encoded() {
    assert_eq!(select_proxy_path("Proxy"), "/proxies/Proxy");
    assert_eq!(select_proxy_path("🇭🇰 香港"), "/proxies/%F0%9F%87%AD%F0%9F%87%B0%20%E9%A6%99%E6%B8%AF");
    assert_eq!(select_proxy_path("a/b~c_d.e-f"), "/proxies/a%2Fb~c_d.e-f");
    assert_eq!(
        group_delay_path("Auto Select"),
        "/group/Auto%20Select/delay?url=https%3A%2F%2Fwww.gstatic.com%2Fgenerate_204&timeout=3000"
    );
}

#[test]
fn pid_files() {
    assert_eq!(parse_pid("1234\n"), Some(1234));
    assert_eq!(parse_pid("  +42 "), Some(42));
    assert_eq!(parse_pid("4294967295"), Some(u32::MAX));
    assert_eq!(parse_pid("4294967296"), None);
    assert_eq!(parse_pid("99999999999999999999"), None);
    assert_eq!(parse_pid(""), None);
    assert_eq!(parse_pid("+"), None);
    assert_eq!(parse_pid("-1"), None);
    assert_eq!(parse_pid("12a"), None);
    assert_eq!(parse_pid("007"), Some(7));
    for s in ["0", "17", " 65535", "x", "1 2", "٣"] {
        assert_eq!(parse_pid(s), s.trim().parse::<u32>().ok(), "{s}");
    }
}

#[test]
fn launch_arguments() {
    assert!(mihomo_args("   ").is_empty());
    assert_eq!(mihomo_args(" /data/dir"), vec!["-d".to_string(), " /data/dir".to_string()]);
}

#[test]
fn elevation() {
    assert!(is_root_setuid(0, 0o104755));
    assert!(!is_root_setuid(0, 0o755));
    assert!(!is_root_setuid(501, 0o104755));
    assert_eq!(
        elevation_script("/a/mihomo"),
        "do shell script \"chown root:wheel '/a/mihomo' && chmod u+s '/a/mihomo'\" with administrator privileges"
    );
}

fn named(name: &str, kind: &str) -> Proxy {
    Proxy { name: name.to_string(), ..proxy(kind, &[]) }
}

#[test]
fn offered_groups_skip_global_and_non_selectors() {
    let all = vec![
        named("Auto", "URLTest"),
        named("DIRECT", "Direct"),
        named("GLOBAL", "Selector"),
        named("Proxy", "Selector"),
        named("Streaming", "Selector"),
    ];
    let groups = offered_groups(&all);
    assert_eq!(groups, vec![3, 4]);
    assert_eq!(active_group(&all, &groups, None), Some(3));
    assert_eq!(active_group(&all, &groups, Some("Streaming")), Some(4));
    assert_eq!(active_group(&all, &groups, Some("Gone")), Some(3));
    assert_eq!(active_group(&all, &groups, Some("GLOBAL")), Some(3));
    assert_eq!(active_group(&all, &[].to_vec(), Some("Proxy")), None);
    assert_eq!(offered_groups(&vec![named("GLOBAL", "Selector")]), Vec::<usize>::new());
}
