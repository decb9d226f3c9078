use proxyzms::bootstrap::{
    asset_url, config_action, controlled_config, uses_custom_binary, ConfigAction, default_config, enforce_local_control, is_binary_entry,
    is_wintun_entry, is_zip_asset, should_report_progress, strip_seized_keys, url_to_ec,
    wintun_arch_dir, DEFAULT_BASE,
};

#[test]
fn controller_url_to_host_port() {
    assert_eq!(url_to_ec("http://127.0.0.1:9091"), "127.0.0.1:9091");
    assert_eq!(url_to_ec("  https://example.com:9090//  "), "example.com:9090");
    assert_eq!(url_to_ec("127.0.0.1:9091/"), "127.0.0.1:9091");
    assert_eq!(url_to_ec("http://http://x"), "x");
}

#[test]
fn strips_seized_keys_with_children() {
    let yaml = "mixed-port: 7890\nexternal-controller: 0.0.0.0:9090\nsecret: evil\nexternal-controller-tls: 1\nexternal-controller-cors:\n  allow-origins:\n    - '*'\n\nmode: rule\n  secret-ish: kept\n";
    assert_eq!(strip_seized_keys(yaml), "mixed-port: 7890\nmode: rule\n  secret-ish: kept\n");
}

#[test]
fn kept_lines_end_with_newline() {
    assert_eq!(strip_seized_keys("a: 1"), "a: 1\n");
    assert_eq!(strip_seized_keys(""), "");
    assert_eq!(strip_seized_keys("a: 1\r\nb: 2\r\n"), "a: 1\nb: 2\n");
}

#[test]
fn injects_local_control() {
    let out = enforce_local_control("secret: x\nmode: rule\n", "127.0.0.1:9091", "s3");
    assert_eq!(out, "external-controller: 127.0.0.1:9091\nsecret: \"s3\"\nmode: rule\n");
    let out = enforce_local_control("mode: rule\n", "h:1", "");
    assert_eq!(out, "external-controller: h:1\nsecret: \"\"\nmode: rule\n");
}

#[test]
fn default_config_is_the_base_under_control() {
    let out = default_config("http://127.0.0.1:9091", "");
    assert_eq!(
        out,
        format!("external-controller: 127.0.0.1:9091\nsecret: \"\"\n{DEFAULT_BASE}")
    );
}

#[test]
fn reasserting_control_is_stable() {
    let sub = "port: 1\nexternal-controller: 1.2.3.4:9\nsecret: a\nproxies:\n  - name: x\n";
    let once = controlled_config(sub, "http://127.0.0.1:9091/", "k");
    let twice = controlled_config(&once, "http://127.0.0.1:9091/", "k");
    assert_eq!(once, twice);
    assert_eq!(
        once,
        "external-controller: 127.0.0.1:9091\nsecret: \"k\"\nport: 1\nproxies:\n  - name: x\n"
    );
    let crlf = "port: 1\r\nsecret: a\r\nmode: rule\r\n";
    let once = controlled_config(crlf, "h:1", "");
    assert_eq!(controlled_config(&once, "h:1", ""), once);
}

#[test]
fn only_the_injected_controller_keys_remain() {
    let sub = "external-controller-unix: /tmp/s\n  x: 1\nsecret:\n  nested: 2\nrules: []\n";
    let out = controlled_config(sub, "https://h:1", "p");
    let top: Vec<&str> = out.lines().filter(|l| !l.starts_with([' ', '\t']) && !l.is_empty()).collect();
    assert_eq!(top, ["external-controller: h:1", "secret: \"p\"", "rules: []"]);
}

#[test]
fn asset_urls() {
    assert_eq!(
        asset_url("windows", "x86_64"),
        Ok("https://r2.zhoumaosen.top/mihomo/windows.zip".to_string())
    );
    assert_eq!(
        asset_url("windows", "aarch64"),
        Ok("https://r2.zhoumaosen.top/mihomo/windowsarm.zip".to_string())
    );
    assert_eq!(
        asset_url("macos", "aarch64"),
        Ok("https://r2.zhoumaosen.top/mihomo/mac.gz".to_string())
    );
    assert_eq!(
        asset_url("linux", "x86_64"),
        Err("R2 镜像未上传该架构:linux x86_64".to_string())
    );
    assert!(asset_url("macos", "x86_64").is_err());
}

#[test]
fn progress_is_reported_every_256_kib() {
    assert!(!should_report_progress(0, 0));
    assert!(!should_report_progress(262143, 0));
    assert!(should_report_progress(262144, 0));
    assert!(!should_report_progress(300000, 262144));
    assert!(should_report_progress(524288, 262144));
}

#[test]
fn zip_assets_are_told_by_their_suffix() {
    assert!(is_zip_asset("https://r2.zhoumaosen.top/mihomo/windows.zip"));
    assert!(!is_zip_asset("https://r2.zhoumaosen.top/mihomo/mac.gz"));
    assert!(!is_zip_asset("zip"));
    assert!(is_zip_asset(".zip"));
    assert!(!is_zip_asset("a.ZIP"));
}

#[test]
fn binary_entry_is_an_exe_in_any_case_or_the_only_entry() {
    assert!(is_binary_entry("mihomo-windows-amd64.exe", 3));
    assert!(is_binary_entry("MIHOMO.EXE", 2));
    assert!(!is_binary_entry("README.md", 2));
    assert!(is_binary_entry("README.md", 1));
    assert!(!is_binary_entry("exe", 2));
}

#[test]
fn wintun_architecture_directories() {
    assert_eq!(wintun_arch_dir("x86_64"), Ok("amd64"));
    assert_eq!(wintun_arch_dir("aarch64"), Ok("arm64"));
    assert_eq!(
        wintun_arch_dir("x86"),
        Err("wintun 不支持当前架构:x86".to_string())
    );
}

#[test]
fn wintun_entry_matches_with_either_separator() {
    assert!(is_wintun_entry("wintun/bin/amd64/wintun.dll", "amd64"));
    assert!(is_wintun_entry("wintun\\bin\\arm64\\wintun.dll", "arm64"));
    assert!(!is_wintun_entry("wintun/bin/x86/wintun.dll", "amd64"));
    assert!(!is_wintun_entry("wintun/bin/amd64/wintun.lib", "amd64"));
}

#[test]
fn custom_binary_skips_the_setup() {
    let managed = "/home/u/.config/proxy-zms/mihomo/mihomo";
    assert!(!uses_custom_binary("", managed));
    assert!(!uses_custom_binary("   ", managed));
    assert!(!uses_custom_binary(managed, managed));
    assert!(uses_custom_binary("/usr/local/bin/mihomo", managed));
}

#[test]
fn setup_config_actions() {
    assert_eq!(config_action(true, "https://sub"), ConfigAction::Reassert);
    assert_eq!(config_action(true, ""), ConfigAction::Reassert);
    assert_eq!(config_action(false, " \t"), ConfigAction::WriteDefault);
    assert_eq!(config_action(false, "https://sub.example/x.yaml"), ConfigAction::Fetch);
}

#[test]
fn quoted_controller_keys_are_stripped_too() {
    assert_eq!(strip_seized_keys("'secret': hijack\nmode: rule\n"), "mode: rule\n");
    assert_eq!(
        strip_seized_keys("\"external-controller\": 0.0.0.0:9090\n  x: 1\nport: 1\n"),
        "port: 1\n"
    );
    assert_eq!(strip_seized_keys("'secret-ish: x\n"), "'secret-ish: x\n");
    let out = controlled_config("\"secret\": evil\nmode: rule\n", "h:1", "k");
    assert_eq!(out, "external-controller: h:1\nsecret: \"k\"\nmode: rule\n");
}

#[test]
fn stripping_twice_changes_nothing() {
    let yaml = "  lead: 1\nsecret: a\n  b: 2\n\nmode: rule\r\n'external-controller-tls': x\nport: 1";
    let once = strip_seized_keys(yaml);
    assert_eq!(strip_seized_keys(&once), once);
}

#[test]
fn stripping_twice_when_only_a_dropped_line_has_a_stray_cr() {
    let yaml = "secret: x\r\r\nmode: rule\n";
    let once = strip_seized_keys(yaml);
    assert_eq!(once, "mode: rule\n");
    assert_eq!(strip_seized_keys(&once), once);
}
