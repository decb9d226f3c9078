use proxyzms::autostart::{is_enabled_on, is_supported, may_switch, render_plist, run_value, xml_escape};
use proxyzms::config::AppConfig;
use proxyzms::logo::png_data_uri;
use proxyzms::theme::reg_query_is_dark;

#[test]
fn autostart_support() {
    assert!(is_supported("macos"));
    assert!(is_supported("windows"));
    assert!(!is_supported("linux"));
}

#[test]
fn xml_escaping() {
    assert_eq!(xml_escape("a&b<c>d\"e'f"), "a&amp;b&lt;c&gt;d&quot;e&apos;f");
    assert_eq!(xml_escape("/Applications/暴暴龙.app"), "/Applications/暴暴龙.app");
}

#[test]
fn plist() {
    let p = render_plist("/Apps/A&B.app/Contents/MacOS/proxyzms");
    let expected = r#"<?xml version="1.0" encoding="UTF-8"?>
<!DOCTYPE plist PUBLIC "-//Apple//DTD PLIST 1.0//EN" "http://www.apple.com/DTDs/PropertyList-1.0.dtd">
<plist version="1.0">
<dict>
    <key>Label</key>
    <string>top.zhoumaosen.proxyzms</string>
    <key>ProgramArguments</key>
    <array>
        <string>/Apps/A&amp;B.app/Contents/MacOS/proxyzms</string>
    </array>
    <key>RunAtLoad</key>
    <true/>
</dict>
</plist>
"#;
    assert_eq!(p, expected);
}

#[test]
fn run_value_quotes_the_path() {
    assert_eq!(run_value("C:\\Program Files\\ProxyZms\\proxyzms.exe"), "\"C:\\Program Files\\ProxyZms\\proxyzms.exe\"");
}

#[test]
fn registry_theme_output() {
    let dark = "\r\nHKEY_CURRENT_USER\\Software\\Microsoft\\Windows\\CurrentVersion\\Themes\\Personalize\r\n    AppsUseLightTheme    REG_DWORD    0x0\r\n\r\n";
    let light = "\r\nHKEY_CURRENT_USER\\...\\Personalize\r\n    AppsUseLightTheme    REG_DWORD    0x1\r\n\r\n";
    assert!(reg_query_is_dark(dark));
    assert!(!reg_query_is_dark(light));
    assert!(!reg_query_is_dark(""));
    assert!(!reg_query_is_dark("   "));
    assert!(reg_query_is_dark("0x0"));
    assert!(!reg_query_is_dark("10x0"));
}

#[test]
fn default_app_config() {
    let c = AppConfig::default();
    assert_eq!(c.controller_url, "http://127.0.0.1:9091");
    assert!(c.mihomo_path.is_empty());
    assert!(c.work_dir.is_empty());
    assert!(c.secret.is_empty());
    assert!(c.subscription_url.is_empty());
}

#[test]
fn logo_data_uri() {
    assert_eq!(png_data_uri(b""), "data:image/png;base64,");
    assert_eq!(png_data_uri(b"abc"), "data:image/png;base64,YWJj");
    assert_eq!(png_data_uri(&[0x89, b'P', b'N', b'G']), "data:image/png;base64,iVBORw==");
}

#[test]
fn start_at_login_on_unsupported_systems() {
    assert!(!is_enabled_on("linux", true));
    assert!(!is_enabled_on("linux", false));
    assert!(is_enabled_on("macos", true));
    assert!(!is_enabled_on("windows", false));
    assert_eq!(may_switch("linux"), Err("当前平台暂不支持开机自启动".to_string()));
    assert_eq!(may_switch("macos"), Ok(()));
    assert_eq!(may_switch("windows"), Ok(()));
}
