use proxyzms::ble_lock::notifier::{notify_outcome, notify_target};

#[test]
fn empty_url_skips_the_notification() {
    assert_eq!(notify_target(""), None);
    assert_eq!(notify_target("  \t\n"), None);
}

#[test]
fn url_is_trimmed_before_the_request() {
    assert_eq!(
        notify_target("  https://api.day.app/KEY/锁屏了 \n"),
        Some("https://api.day.app/KEY/锁屏了".to_string())
    );
}

#[test]
fn only_2xx_counts_as_delivered() {
    assert_eq!(notify_outcome(200), Ok(()));
    assert_eq!(notify_outcome(204), Ok(()));
    assert_eq!(notify_outcome(299), Ok(()));
    assert_eq!(notify_outcome(199), Err("推送返回 HTTP 199".to_string()));
    assert_eq!(notify_outcome(404), Err("推送返回 HTTP 404".to_string()));
    assert_eq!(notify_outcome(503), Err("推送返回 HTTP 503".to_string()));
    assert_eq!(notify_outcome(0), Err("推送返回 HTTP 0".to_string()));
}
