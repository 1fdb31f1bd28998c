use mallard_metrics::useragent::parse_user_agent;

#[test]
fn test_parse_chrome_windows() {
    let ua = "Mozilla/5.0 (Windows NT 10.0; Win64; x64) AppleWebKit/537.36 (KHTML, like Gecko) Chrome/120.0.6099.130 Safari/537.36";
    let parsed = parse_user_agent(ua);
    assert_eq!(parsed.browser.as_deref(), Some("Chrome"));
    assert_eq!(parsed.browser_version.as_deref(), Some("120.0.6099.130"));
    assert_eq!(parsed.os.as_deref(), Some("Windows"));
    assert_eq!(parsed.os_version.as_deref(), Some("10.0"));
    assert!(!parsed.is_bot);
}

#[test]
fn test_parse_firefox_linux() {
    let ua = "Mozilla/5.0 (X11; Linux x86_64; rv:121.0) Gecko/20100101 Firefox/121.0";
    let parsed = parse_user_agent(ua);
    assert_eq!(parsed.browser.as_deref(), Some("Firefox"));
    assert_eq!(parsed.browser_version.as_deref(), Some("121.0"));
    assert_eq!(parsed.os.as_deref(), Some("Linux"));
    assert!(!parsed.is_bot);
}

#[test]
fn test_parse_safari_macos() {
    let ua = "Mozilla/5.0 (Macintosh; Intel Mac OS X 10_15_7) AppleWebKit/605.1.15 (KHTML, like Gecko) Version/17.2 Safari/605.1.15";
    let parsed = parse_user_agent(ua);
    assert_eq!(parsed.browser.as_deref(), Some("Safari"));
    assert_eq!(parsed.os.as_deref(), Some("macOS"));
    assert_eq!(parsed.os_version.as_deref(), Some("10.15.7"));
    assert!(!parsed.is_bot);
}

#[test]
fn test_parse_edge() {
    let ua = "Mozilla/5.0 (Windows NT 10.0; Win64; x64) AppleWebKit/537.36 (KHTML, like Gecko) Chrome/120.0.0.0 Safari/537.36 Edg/120.0.2210.91";
    let parsed = parse_user_agent(ua);
    assert_eq!(parsed.browser.as_deref(), Some("Edge"));
    assert_eq!(parsed.browser_version.as_deref(), Some("120.0.2210.91"));
    assert!(!parsed.is_bot);
}

#[test]
fn test_parse_android() {
    let ua = "Mozilla/5.0 (Linux; Android 14; Pixel 8) AppleWebKit/537.36 (KHTML, like Gecko) Chrome/120.0.6099.144 Mobile Safari/537.36";
    let parsed = parse_user_agent(ua);
    assert_eq!(parsed.browser.as_deref(), Some("Chrome"));
    assert_eq!(parsed.os.as_deref(), Some("Android"));
    assert_eq!(parsed.os_version.as_deref(), Some("14"));
    assert!(!parsed.is_bot);
}

#[test]
fn test_parse_iphone() {
    let ua = "Mozilla/5.0 (iPhone; CPU iPhone OS 17_2_1 like Mac OS X) AppleWebKit/605.1.15 (KHTML, like Gecko) Version/17.2 Mobile/15E148 Safari/604.1";
    let parsed = parse_user_agent(ua);
    assert_eq!(parsed.browser.as_deref(), Some("Safari"));
    assert_eq!(parsed.os.as_deref(), Some("iOS"));
    assert_eq!(parsed.os_version.as_deref(), Some("17.2.1"));
    assert!(!parsed.is_bot);
}

#[test]
fn test_parse_empty_ua() {
    let parsed = parse_user_agent("");
    assert!(parsed.browser.is_none());
    assert!(parsed.os.is_none());
    assert!(!parsed.is_bot);
}

#[test]
fn test_parse_unknown_ua() {
    let parsed = parse_user_agent("SomeRandom/1.0");
    assert!(parsed.browser.is_none());
    assert!(parsed.os.is_none());
    assert!(!parsed.is_bot);
}

#[test]
fn test_detect_googlebot() {
    let ua = "Mozilla/5.0 (compatible; Googlebot/2.1; +http://www.google.com/bot.html)";
    let parsed = parse_user_agent(ua);
    assert!(parsed.is_bot);
}

#[test]
fn test_detect_bingbot() {
    let ua = "Mozilla/5.0 (compatible; bingbot/2.0; +http://www.bing.com/bingbot.htm)";
    let parsed = parse_user_agent(ua);
    assert!(parsed.is_bot);
}

#[test]
fn test_detect_curl() {
    let parsed = parse_user_agent("curl/7.68.0");
    assert!(parsed.is_bot);
}

#[test]
fn test_detect_python_requests() {
    let parsed = parse_user_agent("python-requests/2.28.1");
    assert!(parsed.is_bot);
}

#[test]
fn test_detect_slackbot() {
    let parsed = parse_user_agent("Slackbot-LinkExpanding 1.0 (+https://api.slack.com/robots)");
    assert!(parsed.is_bot);
}

#[test]
fn test_detect_facebookbot() {
    let parsed =
        parse_user_agent("facebookexternalhit/1.1 (+http://www.facebook.com/externalhit_uatext.php)");
    assert!(parsed.is_bot);
}

#[test]
fn test_parse_samsung_internet() {
    let ua = "Mozilla/5.0 (Linux; Android 13; SM-S901B) AppleWebKit/537.36 (KHTML, like Gecko) SamsungBrowser/23.0 Chrome/115.0.0.0 Mobile Safari/537.36";
    let parsed = parse_user_agent(ua);
    assert_eq!(parsed.browser.as_deref(), Some("Samsung Internet"));
    assert_eq!(parsed.os.as_deref(), Some("Android"));
    assert!(!parsed.is_bot);
}

#[test]
fn test_parse_vivaldi() {
    let ua = "Mozilla/5.0 (Windows NT 10.0; Win64; x64) AppleWebKit/537.36 (KHTML, like Gecko) Chrome/120.0.0.0 Safari/537.36 Vivaldi/6.5.3206.55";
    let parsed = parse_user_agent(ua);
    assert_eq!(parsed.browser.as_deref(), Some("Vivaldi"));
    assert!(!parsed.is_bot);
}

#[test]
fn test_iphone_mac_os_x_edge_case() {
    // iPhone UA strings contain "Mac OS X"; the OS must be detected as iOS,
    // not macOS.
    let ua = "Mozilla/5.0 (iPhone; CPU iPhone OS 17_2_1 like Mac OS X) AppleWebKit/605.1.15";
    let parsed = parse_user_agent(ua);
    assert_eq!(parsed.os.as_deref(), Some("iOS"));
    assert_ne!(parsed.os.as_deref(), Some("macOS"));
}

#[test]
fn test_bot_substring_semantics() {
    // The deny-list matches substrings, so a legitimate name containing
    // "bot" is flagged too.
    let parsed = parse_user_agent("Robotics Inc. Catalogue Browser/1.0");
    assert!(parsed.is_bot);
}
