use mallard_metrics::dates::Date;
use mallard_metrics::ingest::{
    classify_device, client_ip, extract_referrer_source, parse_utm_params, prepare_event,
    sanitize_pathname, sanitize_string, EventPayload, GeoInfo, Timestamp,
};

#[test]
fn test_extract_ip_from_x_forwarded_for() {
    assert_eq!(client_ip(Some("1.2.3.4, 5.6.7.8"), None), "1.2.3.4");
}

#[test]
fn test_extract_ip_from_x_real_ip() {
    assert_eq!(client_ip(None, Some("1.2.3.4")), "1.2.3.4");
}

#[test]
fn test_extract_ip_unknown() {
    assert_eq!(client_ip(None, None), "unknown");
}

#[test]
fn test_parse_utm_params() {
    let url = "https://example.com/page?utm_source=google&utm_medium=cpc&utm_campaign=winter&utm_content=banner&utm_term=analytics";
    let (source, medium, campaign, content, term) = parse_utm_params(url);
    assert_eq!(source.unwrap(), "google");
    assert_eq!(medium.unwrap(), "cpc");
    assert_eq!(campaign.unwrap(), "winter");
    assert_eq!(content.unwrap(), "banner");
    assert_eq!(term.unwrap(), "analytics");
}

#[test]
fn test_parse_utm_params_none() {
    let url = "https://example.com/page";
    let (source, medium, campaign, content, term) = parse_utm_params(url);
    assert!(source.is_none());
    assert!(medium.is_none());
    assert!(campaign.is_none());
    assert!(content.is_none());
    assert!(term.is_none());
}

#[test]
fn test_parse_utm_partial() {
    let url = "https://example.com/?utm_source=google";
    let (source, medium, _, _, _) = parse_utm_params(url);
    assert_eq!(source.unwrap(), "google");
    assert!(medium.is_none());
}

#[test]
fn test_extract_referrer_source_google() {
    assert_eq!(
        extract_referrer_source("https://www.google.com/search?q=test"),
        Some("Google".to_string())
    );
}

#[test]
fn test_extract_referrer_source_unknown() {
    assert_eq!(
        extract_referrer_source("https://myblog.com/post"),
        Some("myblog.com".to_string())
    );
}

#[test]
fn test_extract_referrer_source_empty() {
    assert_eq!(extract_referrer_source(""), None);
}

#[test]
fn test_classify_device_mobile() {
    assert_eq!(classify_device(375), "mobile");
}

#[test]
fn test_classify_device_tablet() {
    assert_eq!(classify_device(768), "tablet");
}

#[test]
fn test_classify_device_desktop() {
    assert_eq!(classify_device(1920), "desktop");
}

#[test]
fn test_sanitize_pathname() {
    assert_eq!(sanitize_pathname("https://example.com/about?ref=1#section"), "/about");
}

#[test]
fn test_sanitize_pathname_root() {
    assert_eq!(sanitize_pathname("https://example.com/"), "/");
}

#[test]
fn test_sanitize_pathname_deep() {
    assert_eq!(sanitize_pathname("https://example.com/blog/post/123"), "/blog/post/123");
}

#[test]
fn test_sanitize_string_truncate() {
    let long = "a".repeat(500);
    let result = sanitize_string(&long, 256);
    assert_eq!(result.len(), 256);
}

#[test]
fn test_sanitize_string_control_chars() {
    let input = "hello\x00world\x01test";
    assert_eq!(sanitize_string(input, 256), "helloworldtest");
}

#[test]
fn test_referrer_sources() {
    assert_eq!(extract_referrer_source("https://t.co/abc"), Some("Twitter".to_string()));
    assert_eq!(extract_referrer_source("https://www.facebook.com/"), Some("Facebook".to_string()));
    assert_eq!(extract_referrer_source("https://www.reddit.com/r/rust"), Some("Reddit".to_string()));
    assert_eq!(
        extract_referrer_source("https://github.com/user/repo"),
        Some("GitHub".to_string())
    );
    assert_eq!(
        extract_referrer_source("https://www.linkedin.com/feed"),
        Some("LinkedIn".to_string())
    );
    assert_eq!(
        extract_referrer_source("https://duckduckgo.com/?q=test"),
        Some("DuckDuckGo".to_string())
    );
}

#[test]
fn test_geoinfo_default() {
    let info = GeoInfo::default();
    assert!(info.country_code.is_none());
    assert!(info.region.is_none());
    assert!(info.city.is_none());
}

fn payload(domain: &str, name: &str, url: &str) -> EventPayload {
    EventPayload {
        domain: domain.to_string(),
        name: name.to_string(),
        url: url.to_string(),
        referrer: None,
        screen_width: None,
        props: None,
        revenue_milli: None,
        revenue_currency: None,
    }
}

fn ts() -> Timestamp {
    Timestamp { date: Date { year: 2024, month: 1, day: 15 }, secs: 36000 }
}

#[test]
fn test_prepare_event_basic() {
    // A valid payload with a desktop screen width becomes a buffered event
    // with a 64-hex visitor ID and the pathname extracted from the URL.
    let mut p = payload("example.com", "pageview", "https://example.com/");
    p.screen_width = Some(1920);
    let event = prepare_event(&p, "1.2.3.4", "Mozilla/5.0", "salt-2024-01-15", ts()).unwrap();
    assert_eq!(event.site_id, "example.com");
    assert_eq!(event.pathname, "/");
    assert_eq!(event.device_type.as_deref(), Some("desktop"));
    assert_eq!(event.visitor_id.len(), 64);
    assert!(event.visitor_id.chars().all(|c| c.is_ascii_hexdigit()));
    assert_eq!(event.screen_size.as_deref(), Some("1920"));
}

#[test]
fn test_prepare_event_rejects_empty_fields() {
    assert!(prepare_event(&payload("", "pageview", "/"), "", "", "s", ts()).is_err());
    assert!(prepare_event(&payload("example.com", "", "/"), "", "", "s", ts()).is_err());
    assert!(prepare_event(&payload("example.com", "pageview", ""), "", "", "s", ts()).is_err());
}

#[test]
fn test_prepare_event_rejects_long_url() {
    // A URL over 2048 bytes is rejected.
    let long_url = format!("https://example.com/{}", "a".repeat(3000));
    let p = payload("example.com", "pageview", &long_url);
    assert!(prepare_event(&p, "1.2.3.4", "UA", "salt", ts()).is_err());
}

#[test]
fn test_prepare_event_referrer_classified() {
    let mut p = payload("example.com", "pageview", "https://example.com/pricing");
    p.referrer = Some("https://www.google.com/search".to_string());
    let event = prepare_event(&p, "1.2.3.4", "UA", "salt", ts()).unwrap();
    assert_eq!(event.referrer_source.as_deref(), Some("Google"));
    assert_eq!(event.pathname, "/pricing");
}

#[test]
fn test_format_timestamp() {
    let t = Timestamp { date: Date { year: 2024, month: 1, day: 15 }, secs: 3661 };
    assert_eq!(mallard_metrics::ingest::format_timestamp(&t), "2024-01-15 01:01:01");
}
