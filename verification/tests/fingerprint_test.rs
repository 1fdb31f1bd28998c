use mallard_metrics::config::Config;
use mallard_metrics::dates::{format_date, parse_date, Date};
use mallard_metrics::fingerprint::{daily_salt, generate_visitor_id};

#[test]
fn test_deterministic_visitor_id() {
    let id1 = generate_visitor_id("192.168.1.1", "Mozilla/5.0", "salt-2024-01-15");
    let id2 = generate_visitor_id("192.168.1.1", "Mozilla/5.0", "salt-2024-01-15");
    assert_eq!(id1, id2, "Same inputs must produce same visitor ID");
}

#[test]
fn test_different_ip_different_id() {
    let id1 = generate_visitor_id("192.168.1.1", "Mozilla/5.0", "salt");
    let id2 = generate_visitor_id("192.168.1.2", "Mozilla/5.0", "salt");
    assert_ne!(id1, id2);
}

#[test]
fn test_different_ua_different_id() {
    let id1 = generate_visitor_id("192.168.1.1", "Mozilla/5.0", "salt");
    let id2 = generate_visitor_id("192.168.1.1", "Chrome/120.0", "salt");
    assert_ne!(id1, id2);
}

#[test]
fn test_different_salt_different_id() {
    let id1 = generate_visitor_id("192.168.1.1", "Mozilla/5.0", "salt-day1");
    let id2 = generate_visitor_id("192.168.1.1", "Mozilla/5.0", "salt-day2");
    assert_ne!(id1, id2, "Different daily salts must produce different IDs");
}

#[test]
fn test_visitor_id_is_hex_encoded() {
    let id = generate_visitor_id("1.2.3.4", "UA", "salt");
    assert_eq!(id.len(), 64, "SHA-256 hex output is 64 chars");
    assert!(id.chars().all(|c| c.is_ascii_hexdigit()));
}

#[test]
fn test_empty_inputs() {
    let id = generate_visitor_id("", "", "");
    assert_eq!(id.len(), 64);
}

#[test]
fn test_daily_salt_deterministic() {
    let date = Date { year: 2024, month: 1, day: 15 };
    let s1 = daily_salt("SECRET-REDACTED", &date);
    let s2 = daily_salt("SECRET-REDACTED", &date);
    assert_eq!(s1, s2);
}

#[test]
fn test_daily_salt_changes_by_date() {
    let d1 = Date { year: 2024, month: 1, day: 15 };
    let d2 = Date { year: 2024, month: 1, day: 16 };
    let s1 = daily_salt("SECRET-REDACTED", &d1);
    let s2 = daily_salt("SECRET-REDACTED", &d2);
    assert_ne!(s1, s2);
}

#[test]
fn test_daily_salt_changes_by_secret() {
    let date = Date { year: 2024, month: 1, day: 15 };
    let s1 = daily_salt("secret1", &date);
    let s2 = daily_salt("secret2", &date);
    assert_ne!(s1, s2);
}

#[test]
fn test_daily_salt_is_hex() {
    let date = Date { year: 2024, month: 1, day: 15 };
    let s = daily_salt("SECRET-REDACTED", &date);
    assert_eq!(s.len(), 64);
    assert!(s.chars().all(|c| c.is_ascii_hexdigit()));
}

// --- Dates ---

#[test]
fn test_format_date_padded() {
    assert_eq!(format_date(&Date { year: 2024, month: 1, day: 5 }), "2024-01-05");
    assert_eq!(format_date(&Date { year: 987, month: 12, day: 31 }), "0987-12-31");
}

#[test]
fn test_parse_date_round_trip() {
    let chars: Vec<char> = "2024-02-29".chars().collect();
    let d = parse_date(&chars).unwrap();
    assert_eq!(d, Date { year: 2024, month: 2, day: 29 });
    assert_eq!(format_date(&d), "2024-02-29");
}

#[test]
fn test_parse_date_rejects_invalid() {
    let bad: Vec<char> = "2023-02-29".chars().collect();
    assert!(parse_date(&bad).is_none());
    let shape: Vec<char> = "2023/02/01".chars().collect();
    assert!(parse_date(&shape).is_none());
    let short: Vec<char> = "2023-2-1".chars().collect();
    assert!(parse_date(&short).is_none());
}

// --- Config ---

#[test]
fn test_default_config() {
    let config = Config::default();
    assert_eq!(config.host, "0.0.0.0");
    assert_eq!(config.port, 8000);
    assert_eq!(config.data_dir, "data");
    assert_eq!(config.flush_event_count, 1000);
    assert_eq!(config.flush_interval_secs, 60);
    assert!(config.site_ids.is_empty());
    assert!(config.geoip_db_path.is_none());
    assert!(config.dashboard_origin.is_none());
    assert!(config.filter_bots);
    assert_eq!(config.retention_days, 0);
    assert_eq!(config.session_ttl_secs, 86400);
    assert_eq!(config.shutdown_timeout_secs, 30);
    assert_eq!(config.rate_limit_per_site, 0);
    assert_eq!(config.cache_ttl_secs, 60);
}

#[test]
fn test_events_dir() {
    let config = Config { data_dir: "/var/mallard".to_string(), ..Config::default() };
    assert_eq!(config.events_dir(), "/var/mallard/events");
}
