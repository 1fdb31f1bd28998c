use mallard_metrics::buffer::EventBuffer;
use mallard_metrics::cache::QueryCache;
use mallard_metrics::dates::Date;
use mallard_metrics::ingest::{Event, Timestamp};
use mallard_metrics::lockout::LoginAttemptTracker;
use mallard_metrics::ratelimit::RateLimiter;

fn make_test_event(site_id: &str, pathname: &str) -> Event {
    Event {
        site_id: site_id.to_string(),
        visitor_id: "test-visitor".to_string(),
        timestamp: Timestamp { date: Date { year: 2024, month: 1, day: 15 }, secs: 36000 },
        event_name: "pageview".to_string(),
        pathname: pathname.to_string(),
        hostname: None,
        referrer: None,
        referrer_source: None,
        utm_source: None,
        utm_medium: None,
        utm_campaign: None,
        utm_content: None,
        utm_term: None,
        browser: None,
        browser_version: None,
        os: None,
        os_version: None,
        device_type: None,
        screen_size: None,
        country_code: None,
        region: None,
        city: None,
        props: None,
        revenue_milli: None,
        revenue_currency: None,
    }
}

#[test]
fn test_push_single_event() {
    let mut buffer = EventBuffer::new(100);
    let flush_due = buffer.push(make_test_event("example.com", "/"));
    assert!(!flush_due, "Should not flush below threshold");
    assert_eq!(buffer.len(), 1);
}

#[test]
fn test_push_triggers_flush_at_threshold() {
    let mut buffer = EventBuffer::new(3);
    assert!(!buffer.push(make_test_event("example.com", "/")));
    assert!(!buffer.push(make_test_event("example.com", "/about")));
    let flush_due = buffer.push(make_test_event("example.com", "/contact"));
    assert!(flush_due, "Should flush at threshold");
    let drained = buffer.begin_flush();
    assert_eq!(drained.len(), 3);
    assert!(buffer.is_empty(), "Buffer should be empty after flush");
}

#[test]
fn test_flush_empty_buffer() {
    let mut buffer = EventBuffer::new(100);
    let drained = buffer.begin_flush();
    assert_eq!(drained.len(), 0);
}

#[test]
fn test_buffer_len_and_is_empty() {
    let mut buffer = EventBuffer::new(100);
    assert!(buffer.is_empty());
    assert_eq!(buffer.len(), 0);
    buffer.push(make_test_event("example.com", "/"));
    assert!(!buffer.is_empty());
    assert_eq!(buffer.len(), 1);
}

#[test]
fn test_flush_failure_preserves_events() {
    // A failed flush restores every drained event; the buffer length equals
    // the pre-flush length.
    let mut buffer = EventBuffer::new(100);
    buffer.push(make_test_event("example.com", "/"));
    buffer.push(make_test_event("example.com", "/about"));
    assert_eq!(buffer.len(), 2);
    let drained = buffer.begin_flush();
    assert!(buffer.is_empty());
    buffer.restore_after_failure(drained);
    assert_eq!(buffer.len(), 2, "events must be preserved in the buffer after a failed flush");
}

#[test]
fn test_flush_failure_restores_in_front_of_new_pushes() {
    // Events pushed during a failed flush end up behind the restored ones,
    // preserving the original order.
    let mut buffer = EventBuffer::new(100);
    buffer.push(make_test_event("a.com", "/1"));
    buffer.push(make_test_event("a.com", "/2"));
    let drained = buffer.begin_flush();
    buffer.push(make_test_event("a.com", "/3"));
    buffer.restore_after_failure(drained);
    assert_eq!(buffer.len(), 3);
    assert_eq!(buffer.events[0].pathname, "/1");
    assert_eq!(buffer.events[1].pathname, "/2");
    assert_eq!(buffer.events[2].pathname, "/3");
}

#[test]
fn test_multiple_sites_in_buffer() {
    let mut buffer = EventBuffer::new(100);
    buffer.push(make_test_event("site-a.com", "/"));
    buffer.push(make_test_event("site-b.com", "/"));
    let drained = buffer.begin_flush();
    assert_eq!(drained.len(), 2);
    assert_eq!(drained[0].site_id, "site-a.com");
    assert_eq!(drained[1].site_id, "site-b.com");
}

// --- Rate limiter ---

#[test]
fn test_disabled_rate_limiter() {
    let mut rl = RateLimiter::new(0);
    assert!(rl.check("example.com"));
    assert!(rl.check("example.com"));
}

#[test]
fn test_allows_within_limit() {
    let mut rl = RateLimiter::new(10);
    for _ in 0..10 {
        assert!(rl.check_at("example.com", 5000));
    }
}

#[test]
fn test_blocks_over_limit() {
    let mut rl = RateLimiter::new(2);
    assert!(rl.check_at("site.com", 5000));
    assert!(rl.check_at("site.com", 5000));
    // Third request should be blocked (only 2 tokens per second).
    assert!(!rl.check_at("site.com", 5000));
}

#[test]
fn test_separate_site_buckets() {
    let mut rl = RateLimiter::new(1);
    assert!(rl.check_at("site-a.com", 5000));
    assert!(rl.check_at("site-b.com", 5000));
    // site-a should be blocked, site-b should be too.
    assert!(!rl.check_at("site-a.com", 5000));
    assert!(!rl.check_at("site-b.com", 5000));
}

#[test]
fn test_rate_limiter_refills_over_time() {
    // After exhaustion, enough elapsed time to earn one token admits one
    // more request.
    let mut rl = RateLimiter::new(2);
    assert!(rl.check_at("s.com", 5000));
    assert!(rl.check_at("s.com", 5000));
    assert!(!rl.check_at("s.com", 5000));
    // 500 ms at 2 tokens/sec earns one token.
    assert!(rl.check_at("s.com", 5500));
    assert!(!rl.check_at("s.com", 5500));
}

#[test]
fn test_cleanup_stale_buckets() {
    let mut rl = RateLimiter::new(10);
    rl.check_at("active.com", 1_000_000);
    rl.check_at("stale.com", 1_000);
    rl.cleanup_at(1_000_500);
    // The recent bucket survives cleanup, the stale one is gone.
    assert_eq!(rl.buckets.len(), 1);
    assert_eq!(rl.buckets[0].0, "active.com");
}

// --- Login lockout ---

#[test]
fn test_login_tracker_disabled_when_max_zero() {
    let mut tracker = LoginAttemptTracker::new(0, 300);
    for _ in 0..100 {
        assert!(tracker.check("1.2.3.4"));
        tracker.record_failure("1.2.3.4");
    }
}

#[test]
fn test_login_tracker_allows_below_limit() {
    let mut tracker = LoginAttemptTracker::new(5, 300);
    for _ in 0..4 {
        assert!(tracker.check("1.2.3.4"));
        tracker.record_failure("1.2.3.4");
    }
    assert!(tracker.check("1.2.3.4"));
}

#[test]
fn test_login_tracker_lockout_after_max_attempts() {
    let mut tracker = LoginAttemptTracker::new(3, 300);
    tracker.record_failure_at("10.0.0.1", 1000);
    tracker.record_failure_at("10.0.0.1", 1000);
    tracker.record_failure_at("10.0.0.1", 1000);
    assert!(!tracker.check_at("10.0.0.1", 2000), "IP should be locked out after 3 failures");
}

#[test]
fn test_login_tracker_success_clears_failures() {
    let mut tracker = LoginAttemptTracker::new(3, 300);
    tracker.record_failure("10.0.0.2");
    tracker.record_failure("10.0.0.2");
    tracker.record_success("10.0.0.2");
    assert!(tracker.check("10.0.0.2"));
    assert_eq!(tracker.attempts.len(), 0);
}

#[test]
fn test_login_tracker_independent_ips() {
    let mut tracker = LoginAttemptTracker::new(2, 300);
    tracker.record_failure_at("192.168.1.1", 1000);
    tracker.record_failure_at("192.168.1.1", 1000);
    assert!(!tracker.check_at("192.168.1.1", 1500));
    assert!(tracker.check_at("192.168.1.2", 1500));
}

#[test]
fn test_remaining_lockout_secs_returns_positive_when_locked() {
    let mut tracker = LoginAttemptTracker::new(1, 300);
    tracker.record_failure_at("10.0.0.7", 1000);
    let remaining = tracker.remaining_lockout_secs_at("10.0.0.7", 2000);
    assert!(remaining.is_some(), "remaining_lockout_secs should return Some when locked out");
    let secs = remaining.unwrap();
    assert!((1..=300).contains(&secs), "remaining secs {secs} out of range");
}

#[test]
fn test_remaining_lockout_secs_none_when_not_locked() {
    let tracker = LoginAttemptTracker::new(3, 300);
    assert!(tracker.remaining_lockout_secs("10.0.0.8").is_none());
}

#[test]
fn test_remaining_lockout_secs_none_when_disabled() {
    let tracker = LoginAttemptTracker::new(0, 300);
    assert!(tracker.remaining_lockout_secs("10.0.0.9").is_none());
}

#[test]
fn test_lockout_expires() {
    let mut tracker = LoginAttemptTracker::new(1, 10);
    tracker.record_failure_at("10.0.0.3", 1000);
    assert!(!tracker.check_at("10.0.0.3", 5000));
    // After the 10-second lockout has elapsed, the IP is allowed again.
    assert!(tracker.check_at("10.0.0.3", 12000));
}

// --- Query cache ---

#[test]
fn test_cache_insert_and_get() {
    let mut cache = QueryCache::new(60);
    cache.insert("key1", "value1".to_string());
    assert_eq!(cache.get("key1"), Some("value1".to_string()));
}

#[test]
fn test_cache_miss() {
    let cache = QueryCache::new(60);
    assert_eq!(cache.get("nonexistent"), None);
}

#[test]
fn test_cache_disabled_with_zero_ttl() {
    let mut cache = QueryCache::new(0);
    cache.insert("key1", "value1".to_string());
    assert_eq!(cache.get("key1"), None);
    assert_eq!(cache.len(), 0);
}

#[test]
fn test_cache_len() {
    let mut cache = QueryCache::new(60);
    assert_eq!(cache.len(), 0);
    cache.insert("a", "1".to_string());
    cache.insert("b", "2".to_string());
    assert_eq!(cache.len(), 2);
}

#[test]
fn test_cache_overwrite() {
    let mut cache = QueryCache::new(60);
    cache.insert("key", "old".to_string());
    cache.insert("key", "new".to_string());
    assert_eq!(cache.get("key"), Some("new".to_string()));
    assert_eq!(cache.len(), 1);
}

#[test]
fn test_cache_expiry() {
    let mut cache = QueryCache::new(60);
    cache.insert_at("key", "value".to_string(), 1_000);
    assert_eq!(cache.get_at("key", 30_000), Some("value".to_string()));
    // Beyond the 60-second TTL the entry no longer answers.
    assert_eq!(cache.get_at("key", 62_000), None);
}

#[test]
fn test_cache_cleanup() {
    let mut cache = QueryCache::new(60);
    cache.insert_at("old", "1".to_string(), 1_000);
    cache.insert_at("new", "2".to_string(), 50_000);
    cache.cleanup_expired_at(70_000);
    assert_eq!(cache.len(), 1);
    assert_eq!(cache.get_at("new", 70_000), Some("2".to_string()));
}
