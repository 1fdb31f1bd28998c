use mallard_metrics::auth::{
    anonymize_ip, build_session_cookie, constant_time_eq, generate_api_key,
    generate_session_token, hash_api_key, hash_password, validate_csrf_origin, validate_origin,
    verify_password, ApiKeyScope, ApiKeyStore, SessionStore,
};

#[test]
fn test_validate_origin_no_restrictions() {
    assert!(validate_origin(Some("https://anything.com"), &[]));
}

#[test]
fn test_validate_origin_allowed() {
    let sites = vec!["example.com".to_string()];
    assert!(validate_origin(Some("https://example.com"), &sites));
}

#[test]
fn test_validate_origin_not_allowed() {
    let sites = vec!["example.com".to_string()];
    assert!(!validate_origin(Some("https://evil.com"), &sites));
}

#[test]
fn test_validate_origin_no_header() {
    let sites = vec!["example.com".to_string()];
    assert!(validate_origin(None, &sites));
}

#[test]
fn test_validate_origin_http() {
    let sites = vec!["example.com".to_string()];
    assert!(validate_origin(Some("http://example.com"), &sites));
}

#[test]
fn test_validate_origin_with_port() {
    let sites = vec!["example.com".to_string()];
    assert!(validate_origin(Some("http://example.com:3000"), &sites));
}

#[test]
fn test_validate_origin_prefix_bypass_rejected() {
    // "example.com.evil.com" must NOT match the allowed site "example.com".
    let sites = vec!["example.com".to_string()];
    assert!(!validate_origin(Some("https://example.com.evil.com"), &sites));
}

#[test]
fn test_validate_origin_prefix_subdomain_bypass_rejected() {
    // "example.com-other.io" must NOT match "example.com".
    let sites = vec!["example.com".to_string()];
    assert!(!validate_origin(Some("https://example.com-other.io"), &sites));
}

#[test]
fn test_hash_password_and_verify() {
    let password = "secure-password-123";
    let hash = hash_password(password).unwrap();
    assert!(verify_password(password, &hash));
}

#[test]
fn test_verify_password_wrong() {
    let hash = hash_password("correct-password").unwrap();
    assert!(!verify_password("wrong-password", &hash));
}

#[test]
fn test_hash_password_unique_salts() {
    let h1 = hash_password("same-password").unwrap();
    let h2 = hash_password("same-password").unwrap();
    assert_ne!(h1, h2, "Different salts should produce different hashes");
    assert!(verify_password("same-password", &h1));
    assert!(verify_password("same-password", &h2));
}

#[test]
fn test_verify_password_invalid_hash() {
    assert!(!verify_password("any", "not-a-valid-hash"));
}

#[test]
fn test_session_create_and_validate() {
    let mut store = SessionStore::new(3600);
    let token = store.create_session("admin");
    assert!(store.validate_session(&token).is_some());
    assert_eq!(store.validate_session(&token).unwrap(), "admin");
}

#[test]
fn test_session_invalid_token() {
    let mut store = SessionStore::new(3600);
    assert!(store.validate_session("nonexistent-token").is_none());
}

#[test]
fn test_session_remove() {
    let mut store = SessionStore::new(3600);
    let token = store.create_session("admin");
    store.remove_session(&token);
    assert!(store.validate_session(&token).is_none());
}

#[test]
fn test_session_expiry() {
    // With an explicit clock: a zero-TTL session expires immediately.
    let mut store = SessionStore::new(0);
    let token = store.create_session_at("admin", 1000);
    assert!(store.validate_session_at(&token, 1010).is_none());
}

#[test]
fn test_generate_session_token_length() {
    let token = generate_session_token();
    assert_eq!(token.len(), 64); // 32 bytes = 64 hex chars
    assert!(token.chars().all(|c| c.is_ascii_hexdigit()));
}

#[test]
fn test_generate_api_key_format() {
    let key = generate_api_key();
    assert!(key.starts_with("mm_"));
    assert_eq!(key.len(), 67); // "mm_" + 64 hex chars
}

#[test]
fn test_hash_api_key_deterministic() {
    let h1 = hash_api_key("mm_abc123");
    let h2 = hash_api_key("mm_abc123");
    assert_eq!(h1, h2);
}

fn now_ts() -> mallard_metrics::ingest::Timestamp {
    mallard_metrics::ingest::Timestamp {
        date: mallard_metrics::dates::Date { year: 2024, month: 1, day: 15 },
        secs: 36000,
    }
}

#[test]
fn test_api_key_store_add_and_validate() {
    let mut store = ApiKeyStore::new();
    let key = generate_api_key();
    store.add_key("test-key", &key, ApiKeyScope::ReadOnly, now_ts());
    assert_eq!(store.validate_key(&key), Some(ApiKeyScope::ReadOnly));
}

#[test]
fn test_api_key_store_invalid_key() {
    let store = ApiKeyStore::new();
    assert!(store.validate_key("invalid-key").is_none());
}

#[test]
fn test_api_key_store_revoke() {
    let mut store = ApiKeyStore::new();
    let key = generate_api_key();
    let key_hash = store.add_key("test-key", &key, ApiKeyScope::Admin, now_ts());
    assert!(store.validate_key(&key).is_some());
    store.revoke_key(&key_hash);
    assert!(store.validate_key(&key).is_none());
}

#[test]
fn test_api_key_store_scope_distinction() {
    let mut store = ApiKeyStore::new();
    let readonly_key = generate_api_key();
    let admin_key = generate_api_key();
    store.add_key("read", &readonly_key, ApiKeyScope::ReadOnly, now_ts());
    store.add_key("admin", &admin_key, ApiKeyScope::Admin, now_ts());
    assert_eq!(store.validate_key(&readonly_key), Some(ApiKeyScope::ReadOnly));
    assert_eq!(store.validate_key(&admin_key), Some(ApiKeyScope::Admin));
}

#[test]
fn test_api_key_store_list() {
    let mut store = ApiKeyStore::new();
    let key = generate_api_key();
    store.add_key("my-key", &key, ApiKeyScope::ReadOnly, now_ts());
    let keys = store.list_keys();
    assert_eq!(keys.len(), 1);
    assert_eq!(keys[0].name, "my-key");
    assert!(!keys[0].revoked);
}

#[test]
fn test_session_cleanup_expired() {
    let mut store = SessionStore::new(0);
    store.create_session_at("user1", 1000);
    store.create_session_at("user2", 1000);
    store.cleanup_expired_at(2000);
    assert_eq!(store.sessions.len(), 0);
}

#[test]
fn test_session_cookie_includes_secure_for_https_origin() {
    let cookie = build_session_cookie(
        "token123",
        3600,
        Some(&"https://analytics.example.com".to_string()),
    );
    assert!(
        cookie.contains("; Secure"),
        "Cookie should include Secure flag for HTTPS origin"
    );
}

#[test]
fn test_session_cookie_omits_secure_for_http_origin() {
    let cookie = build_session_cookie("token123", 3600, Some(&"http://localhost:8000".to_string()));
    assert!(
        !cookie.contains("; Secure"),
        "Cookie must NOT include Secure flag for HTTP origin"
    );
}

#[test]
fn test_session_cookie_omits_secure_with_no_origin() {
    let cookie = build_session_cookie("token123", 3600, None);
    assert!(
        !cookie.contains("; Secure"),
        "Cookie must NOT include Secure flag when no origin is configured"
    );
}

#[test]
fn test_api_key_store_cleanup_revoked() {
    let mut store = ApiKeyStore::new();
    let key1 = generate_api_key();
    let key2 = generate_api_key();
    let hash1 = store.add_key("key1", &key1, ApiKeyScope::ReadOnly, now_ts());
    store.add_key("key2", &key2, ApiKeyScope::Admin, now_ts());
    store.revoke_key(&hash1);
    assert_eq!(store.list_keys().len(), 2);
    store.cleanup_revoked();
    let remaining = store.list_keys();
    assert_eq!(remaining.len(), 1);
    assert_eq!(remaining[0].name, "key2");
}

#[test]
fn test_csrf_validate_no_dashboard_origin_allows_all() {
    assert!(validate_csrf_origin(None, None, None));
}

#[test]
fn test_csrf_validate_matching_origin_allowed() {
    assert!(validate_csrf_origin(
        Some("https://analytics.example.com"),
        None,
        Some(&"https://analytics.example.com".to_string())
    ));
}

#[test]
fn test_csrf_validate_mismatching_origin_rejected() {
    assert!(!validate_csrf_origin(
        Some("https://evil.com"),
        None,
        Some(&"https://analytics.example.com".to_string())
    ));
}

#[test]
fn test_csrf_validate_no_origin_or_referer_allows() {
    // Server-side requests without Origin/Referer should be allowed.
    assert!(validate_csrf_origin(
        None,
        None,
        Some(&"https://analytics.example.com".to_string())
    ));
}

#[test]
fn test_anonymize_ip_v4() {
    assert_eq!(anonymize_ip("1.2.3.4"), "1.2.3.x");
    assert_eq!(anonymize_ip("192.168.1.100"), "192.168.1.x");
}

#[test]
fn test_anonymize_ip_v6() {
    let result = anonymize_ip("2001:db8::1");
    assert!(result.contains("..."));
}

#[test]
fn test_constant_time_eq_equal() {
    assert!(constant_time_eq(b"abcdef", b"abcdef"));
}

#[test]
fn test_constant_time_eq_not_equal() {
    assert!(!constant_time_eq(b"abcdef", b"abcdeg"));
}

#[test]
fn test_constant_time_eq_different_lengths() {
    assert!(!constant_time_eq(b"abc", b"abcdef"));
}

#[test]
fn test_constant_time_eq_empty() {
    assert!(constant_time_eq(b"", b""));
}

#[test]
fn test_constant_time_eq_mismatch_any_position() {
    // A mismatch at every single position is detected.
    let a = b"0123456789abcdef";
    for i in 0..a.len() {
        let mut b = *a;
        b[i] = b'!';
        assert!(!constant_time_eq(a, &b), "mismatch at {i} must be detected");
    }
}

#[test]
fn test_extract_session_token_from_cookie() {
    let token = mallard_metrics::auth::extract_session_token("other=1; mm_session=abc123; x=2");
    assert_eq!(token.as_deref(), Some("abc123"));
    assert!(mallard_metrics::auth::extract_session_token("other=1").is_none());
    assert!(mallard_metrics::auth::extract_session_token("mm_session=").is_none());
}

#[test]
fn test_bearer_key_of_header() {
    assert_eq!(
        mallard_metrics::auth::bearer_key_of("Bearer mm_abc").as_deref(),
        Some("mm_abc")
    );
    assert!(mallard_metrics::auth::bearer_key_of("Basic dXNlcg==").is_none());
}

#[test]
fn test_password_length_rule() {
    assert!(!mallard_metrics::auth::password_long_enough("short"));
    assert!(mallard_metrics::auth::password_long_enough("secure-password-123"));
    assert!(mallard_metrics::auth::password_long_enough("12345678"));
    assert!(!mallard_metrics::auth::password_long_enough("1234567"));
}
