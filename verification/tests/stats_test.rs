use mallard_metrics::errors::ApiError;
use mallard_metrics::params::{
    escape_csv_field, is_safe_interval, parse_funnel_step, validate_site_id, ExportParams,
    StatsParams,
};

fn stats_params(period: &str, start: Option<&str>, end: Option<&str>) -> StatsParams {
    StatsParams {
        site_id: "test.com".to_string(),
        period: period.to_string(),
        start_date: start.map(|s| s.to_string()),
        end_date: end.map(|s| s.to_string()),
    }
}

#[test]
fn test_date_range_7d() {
    let params = stats_params("7d", None, None);
    let (start, end) = params.date_range().unwrap();
    assert!(!start.is_empty());
    assert!(!end.is_empty());
}

#[test]
fn test_date_range_custom() {
    let params = stats_params("custom", Some("2024-01-01"), Some("2024-02-01"));
    let (start, end) = params.date_range().unwrap();
    assert_eq!(start, "2024-01-01");
    assert_eq!(end, "2024-02-01");
}

#[test]
fn test_date_range_invalid_period() {
    let params = stats_params("invalid", None, None);
    assert!(params.date_range().is_err());
}

#[test]
fn test_date_range_all_periods() {
    for period in &["day", "today", "7d", "30d", "90d"] {
        let params = stats_params(period, None, None);
        assert!(params.date_range().is_ok(), "Period '{period}' should be valid");
    }
}

#[test]
fn test_date_range_at_fixed_day() {
    let params = stats_params("7d", None, None);
    let today = mallard_metrics::dates::Date { year: 2024, month: 1, day: 15 };
    let (start, end) = params.date_range_at(today).unwrap();
    assert_eq!(start, "2024-01-08");
    assert_eq!(end, "2024-01-16");
}

#[test]
fn test_parse_funnel_step_page() {
    let result = parse_funnel_step("page:/pricing").unwrap();
    assert_eq!(result, "pathname = '/pricing'");
}

#[test]
fn test_parse_funnel_step_event() {
    let result = parse_funnel_step("event:signup").unwrap();
    assert_eq!(result, "event_name = 'signup'");
}

#[test]
fn test_parse_funnel_step_escapes_quotes() {
    let result = parse_funnel_step("page:/it's").unwrap();
    assert_eq!(result, "pathname = '/it''s'");
}

#[test]
fn test_parse_funnel_step_invalid_format() {
    assert!(parse_funnel_step("invalid").is_err());
    assert!(parse_funnel_step("sql:DROP TABLE").is_err());
}

#[test]
fn test_is_safe_interval_valid() {
    assert!(is_safe_interval("1 day"));
    assert!(is_safe_interval("2 hours"));
    assert!(is_safe_interval("30 minutes"));
    assert!(is_safe_interval("7 days"));
}

#[test]
fn test_is_safe_interval_invalid() {
    assert!(!is_safe_interval("1"));
    assert!(!is_safe_interval("day"));
    assert!(!is_safe_interval("0 days"));
    assert!(!is_safe_interval("1 day; DROP TABLE"));
    assert!(!is_safe_interval("999 days"));
}

#[test]
fn test_validate_site_id_valid() {
    assert!(validate_site_id("example.com").is_ok());
    assert!(validate_site_id("my-site.co.uk").is_ok());
    assert!(validate_site_id("localhost:8080").is_ok());
    assert!(validate_site_id("my_analytics_site").is_ok());
}

#[test]
fn test_validate_site_id_empty() {
    assert!(validate_site_id("").is_err());
}

#[test]
fn test_validate_site_id_too_long() {
    let long = "a".repeat(257);
    assert!(validate_site_id(&long).is_err());
}

#[test]
fn test_validate_site_id_invalid_chars() {
    assert!(validate_site_id("example.com/path").is_err());
    assert!(validate_site_id("site id with spaces").is_err());
    assert!(validate_site_id("site\x00null").is_err());
}

#[test]
fn test_escape_csv_field_plain() {
    assert_eq!(escape_csv_field("/about"), "\"/about\"");
}

#[test]
fn test_escape_csv_field_with_quotes() {
    assert_eq!(escape_csv_field("it's \"great\""), "\"it's \"\"great\"\"\"");
}

#[test]
fn test_escape_csv_field_formula_injection() {
    // Fields starting with formula characters are prefixed with a single quote.
    assert_eq!(escape_csv_field("=CMD|'/c calc'"), "\"'=CMD|'/c calc'\"");
    assert_eq!(escape_csv_field("+1+2"), "\"'+1+2\"");
    assert_eq!(escape_csv_field("-1-2"), "\"'-1-2\"");
    assert_eq!(escape_csv_field("@SUM(A1)"), "\"'@SUM(A1)\"");
}

fn export_params(period: &str, start: Option<&str>, end: Option<&str>, format: &str) -> ExportParams {
    ExportParams {
        site_id: "test.com".to_string(),
        period: period.to_string(),
        start_date: start.map(|s| s.to_string()),
        end_date: end.map(|s| s.to_string()),
        format: format.to_string(),
    }
}

#[test]
fn test_export_invalid_format() {
    let params = export_params("30d", None, None, "xml");
    let date_range = params.date_range();
    assert!(date_range.is_ok());
    // The format validation happens in the handler, so we test the validator indirectly.
    assert_ne!(params.format, "csv");
    assert_ne!(params.format, "json");
}

#[test]
fn test_export_date_range_too_long_rejected() {
    let params = export_params("30d", Some("2000-01-01"), Some("2030-01-01"), "csv");
    let err = params.date_range().unwrap_err();
    assert!(
        matches!(err, ApiError::BadRequest(_)),
        "Exceeding 366 days must return BadRequest"
    );
}

#[test]
fn test_export_date_range_within_limit_allowed() {
    let params = export_params("30d", Some("2024-01-01"), Some("2024-06-30"), "csv");
    assert!(params.date_range().is_ok(), "Range under 366 days must be accepted");
}

#[test]
fn test_export_date_range_end_before_start_rejected() {
    let params = export_params("30d", Some("2024-06-30"), Some("2024-01-01"), "csv");
    assert!(params.date_range().is_err(), "end_date before start_date must be rejected");
}

#[test]
fn test_export_date_range_invalid_format_rejected() {
    let params = export_params("30d", Some("not-a-date"), Some("2024-01-01"), "csv");
    assert!(params.date_range().is_err(), "Invalid date format must return an error");
}

#[test]
fn test_export_period_based_no_range_check() {
    // Period-based export (no explicit dates) must bypass the range check
    // and use the normal period resolution instead.
    let params = export_params("90d", None, None, "csv");
    assert!(
        params.date_range().is_ok(),
        "Period-based export must not be rejected by the date-range guard"
    );
}

#[test]
fn test_api_error_status_codes() {
    assert_eq!(ApiError::BadRequest("x".to_string()).status_code(), 400);
    assert_eq!(ApiError::Unauthorized("x".to_string()).status_code(), 401);
    assert_eq!(ApiError::NotFound("x".to_string()).status_code(), 404);
    assert_eq!(ApiError::Internal("x".to_string()).status_code(), 500);
    assert_eq!(ApiError::Database("x".to_string()).status_code(), 500);
}

#[test]
fn test_api_error_database_message_hidden() {
    let err = ApiError::Database("engine exploded at byte 5".to_string());
    assert_eq!(err.message(), "Internal server error");
}
