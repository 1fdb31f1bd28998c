use mallard_metrics::queries::{
    breakdown_sql, build_sequence_count_sql, build_sequence_match_sql, compute_core_metrics,
    flow_sql, funnel_sql, parse_bool_array, retention_sql, timeseries_sql, Dimension, Granularity,
};

#[test]
fn test_build_sequence_match_sql() {
    let sql = build_sequence_match_sql(
        "(?1).*(?t<=3600)(?2)",
        &["pathname = '/pricing'", "event_name = 'signup'"],
    );
    assert!(sql.contains("sequence_match("));
    assert!(sql.contains("pathname = '/pricing'"));
    assert!(sql.contains("event_name = 'signup'"));
}

#[test]
fn test_build_sequence_count_sql() {
    let sql =
        build_sequence_count_sql("(?1).*(?2)", &["event_name = 'view'", "event_name = 'purchase'"]);
    assert!(sql.contains("sequence_count("));
    assert!(sql.contains("match_count"));
}

#[test]
fn test_parse_bool_array() {
    assert_eq!(parse_bool_array("[true, false, true]"), vec![true, false, true]);
    assert_eq!(parse_bool_array("[true]"), vec![true]);
    assert_eq!(parse_bool_array("[]"), Vec::<bool>::new());
}

#[test]
fn test_dimension_column_names() {
    assert_eq!(Dimension::Page.column_name(), "pathname");
    assert_eq!(Dimension::ReferrerSource.column_name(), "referrer_source");
    assert_eq!(Dimension::CountryCode.column_name(), "country_code");
    assert_eq!(Dimension::Browser.column_name(), "browser");
    assert_eq!(Dimension::Os.column_name(), "os");
    assert_eq!(Dimension::DeviceType.column_name(), "device_type");
}

#[test]
fn test_granularity_units() {
    assert_eq!(Granularity::Hour.trunc_unit(), "hour");
    assert_eq!(Granularity::Day.trunc_unit(), "day");
    assert_eq!(Granularity::Hour.format_str(), "%Y-%m-%d %H:00");
    assert_eq!(Granularity::Day.format_str(), "%Y-%m-%d");
}

#[test]
fn test_breakdown_sql_uses_column() {
    let sql = breakdown_sql(Dimension::Browser);
    assert!(sql.starts_with("SELECT COALESCE(browser, '(unknown)')"));
    assert!(sql.contains("FROM events_all"));
    assert!(sql.contains("ORDER BY visitors DESC"));
}

#[test]
fn test_timeseries_sql_granularity() {
    let sql = timeseries_sql(Granularity::Hour);
    assert!(sql.contains("DATE_TRUNC('hour', timestamp)"));
    assert!(sql.contains("'%Y-%m-%d %H:00'"));
}

#[test]
fn test_funnel_sql_joins_steps() {
    let sql = funnel_sql("1 day", &["pathname = '/'", "event_name = 'signup'"]);
    assert!(sql.contains("window_funnel(INTERVAL '1 day'"));
    assert!(sql.contains("pathname = '/', event_name = 'signup'"));
}

#[test]
fn test_flow_sql_escapes_page() {
    let sql = flow_sql("/it's-a-page");
    assert!(sql.contains("pathname = '/it''s-a-page'"));
    assert!(sql.contains("sequence_next_node("));
    assert!(sql.contains("LIMIT 10"));
}

#[test]
fn test_retention_sql_week_conditions() {
    let sql = retention_sql(2);
    assert!(sql.contains("INTERVAL '0 weeks'"));
    assert!(sql.contains("INTERVAL '1 weeks'"));
    assert!(!sql.contains("INTERVAL '2 weeks'"));
    assert!(sql.contains("retention("));
}

#[test]
fn test_core_metrics_pages_per_visit() {
    // Three pageviews from two distinct visitors: one and a half pages per
    // visit, carried in thousandths.
    let m = compute_core_metrics(2, 3, 0);
    assert_eq!(m.unique_visitors, 2);
    assert_eq!(m.total_pageviews, 3);
    assert_eq!(m.pages_per_visit_milli, 1500);
}

#[test]
fn test_compute_core_metrics_empty() {
    let m = compute_core_metrics(0, 0, 0);
    assert_eq!(m.unique_visitors, 0);
    assert_eq!(m.total_pageviews, 0);
    assert_eq!(m.pages_per_visit_milli, 0);
}
