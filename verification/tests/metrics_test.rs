use mallard_metrics::buffer::group_by_partition;
use mallard_metrics::dates::Date;
use mallard_metrics::ingest::{Event, Timestamp};
use mallard_metrics::metrics::{
    breakdown, core_metrics_of, filter_events, timeseries, total_pageviews, unique_visitors,
};
use mallard_metrics::queries::{Dimension, Granularity};

fn event(site: &str, visitor: &str, day: u32, secs: u32, name: &str, pathname: &str) -> Event {
    Event {
        site_id: site.to_string(),
        visitor_id: visitor.to_string(),
        timestamp: Timestamp { date: Date { year: 2024, month: 1, day }, secs },
        event_name: name.to_string(),
        pathname: pathname.to_string(),
        hostname: None,
        referrer: None,
        referrer_source: None,
        utm_source: None,
        utm_medium: None,
        utm_campaign: None,
        utm_content: None,
        utm_term: None,
        browser: None,
        browser_version: None,
        os: None,
        os_version: None,
        device_type: None,
        screen_size: None,
        country_code: None,
        region: None,
        city: None,
        props: None,
        revenue_milli: None,
        revenue_currency: None,
    }
}

fn pageview(visitor: &str, timestamp_day: u32, hour: u32, pathname: &str) -> Event {
    event("test.com", visitor, timestamp_day, hour * 3600, "pageview", pathname)
}

fn in_january(events: &[Event]) -> Vec<Event> {
    filter_events(
        events,
        "test.com",
        &Date { year: 2024, month: 1, day: 1 },
        &Date { year: 2024, month: 2, day: 1 },
    )
}

#[test]
fn test_unique_visitors_empty() {
    let events: Vec<Event> = Vec::new();
    assert_eq!(unique_visitors(&in_january(&events)), 0);
}

#[test]
fn test_unique_visitors_counting() {
    let events = vec![
        pageview("v1", 15, 10, "/"),
        pageview("v1", 15, 10, "/about"),
        pageview("v2", 15, 11, "/"),
    ];
    assert_eq!(unique_visitors(&in_january(&events)), 2);
}

#[test]
fn test_unique_visitors_date_range() {
    // One event in January, one in February: only January is counted.
    let mut events = vec![pageview("v1", 15, 10, "/")];
    events.push(Event {
        timestamp: Timestamp { date: Date { year: 2024, month: 2, day: 15 }, secs: 36000 },
        ..pageview("v2", 15, 10, "/")
    });
    assert_eq!(unique_visitors(&in_january(&events)), 1);
}

#[test]
fn test_total_pageviews() {
    let events = vec![
        pageview("v1", 15, 10, "/"),
        pageview("v1", 15, 10, "/about"),
        pageview("v2", 15, 11, "/"),
    ];
    assert_eq!(total_pageviews(&in_january(&events)), 3);
}

#[test]
fn test_total_pageviews_excludes_custom_events() {
    let events = vec![
        pageview("v1", 15, 10, "/"),
        event("test.com", "v1", 15, 36060, "signup", "/"),
    ];
    assert_eq!(total_pageviews(&in_january(&events)), 1);
}

#[test]
fn test_core_metrics_empty() {
    let events: Vec<Event> = Vec::new();
    let metrics = core_metrics_of(&in_january(&events), 0);
    assert_eq!(metrics.unique_visitors, 0);
    assert_eq!(metrics.total_pageviews, 0);
    assert_eq!(metrics.pages_per_visit_milli, 0);
}

#[test]
fn test_core_metrics_with_data() {
    // Three pageviews from two distinct visitors: one and a half pages per
    // visit, carried in thousandths.
    let events = vec![
        pageview("v1", 15, 10, "/"),
        pageview("v1", 15, 10, "/about"),
        pageview("v2", 15, 11, "/"),
    ];
    let metrics = core_metrics_of(&in_january(&events), 0);
    assert_eq!(metrics.unique_visitors, 2);
    assert_eq!(metrics.total_pageviews, 3);
    assert_eq!(metrics.pages_per_visit_milli, 1500);
}

#[test]
fn test_filter_events_by_site() {
    let events = vec![pageview("v1", 15, 10, "/"), {
        let mut e = pageview("v1", 15, 10, "/");
        e.site_id = "other.com".to_string();
        e
    }];
    assert_eq!(in_january(&events).len(), 1);
}

#[test]
fn test_breakdown_by_page() {
    let events = vec![
        pageview("v1", 15, 10, "/"),
        pageview("v1", 15, 10, "/about"),
        pageview("v2", 15, 11, "/"),
    ];
    let rows = breakdown(&in_january(&events), Dimension::Page, 10);
    assert_eq!(rows.len(), 2);
    assert_eq!(rows[0].value, "/");
    assert_eq!(rows[0].visitors, 2);
    assert_eq!(rows[0].pageviews, 2);
}

#[test]
fn test_breakdown_by_browser() {
    let mut events = vec![
        pageview("v1", 15, 10, "/"),
        pageview("v2", 15, 10, "/"),
        pageview("v3", 15, 10, "/"),
    ];
    events[0].browser = Some("Chrome".to_string());
    events[1].browser = Some("Firefox".to_string());
    events[2].browser = Some("Chrome".to_string());
    let rows = breakdown(&in_january(&events), Dimension::Browser, 10);
    assert_eq!(rows.len(), 2);
    assert_eq!(rows[0].value, "Chrome");
    assert_eq!(rows[0].visitors, 2);
}

#[test]
fn test_breakdown_limit() {
    let events = vec![
        pageview("v1", 15, 10, "/a"),
        pageview("v2", 15, 10, "/b"),
        pageview("v3", 15, 10, "/c"),
    ];
    let rows = breakdown(&in_january(&events), Dimension::Page, 2);
    assert_eq!(rows.len(), 2);
}

#[test]
fn test_breakdown_empty() {
    let events: Vec<Event> = Vec::new();
    let rows = breakdown(&in_january(&events), Dimension::Page, 10);
    assert!(rows.is_empty());
}

#[test]
fn test_breakdown_null_values() {
    // An absent browser folds to "(unknown)".
    let events = vec![pageview("v1", 15, 10, "/")];
    let rows = breakdown(&in_january(&events), Dimension::Browser, 10);
    assert_eq!(rows.len(), 1);
    assert_eq!(rows[0].value, "(unknown)");
}

#[test]
fn test_timeseries_daily_buckets() {
    let events = vec![
        pageview("v1", 15, 10, "/"),
        pageview("v2", 15, 11, "/"),
        pageview("v1", 16, 10, "/"),
    ];
    let buckets = timeseries(&in_january(&events), Granularity::Day);
    assert_eq!(buckets.len(), 2);
    assert_eq!(buckets[0].date, "2024-01-15");
    assert_eq!(buckets[0].visitors, 2);
    assert_eq!(buckets[0].pageviews, 2);
    assert_eq!(buckets[1].date, "2024-01-16");
    assert_eq!(buckets[1].visitors, 1);
}

#[test]
fn test_timeseries_hourly_buckets() {
    let events = vec![pageview("v1", 15, 9, "/"), pageview("v1", 15, 11, "/")];
    let buckets = timeseries(&in_january(&events), Granularity::Hour);
    assert_eq!(buckets.len(), 2);
    assert_eq!(buckets[0].date, "2024-01-15 09:00");
    assert_eq!(buckets[1].date, "2024-01-15 11:00");
}

#[test]
fn test_group_by_partition_four_partitions() {
    // Ten events over two sites and two days yield exactly four partitions,
    // and no event is lost.
    let mut events: Vec<Event> = Vec::new();
    for i in 0..10u32 {
        let site = if i % 2 == 0 { "a.com" } else { "b.com" };
        let day = if i < 5 { 15 } else { 16 };
        events.push(event(site, "v", day, 3600 + i, "pageview", "/"));
    }
    let groups = group_by_partition(events);
    assert_eq!(groups.len(), 4);
    let total: usize = groups.iter().map(|g| g.2.len()).sum();
    assert_eq!(total, 10);
    for (site, date, group) in &groups {
        assert!(site == "a.com" || site == "b.com");
        assert!(date == "2024-01-15" || date == "2024-01-16");
        for e in group {
            assert_eq!(&e.site_id, site);
        }
    }
}

#[test]
fn test_group_by_partition_keys_distinct() {
    let events = vec![pageview("v1", 15, 10, "/"), pageview("v2", 15, 11, "/")];
    let groups = group_by_partition(events);
    assert_eq!(groups.len(), 1);
    assert_eq!(groups[0].0, "test.com");
    assert_eq!(groups[0].1, "2024-01-15");
    assert_eq!(groups[0].2.len(), 2);
}
