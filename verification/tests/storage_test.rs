use mallard_metrics::dates::Date;
use mallard_metrics::storage::{
    copy_partition_sql, delete_partition_sql, file_name, is_safe_path_component,
    list_partitions_sql, passthrough_view_sql, should_remove_partition, union_view_sql,
    ParquetStorage,
};

#[test]
fn test_is_safe_path_component_valid() {
    assert!(is_safe_path_component("example.com"));
    assert!(is_safe_path_component("my-site.org"));
    assert!(is_safe_path_component("site123"));
}

#[test]
fn test_is_safe_path_component_rejects_traversal() {
    assert!(!is_safe_path_component("../../../etc"));
    assert!(!is_safe_path_component("site/../secret"));
    assert!(!is_safe_path_component("site/../../passwd"));
}

#[test]
fn test_is_safe_path_component_rejects_slashes() {
    assert!(!is_safe_path_component("site/subdir"));
    assert!(!is_safe_path_component("site\\subdir"));
}

#[test]
fn test_is_safe_path_component_rejects_empty() {
    assert!(!is_safe_path_component(""));
}

#[test]
fn test_is_safe_path_component_rejects_null() {
    assert!(!is_safe_path_component("site\0id"));
}

#[test]
fn test_is_safe_path_component_rejects_overlong() {
    let long = "a".repeat(257);
    assert!(!is_safe_path_component(&long));
    let max = "a".repeat(256);
    assert!(is_safe_path_component(&max));
}

#[test]
fn test_partition_dir() {
    let storage = ParquetStorage::new("/data/events");
    let dir = storage.partition_dir("example.com", "2024-01-15");
    assert_eq!(dir, "/data/events/site_id=example.com/date=2024-01-15");
}

#[test]
fn test_file_name_zero_padded() {
    assert_eq!(file_name(1), "0001.parquet");
    assert_eq!(file_name(42), "0042.parquet");
    assert_eq!(file_name(12345), "12345.parquet");
}

#[test]
fn test_copy_partition_sql_escapes_site() {
    let sql = copy_partition_sql("it's.com", "2024-01-15", "/data/0001.parquet");
    assert!(sql.contains("site_id = 'it''s.com'"));
    assert!(sql.contains("TO '/data/0001.parquet'"));
    assert!(sql.contains("FORMAT PARQUET"));
    assert!(sql.contains("'2024-01-15'"));
}

#[test]
fn test_delete_partition_sql() {
    let sql = delete_partition_sql("example.com", "2024-01-15");
    assert_eq!(
        sql,
        "DELETE FROM events WHERE site_id = 'example.com' AND STRFTIME(CAST(timestamp AS DATE), '%Y-%m-%d') = '2024-01-15'"
    );
}

#[test]
fn test_should_remove_old_partition() {
    // A partition from 2020 is removed under a cutoff in 2024; one at the
    // cutoff or later is kept; names without the date prefix are ignored.
    let cutoff = Date { year: 2024, month: 1, day: 15 };
    assert!(should_remove_partition("date=2020-06-15", &cutoff));
    assert!(!should_remove_partition("date=2024-01-15", &cutoff));
    assert!(!should_remove_partition("date=2024-06-15", &cutoff));
    assert!(!should_remove_partition("notes.txt", &cutoff));
    assert!(!should_remove_partition("site_id=example.com", &cutoff));
}

#[test]
fn test_should_remove_partition_lexicographic() {
    let cutoff = Date { year: 2024, month: 2, day: 1 };
    assert!(should_remove_partition("date=2024-01-31", &cutoff));
    assert!(!should_remove_partition("date=2024-02-01", &cutoff));
}

#[test]
fn test_union_view_sql_glob() {
    let sql = union_view_sql("/data/events");
    assert!(sql.contains("read_parquet('/data/events/site_id=*/date=*/*.parquet'"));
    assert!(sql.starts_with("CREATE OR REPLACE VIEW events_all AS SELECT * FROM events UNION ALL"));
    // A quote in the base path cannot break out of the SQL literal.
    let tricky = union_view_sql("/da'ta");
    assert!(tricky.contains("'/da''ta/site_id=*/date=*/*.parquet'"));
}

#[test]
fn test_passthrough_and_partition_listing_sql() {
    assert_eq!(
        passthrough_view_sql(),
        "CREATE OR REPLACE VIEW events_all AS SELECT * FROM events"
    );
    assert!(list_partitions_sql().contains("GROUP BY site_id, d"));
}

#[test]
fn test_partition_path_stays_under_base() {
    // Any site_id passing the safe-path rule yields a partition directory
    // that extends the base directory with exactly two components, neither
    // of which can traverse upward.
    let storage = ParquetStorage::new("/data/events");
    for site in ["example.com", "a-b_c:d", "x.y.z"] {
        assert!(is_safe_path_component(site));
        let dir = storage.partition_dir(site, "2024-01-15");
        assert!(dir.starts_with("/data/events/"));
        let rest = &dir["/data/events/".len()..];
        assert!(!rest.contains(".."));
        assert_eq!(rest.matches('/').count(), 1);
    }
}
