//! The server configuration and its defaults. Reading a configuration file
//! and the environment is I/O and happens outside the library; the defaults
//! and derived paths live here.

use vstd::prelude::*;

verus! {

/// Application configuration.
#[derive(Debug, Clone)]
pub struct Config {
    pub host: String,
    pub port: u16,
    pub data_dir: String,
    pub flush_event_count: usize,
    pub flush_interval_secs: u64,
    pub site_ids: Vec<String>,
    pub geoip_db_path: Option<String>,
    pub dashboard_origin: Option<String>,
    pub filter_bots: bool,
    pub retention_days: u32,
    pub session_ttl_secs: u64,
    pub shutdown_timeout_secs: u64,
    pub rate_limit_per_site: u32,
    pub cache_ttl_secs: u64,
}

/// The default bind host.
pub fn default_host() -> (r: String)
    ensures
        r@ == "0.0.0.0"@,
{
    String::from_str("0.0.0.0")
}

/// The default port.
pub fn default_port() -> (r: u16)
    ensures
        r == 8000,
{
    8000
}

/// The default data directory.
pub fn default_data_dir() -> (r: String)
    ensures
        r@ == "data"@,
{
    String::from_str("data")
}

/// The default flush threshold, in events.
pub fn default_flush_count() -> (r: usize)
    ensures
        r == 1000,
{
    1000
}

/// The default flush interval, in seconds.
pub fn default_flush_interval_secs() -> (r: u64)
    ensures
        r == 60,
{
    60
}

/// Whether bot traffic is filtered by default.
pub fn default_filter_bots() -> (r: bool)
    ensures
        r,
{
    true
}

/// The default session TTL: one day.
pub fn default_session_ttl_secs() -> (r: u64)
    ensures
        r == 86400,
{
    86400
}

/// The default graceful-shutdown timeout, in seconds.
pub fn default_shutdown_timeout_secs() -> (r: u64)
    ensures
        r == 30,
{
    30
}

/// The default query cache TTL, in seconds.
pub fn default_cache_ttl_secs() -> (r: u64)
    ensures
        r == 60,
{
    60
}

impl Default for Config {
    /// The default configuration: every field at its documented default,
    /// unlimited retention, no rate limit, no allow-list.
    fn default() -> (r: Self)
        ensures
            r.host@ == "0.0.0.0"@,
            r.port == 8000,
            r.data_dir@ == "data"@,
            r.flush_event_count == 1000,
            r.flush_interval_secs == 60,
            r.site_ids@.len() == 0,
            r.geoip_db_path is None,
            r.dashboard_origin is None,
            r.filter_bots,
            r.retention_days == 0,
            r.session_ttl_secs == 86400,
            r.shutdown_timeout_secs == 30,
            r.rate_limit_per_site == 0,
            r.cache_ttl_secs == 60,
    {
        Config {
            host: default_host(),
            port: default_port(),
            data_dir: default_data_dir(),
            flush_event_count: default_flush_count(),
            flush_interval_secs: default_flush_interval_secs(),
            site_ids: Vec::new(),
            geoip_db_path: None,
            dashboard_origin: None,
            filter_bots: default_filter_bots(),
            retention_days: 0,
            session_ttl_secs: default_session_ttl_secs(),
            shutdown_timeout_secs: default_shutdown_timeout_secs(),
            rate_limit_per_site: 0,
            cache_ttl_secs: default_cache_ttl_secs(),
        }
    }
}

impl Config {
    /// The events directory below the data directory.
    pub fn events_dir(&self) -> (r: String)
        ensures
            r@ == self.data_dir@ + "/events"@,
    {
        let mut r = self.data_dir.clone();
        r.append("/events");
        r
    }
}

} // verus!
