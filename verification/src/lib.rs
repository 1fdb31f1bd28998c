//! A self-hosted web analytics core: privacy-preserving visitor
//! fingerprinting, user-agent and referrer classification, a bounded event
//! buffer with rollback on failed flushes, per-site token-bucket rate
//! limiting, partitioned columnar storage paths, query-parameter validation,
//! and an authentication layer (password hashes, sessions, API keys with
//! constant-time validation, login lockout).

pub mod auth;
pub mod buffer;
pub mod cache;
pub mod clock;
pub mod config;
pub mod dates;
pub mod errors;
pub mod fingerprint;
pub mod hashes;
pub mod ingest;
pub mod kvlist;
pub mod lockout;
pub mod metrics;
pub mod params;
pub mod queries;
pub mod ratelimit;
pub mod storage;
pub mod text;
pub mod useragent;
