//! An in-memory key-value cache whose capacity follows memory pressure.
//!
//! `planner` maps a memory-utilisation percentage to a target entry count,
//! `store` holds the entries with their recency metadata, `eviction` brings
//! the store back under its target with a clock sweep followed by an
//! oldest-access fallback, `service` is the write path with its input limits,
//! and `laws` states properties that span several operations.
pub mod planner;
pub mod store;
pub mod eviction;
pub mod service;
pub mod laws;
