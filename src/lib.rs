//! Caching core of a DNS forwarding resolver.
//!
//! `record` turns resolved addresses into resource records, `cache` is the
//! store of answers keyed by name and record type, and `forwarding` holds the
//! decisions of one lookup: serve a fresh cached answer, or take the upstream
//! result, build records from it and store them.
pub mod record;
pub mod cache;
pub mod forwarding;
