//! Verified core of a terminal status-line renderer for interactive
//! development sessions.
//!
//! The library derives session telemetry (context-usage percentage, session
//! duration, cumulative cost) from an append-only transcript log, memoizes
//! external lookups behind a per-session TTL cache, classifies
//! version-control status output, and buckets code-review check results.
//! All file, process and network I/O lives outside the library; callers hand
//! in plain values (strings, integers) and receive plain values back.

pub mod strutil;
pub mod numfmt;
pub mod pricing;
pub mod transcript;
pub mod cache;
pub mod gitstatus;
pub mod checks;
pub mod display;
pub mod compose;
