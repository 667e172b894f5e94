//! A read-only tailing viewer for an append-only, globally ordered event log.
//!
//! The library holds the verified core: a resumable cursor over the log with
//! reset detection, query construction for tail and historical range reads,
//! row filtering, and deterministic colorized rendering of log records.

pub mod color;
pub mod doc;
pub mod engine;
pub mod query;
pub mod render;
pub mod text;
