//! A time-indexed log of throughput reports from a fleet of named servers,
//! with a liveness model derived from sample age.
//!
//! The crate is organised around four pieces:
//! - [`models`]: the row types — one throughput sample, one catalog entry —
//!   and their mathematical views.
//! - [`store`]: an append-only log of samples keyed by time, with
//!   bounded recent-window queries per server.
//! - [`freshness`]: the pure rules that turn the age of the most recent
//!   sample into a current rate or an online/offline judgment.
//! - [`ingest`] and [`query`]: the services that validate reports into the
//!   store and answer single-server and fleet-wide status questions.

pub mod freshness;
pub mod ingest;
pub mod models;
pub mod query;
pub mod store;
mod text;
