//! Line-oriented data ingestion for a terminal chart renderer.
//!
//! The crate turns comma-separated text lines into typed datasets: a
//! [`column::Column`] selector decides which header field plays the X or
//! Epoch role, a [`schema::Schema`] maps the remaining fields onto named
//! series, and a [`fetcher::Fetcher`] runs one full read pass, grouping
//! rows into datasets according to a fixed fetch mode (streaming,
//! batched, or snapshot) and computing the exact event sequence the
//! consumer sees.

pub mod column;
pub mod fetcher;
pub mod schema;
pub mod series;
pub mod text;
