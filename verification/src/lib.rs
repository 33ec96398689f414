//! Metadata catalog for artwork records: category partitioning, character
//! filters, an order-preserving batch lookup, recency-sorted id listings,
//! idempotent upserts and default-on-failure statistics.

pub mod api;
pub mod artwork;
pub mod filter;
pub mod stats;
pub mod store;
pub mod text;
