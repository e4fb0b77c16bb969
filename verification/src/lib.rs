//! A registry of named "series": immutable templates with delegated
//! ownership, a per-series approval set, and positionally named mutable
//! token attributes. Every mutating operation is wrapped in storage-cost
//! accounting: the caller prepays, the measured byte growth is charged,
//! and the surplus is refunded.

pub mod attrs;
pub mod errors;
pub mod registry;
pub mod keys;
pub mod laws;
pub mod store;
pub mod types;
pub mod usage;
