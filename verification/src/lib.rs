//! Verified aggregation engine for electricity-market time series.
//!
//! Two independently sampled series — locational price and per-source
//! generation output — are reduced to a canonical profile of 288
//! five-minute buckets per day, and joined on exact timestamps to
//! compute a quantity-weighted economic value per generation source.
//! Monetary and energy quantities are fixed-point integers (thousandths
//! of a unit); the unverified front end converts at the I/O boundary.

pub mod compute;
pub mod convert;
