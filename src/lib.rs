//! An in-process key-value cache with per-entry time-to-live and a size bound.
//!
//! Time is kept as a number of nanoseconds since the cache was built. Each
//! operation that reads the clock has a twin ending in `_at` that takes that
//! number as an argument, and whose contract says exactly what it does.

pub mod cache;
pub mod laws;
mod clock;
pub mod stats;

pub use cache::{Cache, CacheEntry, CacheResult};
pub use stats::CacheStats;
