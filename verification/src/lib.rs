//! Weather reporting core: turns raw three-hour forecast samples into daily
//! summaries per location and gathers per-location results into one report.
//!
//! Temperatures are carried as `i64` keys. A key is any encoding of a reading
//! whose integer order is the order of the readings; the library only compares
//! keys and hands the extreme ones back, it never does arithmetic on them.

pub mod config;
pub mod forecast;
pub mod gather;
pub mod report;
pub mod strings;
pub mod text;
pub mod time;
pub mod units;
