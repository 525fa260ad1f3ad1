//! Cross-site aggregation: per-site results are merged into one view in
//! which a failing site is recorded and skipped instead of failing the whole.

pub mod types;
pub mod alarm_aggregator;
pub mod energy_aggregator;
