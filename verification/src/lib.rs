//! Range-reconciliation store interface and its latency-recording decorator.

pub mod hash;
pub mod key;
pub mod laws;
pub mod memory;
pub mod metrics;
pub mod model;
pub mod store;
pub mod store_metrics;
