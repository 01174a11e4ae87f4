//! Counters and gauges describing endpoint health, and alerting on them.

pub mod clock;
pub mod metrics;

pub use metrics::{AlertKind, AlertThresholds, MetricSnapshot, Metrics};
