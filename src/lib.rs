//! Point-in-time copies of metric readings, rendered as Prometheus text,
//! human-readable lines and JSON.

pub mod guarantees;
pub mod snapshot;
pub mod text;

pub use snapshot::{Metric, MetricsSnapshot, Output};
