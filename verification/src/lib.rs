//! Verified building blocks of a time-series database server: clock tolerances, the
//! mapping of monotonic instants onto wall-clock time, the encoding of job
//! trackers as long-running operations, write-buffer configuration and the
//! per-attribute observer registry behind a metric.

pub mod approximate_time;
pub mod assoc;
pub mod attributes;
pub mod metric;
pub mod operations;
pub mod order;
pub mod task_id;
pub mod tick_tolerance;
pub mod write_buffer_config;
