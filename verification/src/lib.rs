//! The core of a host metrics exporter: what is sampled from the host, the
//! series it is written to, and when the next push is due.
pub mod collector;
pub mod config;
pub mod devices;
pub mod families;
pub mod host;
pub mod laws;
pub mod metrics;
pub mod model;
pub mod registry;
pub mod scheduler;
pub mod series;
