//! Core of a fleet reachability monitor: per-round aggregation of probe
//! results (OR across a check's addresses, AND across a device's checks),
//! a capacity-bounded admission model for outbound probes, a per-device
//! alert cooldown/recovery state machine, and round pacing.

pub mod admission;
pub mod alert;
pub mod config;
pub mod fleet;
pub mod orchestrator;
pub mod scheduler;
