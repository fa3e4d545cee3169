//! Discrete-event simulation of a manufacturing line: an event timeline,
//! machines and staff with skill restrictions, a scheduling engine that
//! acquires staff for machines, and a dispatcher that moves items through
//! an ordered sequence of process steps.

pub mod time;
pub mod machine;
pub mod staff;
pub mod batch;
pub mod scheduling;
pub mod line;
pub mod config;
pub mod log_level;
pub mod args;
pub mod report;
pub mod materials;
