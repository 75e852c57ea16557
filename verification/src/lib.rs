//! Workloads of random-position insertions for timing incremental sequence
//! containers.
//!
//! The crate decides what an experiment does: where each element goes, which
//! container operations carry an insertion out, and in which order the
//! measurements of a whole experiment are taken. Whoever runs an experiment
//! performs those operations on a container, between two readings of the
//! clock, and emits the record of each measurement.

pub mod actions;
pub mod container;
pub mod controller;
pub mod sampler;
pub mod scripts;
pub mod strategies;
pub mod timing;
pub mod workload;
