//! A packet-processing pipeline framework comparing two per-core scheduling
//! disciplines (centralized and distributed software scheduling) for
//! fixed-stage compute pipelines.
//!
//! This crate holds the verified core: the message and pipeline model, the
//! round-robin dispatch and the controller and worker transition logic, the
//! latency histograms, and the TSC cycle calibrator.

pub mod controller;
pub mod harness;
pub mod histogram;
pub mod tsc;
pub mod types;
pub mod workers;
