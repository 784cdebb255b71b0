//! Orbit keeps a set of containerised services running: it validates service
//! definitions, starts and stops pods, scales them by load, rolls out new
//! images and keeps the proxy's backends in step.
//!
//! This crate holds the decisions. It performs no I/O and reads no clock:
//! what was observed comes in as plain values, and what is to be done goes out
//! as plain values.

pub mod api;
pub mod config;
pub mod container;
pub mod level;
pub mod logger;
pub mod metrics;
pub mod pattern;
pub mod proxy;
pub mod rolling_update;
pub mod rounding;
pub mod scale;
pub mod status;
pub mod stores;
pub mod text;
