//! Core of a vigilance-task simulation: dials whose needles drift along
//! procedurally generated paths and must be brought back into a target range
//! by an operator before too long. Out-of-range dials raise alarms, queued
//! first-in first-out until the operator acknowledges them with a key press.
//!
//! Needle positions are integers in thousandths of a dial unit; times are
//! integers in milliseconds.

pub mod config;
pub mod dial;
mod rng;
pub mod sim;
