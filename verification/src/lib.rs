//! A batch statement runner core: splits a line-oriented script into
//! statements, drives their sequential execution, and aggregates
//! execution failures with a periodic flush policy.
pub mod accumulator;
pub mod classify;
pub mod driver;
pub mod errorsink;
pub mod laws;
pub mod numfmt;

use vstd::prelude::*;

verus! {

/// Number of processed statements between two periodic error flushes.
pub const FLUSH_INTERVAL: u64 = 100;

} // verus!
