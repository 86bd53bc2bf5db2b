//! Continuous batching: many in-flight sequences share one decode step per
//! tick. What is here decides; the forward passes happen outside.
pub mod aborts;
pub mod admission;
pub mod config;
pub mod course;
pub mod ledger;
pub mod prefill;
pub mod queue;
pub mod rows;
pub mod totals;
pub mod worker;
