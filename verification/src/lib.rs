//! A verified staged engagement pipeline.
//!
//! Input records flow from a source stage through a classifier, an
//! actuator and an outcome stage, while an aggregator tallies every
//! stage's output into an immutable snapshot. This crate holds the
//! stages' decision logic, the record parser, the aggregation rules and
//! the laws that tie them together; the asynchronous channel plumbing
//! around them lives with the caller.

pub mod count;
pub mod fire_assessment;
pub mod fire_unit;
pub mod iff;
pub mod radar;
pub mod simulation;
pub mod stats;
