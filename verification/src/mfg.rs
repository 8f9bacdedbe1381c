//! Manufacturing and assembly output: the build order and its instructions, and the choice of
//! a manufacturing route for a build volume.
//!
//! Everything here is derived from the resolved model; nothing is authored twice.

pub mod bench_law;
pub mod bom;
pub mod fasteners;
pub mod grouping;
pub mod markdown;
pub mod step_laws;
pub mod steps;
pub mod tally;
