//! An equality-saturation optimizer for tensor computation graphs: an e-graph
//! over a closed tensor operator language, a rewrite engine with resource
//! limits, a cycle filter, and extraction of a minimum-cost program.
pub mod analysis;
pub mod input;
pub mod egraph;
pub mod pattern;
pub mod rewrites;
pub mod runner;
pub mod model;
pub mod optimize;
