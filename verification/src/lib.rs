//! A micro-benchmark harness: the run loop that separates warm-up from timed
//! iterations over a pool of inputs, the configuration it runs under, the
//! naming and generation of its inputs, and the tabular report it produces.

pub mod benchmarks;
pub mod config;
pub mod document;
pub mod engine;
pub mod report;
pub mod text;

pub use crate::config::BaseConfig;
