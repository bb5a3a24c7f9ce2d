//! Aggregate and projection operators of a columnar query engine.

pub mod types;
pub mod accumulator;
pub mod column;
pub mod expr;
pub mod grouping;
pub mod kernels;
pub mod aggregate;
pub mod projection;
