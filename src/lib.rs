//! Finds logging calls that stand outside the one module allowed to make them,
//! and reports where they are.
pub mod order;
pub mod path_filter;
pub mod report;
pub mod scan;
pub mod position;
pub mod scanner;
pub mod tally;
