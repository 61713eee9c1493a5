//! Enumeration of short domain-name candidates and the rules by which one
//! availability lookup per candidate is classified, counted and reported.

pub mod aggregate;
pub mod candidates;
pub mod checker;
pub mod generator;
pub mod outcome;
pub mod progress;
pub mod report;
pub mod scan;
pub mod text;
