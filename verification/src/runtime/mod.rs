//! Runtimes: how frames get to the analysis.

pub mod offline;
