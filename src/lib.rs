//! Inspection of PATH-like environment variables: the entries of each
//! variable's value, split on a separator character, filtered by a regular
//! expression and optionally deduplicated, one entry per output line.
pub mod entries;
pub mod error;
pub mod laws;
pub mod pattern;
pub mod run;
pub mod variables;
