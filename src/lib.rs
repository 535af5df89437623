//! Detects packages of a resolved lockfile that are present at more than one
//! version, and names the direct dependents that pull in each version.
//!
//! The stages run in turn: `graph` builds the dependency graph from the
//! lockfile's records, `grouping` finds the names present at two or more
//! versions, `parents` finds who depends on each of those versions, and
//! `report` puts the outcome together. `pipeline` runs them all, and `laws`
//! states what holds of the outcome as a whole.
pub mod graph;
pub mod grouping;
pub mod laws;
pub mod package;
pub mod parents;
pub mod pipeline;
pub mod report;
