//! Sorting of a directory's entries into rule-driven destination folders:
//! rule lookup by extension, collision-free destination reservation,
//! protected-path guards, the decision logic of a failure-safe mover, and
//! the checks and path resolution that prepare a run.

pub mod text;
pub mod path;
pub mod config;
pub mod rules;
pub mod planner;
pub mod laws;
pub mod mover;
pub mod resolve;
pub mod report;
pub mod rcfile;
pub mod validate;
