//! A small engine for generating a tree of output files.
//!
//! Callers declare artifacts (an output path plus a source of bytes), the
//! planner freezes the set of declared paths, and every deferred source can
//! resolve the site reference of any declared path before any content exists.

pub mod artifact;
pub mod generate;
pub mod paths;
pub mod planner;
pub mod scheduler;
pub mod targets;
