//! Age-based file organizer: classifies filesystem entries by age and plans
//! their relocation into named bucket subdirectories.
//!
//! Paths are modeled as plain `String` values with `/` as the separator; all
//! planning logic here is pure, and the caller performs the filesystem reads
//! and writes it decides on.

pub mod classify;
pub mod config;
pub mod guard;
pub mod paths;
pub mod plan;
pub mod planner;
pub mod scan;
pub mod text;
