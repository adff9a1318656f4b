//! Pattern-based batch renaming: a rename plan is computed from an anchored
//! regular expression and a substitution template, checked for conflicts,
//! and handed out entry by entry for execution.
pub mod execute;
pub mod laws;
pub mod options;
pub mod paths;
pub mod pattern;
pub mod plan;
pub mod report;
pub mod text;
pub mod validate;
