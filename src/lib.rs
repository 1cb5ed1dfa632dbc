//! Finds the recorded session that belongs to a version-control branch and
//! prepares the command that resumes it.

pub mod order;
pub mod walk;
pub mod text;
pub mod scan;
pub mod launch;
pub mod cli;
