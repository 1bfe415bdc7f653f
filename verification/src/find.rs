//! The file finder: which paths match which patterns.

pub mod options;
pub mod pattern;
pub mod walk;
