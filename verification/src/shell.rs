//! The shell: reading, joining and parsing command lines.

pub mod cmdline;
pub mod continuation;
pub mod editor;
