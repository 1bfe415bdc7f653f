//! A syscall tracer's decision logic, with the small shell, file finder and
//! collection utilities that grew up around it.

pub mod args;
pub mod find;
pub mod maps;
pub mod sequences;
pub mod shell;
pub mod strings;
pub mod text;
pub mod trace;
