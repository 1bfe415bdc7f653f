//! The tracer: what it decides from the events of the traced processes.

pub mod decode;
pub mod error;
pub mod event;
pub mod filter;
pub mod laws;
pub mod memory;
pub mod process;
pub mod registers;
pub mod supervisor;
pub mod syscalls;

pub use decode::{trace_posthook, trace_prehook};
pub use filter::TraceOption;
pub use supervisor::trace;
