//! What can go wrong while tracing.

use vstd::prelude::*;
use vstd::string::*;

verus! {

/// Why a string could not be read from a traced process's memory.
#[derive(Clone, Copy, Debug, PartialEq, Eq, Structural)]
pub enum ReadError {
    /// The process's memory at `address` could not be read: the address is
    /// not mapped, or the process is gone.
    Unreadable { address: u64 },
    /// The string runs past the end of the address space.
    AddressOverflow,
}

/// The text of a string read from a process, or the failure to read it.
pub open spec fn read_text(read: Result<String, ReadError>) -> Result<Seq<char>, ReadError> {
    match read {
        Ok(s) => Ok(s@),
        Err(e) => Err(e),
    }
}

/// A failure that ends the whole trace.
#[derive(Clone, Copy, Debug, PartialEq, Eq, Structural)]
pub enum TraceError {
    /// The traced process could not be created or set up.
    Spawn,
    /// Waiting for the next event of the traced processes failed.
    Wait,
    /// A stopped process could not be sent on to its next syscall boundary.
    Resume,
}

/// An allow list and a deny list were both given.
#[derive(Clone, Copy, Debug, PartialEq, Eq, Structural)]
pub struct ConfigError;

impl TraceError {
    /// The message shown for the error.
    pub open spec fn message_text(self) -> Seq<char> {
        match self {
            TraceError::Spawn => "could not start the traced process"@,
            TraceError::Wait => "waiting for the traced processes failed"@,
            TraceError::Resume => "could not resume the traced process"@,
        }
    }

    /// The message shown for the error.
    pub fn message(&self) -> (s: String)
        ensures
            s@ == self.message_text(),
    {
        match self {
            TraceError::Spawn => String::from_str("could not start the traced process"),
            TraceError::Wait => String::from_str("waiting for the traced processes failed"),
            TraceError::Resume => String::from_str("could not resume the traced process"),
        }
    }
}

impl ConfigError {
    /// The message shown for the error.
    pub open spec fn message_text(self) -> Seq<char> {
        "the lists of calls to trace and of calls not to trace exclude each other"@
    }

    /// The message shown for the error.
    pub fn message(&self) -> (s: String)
        ensures
            s@ == self.message_text(),
    {
        String::from_str("the lists of calls to trace and of calls not to trace exclude each other")
    }
}

} // verus!
