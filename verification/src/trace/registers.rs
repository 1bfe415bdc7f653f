//! The registers of a stopped process.

use vstd::prelude::*;

verus! {

/// What the tracer reads of a stopped process's registers.
#[derive(Clone, Copy, Debug, PartialEq, Eq)]
pub struct RegisterSnapshot {
    /// The number of the call that the process is entering or leaving.
    pub syscall_number: u64,
    /// The call's six argument registers, first argument first.
    pub arguments: [u64; 6],
    /// The register that holds the call's result, read as a signed number.
    pub return_value: i64,
}

impl RegisterSnapshot {
    /// The first argument register: for a call that takes a path, the
    /// address of the path in the process's memory.
    pub fn first_argument(&self) -> (address: u64)
        ensures
            address == self.arguments[0],
    {
        self.arguments[0]
    }
}

} // verus!
