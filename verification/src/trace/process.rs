//! The state kept for each traced process.

use vstd::prelude::*;
use crate::text::texts;

verus! {

/// Which of the two stops of a call a process will make next.
#[derive(Clone, Copy, Debug, PartialEq, Eq, Structural)]
pub enum Phase {
    /// The next stop is the entry of a call.
    AwaitingEntry,
    /// The next stop is the exit of the call that was entered.
    AwaitingExit,
}

impl Phase {
    /// The other phase.
    pub open spec fn flipped(self) -> Phase {
        match self {
            Phase::AwaitingEntry => Phase::AwaitingExit,
            Phase::AwaitingExit => Phase::AwaitingEntry,
        }
    }

    /// The other phase.
    pub fn flip(self) -> (other: Phase)
        ensures
            other == self.flipped(),
            other != self,
    {
        match self {
            Phase::AwaitingEntry => Phase::AwaitingExit,
            Phase::AwaitingExit => Phase::AwaitingEntry,
        }
    }
}

/// What the tracer remembers of one traced process between its stops.
#[derive(Clone, Debug, PartialEq, Eq)]
pub struct ProcessState {
    /// The process.
    pub pid: i32,
    /// The stop that comes next.
    pub phase: Phase,
    /// The name of the call that the process is in, once its entry stop
    /// was decoded; empty between calls.
    pub name: String,
    /// The fragments of the line that is being put together: the entry
    /// fragment while the call runs, nothing between calls.
    pub pending_line: Vec<String>,
}

/// A process's state as plain values.
pub struct ProcessModel {
    pub pid: i32,
    pub phase: Phase,
    pub name: Seq<char>,
    pub pending: Seq<Seq<char>>,
}

impl ProcessModel {
    /// The state of a process that was just seen for the first time.
    pub open spec fn fresh(pid: i32) -> ProcessModel {
        ProcessModel {
            pid,
            phase: Phase::AwaitingEntry,
            name: Seq::empty(),
            pending: Seq::empty(),
        }
    }

    /// A line in the making holds the entry fragment while the exit is
    /// awaited, and nothing while an entry is awaited.
    pub open spec fn wf(self) -> bool {
        match self.phase {
            Phase::AwaitingEntry => self.pending.len() == 0,
            Phase::AwaitingExit => self.pending.len() == 1,
        }
    }
}

impl View for ProcessState {
    type V = ProcessModel;

    open spec fn view(&self) -> ProcessModel {
        ProcessModel {
            pid: self.pid,
            phase: self.phase,
            name: self.name@,
            pending: texts(self.pending_line@),
        }
    }
}

impl ProcessState {
    /// The state of a process that was just seen for the first time.
    pub fn new(pid: i32) -> (state: ProcessState)
        ensures
            state@ == ProcessModel::fresh(pid),
            state@.wf(),
    {
        let state = ProcessState {
            pid,
            phase: Phase::AwaitingEntry,
            name: String::new(),
            pending_line: Vec::new(),
        };
        assert(texts(state.pending_line@) =~= Seq::<Seq<char>>::empty());
        state
    }
}

} // verus!
